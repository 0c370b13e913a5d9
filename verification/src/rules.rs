use vstd::prelude::*;
use crate::board::{saturating_sub_i32, saturating_sub_spec, GameState};
use crate::piece::TetrisPos;
use crate::ruleset::TetrisRuleset;

verus! {

/// Whether the rest test of a block at `p` can look up the cell below it.
pub open spec fn rest_lookup_ok(state: GameState, p: TetrisPos) -> bool {
    p.1 == 0 || state.below_index_ok(p)
}

/// Whether some block of `piece` has to come to rest.
pub open spec fn any_rests(state: GameState, piece: Seq<TetrisPos>) -> bool {
    exists|i: int| 0 <= i < piece.len() && #[trigger] state.rests(piece[i])
}

/// Whether some block of `piece` lies on cell `k`.
pub open spec fn covers(state: GameState, piece: Seq<TetrisPos>, k: int) -> bool {
    exists|i: int| 0 <= i < piece.len() && #[trigger] state.block_index(piece[i]) == k
}

/// A block one row lower, never below `i32::MIN`.
pub open spec fn fallen(p: TetrisPos) -> TetrisPos {
    TetrisPos(p.0, saturating_sub_spec(p.1, 1))
}

/// One gravity step for the falling piece. If any of its blocks has to come
/// to rest, every block is placed in the well and `true` is returned (the
/// piece has landed); otherwise every block falls one row.
pub fn gravity_system(state: &mut GameState, piece: &mut Vec<TetrisPos>) -> (placed: bool)
    requires
        forall|i: int|
            0 <= i < old(piece)@.len() && (forall|j: int|
                0 <= j < i ==> !#[trigger] old(state).rests(old(piece)@[j])) ==> rest_lookup_ok(
                *old(state),
                #[trigger] old(piece)@[i],
            ),
        any_rests(*old(state), old(piece)@) ==> forall|i: int|
            0 <= i < old(piece)@.len() ==> #[trigger] old(state).block_index_ok(old(piece)@[i]),
    ensures
        final(state).width() == old(state).width(),
        final(state).score() == old(state).score(),
        final(state).cells().len() == old(state).cells().len(),
        placed == any_rests(*old(state), old(piece)@),
        placed ==> final(piece)@ == old(piece)@,
        placed ==> forall|i: int|
            0 <= i < old(piece)@.len() ==> final(state).cells()[#[trigger] old(state).block_index(
                old(piece)@[i],
            )] == 1,
        placed ==> forall|k: int|
            0 <= k < old(state).cells().len() ==> #[trigger] final(state).cells()[k] == if covers(
                *old(state),
                old(piece)@,
                k,
            ) {
                1u8
            } else {
                old(state).cells()[k]
            },
        !placed ==> *final(state) == *old(state),
        !placed ==> final(piece)@.len() == old(piece)@.len(),
        !placed ==> forall|i: int|
            0 <= i < old(piece)@.len() ==> #[trigger] final(piece)@[i] == fallen(old(piece)@[i]),
{
    let placed = piece_rests(state, piece);
    if placed {
        place_piece(state, piece);
        assert forall|i: int| 0 <= i < old(piece)@.len() implies state.cells()[#[trigger] old(
            state,
        ).block_index(old(piece)@[i])] == 1 by {
            assert(old(state).block_index_ok(old(piece)@[i]));
            assert(covers(*old(state), old(piece)@, old(state).block_index(old(piece)@[i])));
        }
    } else {
        drop_piece(piece);
    }
    placed
}

/// Whether some block of `piece` has to come to rest.
fn piece_rests(state: &GameState, piece: &Vec<TetrisPos>) -> (rest: bool)
    requires
        forall|i: int|
            0 <= i < piece@.len() && (forall|j: int|
                0 <= j < i ==> !#[trigger] state.rests(piece@[j])) ==> rest_lookup_ok(
                *state,
                #[trigger] piece@[i],
            ),
    ensures
        rest == any_rests(*state, piece@),
{
    let mut should_rest = false;
    let mut i: usize = 0;
    while i < piece.len() && !should_rest
        invariant
            0 <= i <= piece@.len(),
            forall|i: int|
                0 <= i < piece@.len() && (forall|j: int|
                    0 <= j < i ==> !#[trigger] state.rests(piece@[j])) ==> rest_lookup_ok(
                    *state,
                    #[trigger] piece@[i],
                ),
            !should_rest ==> forall|j: int| 0 <= j < i ==> !#[trigger] state.rests(piece@[j]),
            should_rest ==> any_rests(*state, piece@),
        decreases piece@.len() - i,
    {
        assert(rest_lookup_ok(*state, piece@[i as int]));
        if state.should_rest(&piece[i]) {
            should_rest = true;
        }
        i = i + 1;
    }
    should_rest
}

/// Places every block of `piece` in the well.
fn place_piece(state: &mut GameState, piece: &Vec<TetrisPos>)
    requires
        forall|i: int| 0 <= i < piece@.len() ==> #[trigger] old(state).block_index_ok(piece@[i]),
    ensures
        final(state).width() == old(state).width(),
        final(state).score() == old(state).score(),
        final(state).cells().len() == old(state).cells().len(),
        forall|k: int|
            0 <= k < old(state).cells().len() ==> #[trigger] final(state).cells()[k] == if covers(
                *old(state),
                piece@,
                k,
            ) {
                1u8
            } else {
                old(state).cells()[k]
            },
{
    let ghost start = *state;
    let n = piece.len();
    for i in 0..n
        invariant
            n == piece@.len(),
            state.width() == start.width(),
            state.score() == start.score(),
            state.cells().len() == start.cells().len(),
            forall|i: int| 0 <= i < piece@.len() ==> #[trigger] start.block_index_ok(piece@[i]),
            forall|k: int|
                0 <= k < start.cells().len() ==> #[trigger] state.cells()[k] == if covers(
                    start,
                    piece@.take(i as int),
                    k,
                ) {
                    1u8
                } else {
                    start.cells()[k]
                },
    {
        assert(start.block_index_ok(piece@[i as int]));
        state.place_block(piece[i]);
        assert forall|k: int| 0 <= k < start.cells().len() implies #[trigger] state.cells()[k]
            == if covers(start, piece@.take(i + 1), k) {
            1u8
        } else {
            start.cells()[k]
        } by {
            let prefix = piece@.take(i as int);
            let longer = piece@.take(i + 1);
            if covers(start, prefix, k) {
                let j = choose|j: int|
                    0 <= j < prefix.len() && #[trigger] start.block_index(prefix[j]) == k;
                assert(longer[j] == prefix[j]);
            }
            if covers(start, longer, k) {
                let j = choose|j: int|
                    0 <= j < longer.len() && #[trigger] start.block_index(longer[j]) == k;
                if j < i {
                    assert(prefix[j] == longer[j]);
                }
            }
            if k == start.block_index(piece@[i as int]) {
                assert(longer[i as int] == piece@[i as int]);
            }
        }
    }
    assert(piece@.take(n as int) =~= piece@);
}

/// Moves every block of `piece` one row down.
fn drop_piece(piece: &mut Vec<TetrisPos>)
    ensures
        final(piece)@.len() == old(piece)@.len(),
        forall|i: int|
            0 <= i < old(piece)@.len() ==> #[trigger] final(piece)@[i] == fallen(old(piece)@[i]),
{
    let n = piece.len();
    for i in 0..n
        invariant
            n == old(piece)@.len(),
            piece@.len() == n,
            forall|j: int| 0 <= j < i ==> #[trigger] piece@[j] == fallen(old(piece)@[j]),
            forall|j: int| i <= j < n ==> #[trigger] piece@[j] == old(piece)@[j],
    {
        let pos = piece[i];
        piece.set(i, TetrisPos(pos.0, saturating_sub_i32(pos.1, 1)));
    }
}

/// The key pressed this frame, in the order the keys are looked at: the
/// move-left key first, then move-right, then rotate.
#[derive(Clone, Copy, Debug, PartialEq, Eq, Structural)]
pub enum ControlInput {
    MoveLeft,
    MoveRight,
    Rotate,
    Idle,
}

/// What a key press did.
#[derive(Clone, Copy, Debug, PartialEq, Eq, Structural)]
pub enum ControlOutcome {
    /// The piece moved one column.
    Moved,
    /// The piece stayed where it was.
    Stayed,
    /// A rotation of the piece is asked for.
    RotationRequested,
}

/// A block one column to the left.
pub open spec fn left_of(p: TetrisPos) -> TetrisPos {
    TetrisPos((p.0 - 1) as i32, p.1)
}

/// A block one column to the right.
pub open spec fn right_of(p: TetrisPos) -> TetrisPos {
    TetrisPos((p.0 + 1) as i32, p.1)
}

/// Whether the cell of `p` is occupied.
pub open spec fn hits(state: GameState, p: TetrisPos) -> bool {
    state.cells()[state.block_index(p)] == 1
}

/// Whether some block of `piece` is in the leftmost column (or beyond it).
pub open spec fn at_left_wall(piece: Seq<TetrisPos>) -> bool {
    exists|i: int| 0 <= i < piece.len() && #[trigger] piece[i].0 <= 0
}

/// Whether some block of `piece` is in the rightmost of `cols` columns, its
/// column taken as `u32`.
pub open spec fn at_right_wall(piece: Seq<TetrisPos>, cols: u32) -> bool {
    exists|i: int| 0 <= i < piece.len() && (#[trigger] piece[i].0 as u32) == (cols - 1) as u32
}

/// Whether a block of `piece` would land on an occupied cell when moved
/// one column to the left.
pub open spec fn blocked_left(state: GameState, piece: Seq<TetrisPos>) -> bool {
    exists|i: int| 0 <= i < piece.len() && hits(state, left_of(#[trigger] piece[i]))
}

/// Whether a block of `piece` would land on an occupied cell when moved
/// one column to the right.
pub open spec fn blocked_right(state: GameState, piece: Seq<TetrisPos>) -> bool {
    exists|i: int| 0 <= i < piece.len() && hits(state, right_of(#[trigger] piece[i]))
}

/// What a move to the left needs to be computed: where no block is at the
/// wall, the cells to the left of the blocks can be looked up, up to the
/// first one that is occupied.
pub open spec fn left_move_computable(state: GameState, piece: Seq<TetrisPos>) -> bool {
    !at_left_wall(piece) ==> forall|i: int|
        0 <= i < piece.len() && (forall|j: int|
            0 <= j < i ==> !hits(state, left_of(#[trigger] piece[j]))) ==> state.block_index_ok(
            left_of(#[trigger] piece[i]),
        )
}

/// What a move to the right needs to be computed: a well with columns
/// where there are blocks, and where no block is at the wall, columns
/// that can grow by one and cells to the right that can be looked up, up
/// to the first one that is occupied.
pub open spec fn right_move_computable(state: GameState, piece: Seq<TetrisPos>, cols: u32) -> bool {
    &&& piece.len() > 0 ==> cols > 0
    &&& !at_right_wall(piece, cols) ==> forall|i: int|
        0 <= i < piece.len() && (forall|j: int|
            0 <= j < i ==> !hits(state, right_of(#[trigger] piece[j]))) ==> piece[i].0 < i32::MAX
            && state.block_index_ok(right_of(#[trigger] piece[i]))
}

/// What a key press does to the piece `before`, giving `after` and `outcome`:
/// a move left or right happens when no block is at the wall and none would
/// land on an occupied cell; the rotate key asks for a rotation; otherwise
/// the piece stays.
pub open spec fn control_result(
    input: ControlInput,
    cols: u32,
    state: GameState,
    before: Seq<TetrisPos>,
    after: Seq<TetrisPos>,
    outcome: ControlOutcome,
) -> bool {
    &&& after.len() == before.len()
    &&& outcome == match input {
        ControlInput::MoveLeft => if !at_left_wall(before) && !blocked_left(state, before) {
            ControlOutcome::Moved
        } else {
            ControlOutcome::Stayed
        },
        ControlInput::MoveRight => if !at_right_wall(before, cols) && !blocked_right(state, before) {
            ControlOutcome::Moved
        } else {
            ControlOutcome::Stayed
        },
        ControlInput::Rotate => ControlOutcome::RotationRequested,
        ControlInput::Idle => ControlOutcome::Stayed,
    }
    &&& outcome != ControlOutcome::Moved ==> after == before
    &&& outcome == ControlOutcome::Moved && input == ControlInput::MoveLeft ==> forall|i: int|
        0 <= i < before.len() ==> #[trigger] after[i] == left_of(before[i])
    &&& outcome == ControlOutcome::Moved && input == ControlInput::MoveRight ==> forall|i: int|
        0 <= i < before.len() ==> #[trigger] after[i] == right_of(before[i])
}

/// Whether `p` is a cell of the well that is empty.
pub open spec fn free_in_well(state: GameState, p: TetrisPos) -> bool {
    &&& 0 <= p.0 < state.width()
    &&& 0 <= p.1 < state.height()
    &&& state.cells()[state.block_index(p)] == 0
}

/// A move never takes a block into a wall or onto an occupied cell: where
/// every block lies on an empty cell of the well, it still does after a key
/// press, in a well as wide as the ruleset's.
#[verifier::spinoff_prover]
pub proof fn lemma_move_keeps_piece_free(
    input: ControlInput,
    ruleset: TetrisRuleset,
    state: GameState,
    before: Seq<TetrisPos>,
    after: Seq<TetrisPos>,
    outcome: ControlOutcome,
)
    requires
        state.wf(),
        ruleset.well_size_cols == state.width(),
        forall|i: int| 0 <= i < before.len() ==> #[trigger] free_in_well(state, before[i]),
        input == ControlInput::MoveRight ==> right_move_computable(
            state,
            before,
            ruleset.well_size_cols,
        ),
        control_result(input, ruleset.well_size_cols, state, before, after, outcome),
    ensures
        after.len() == before.len(),
        forall|i: int| 0 <= i < after.len() ==> #[trigger] free_in_well(state, after[i]),
{
    assert forall|i: int| 0 <= i < after.len() implies #[trigger] free_in_well(state, after[i]) by {
        let p = before[i];
        assert(free_in_well(state, p));
        if outcome == ControlOutcome::Moved && (input == ControlInput::MoveLeft || input
            == ControlInput::MoveRight) {
            let q = after[i];
            let w = state.width() as int;
            let h = state.height();
            if input == ControlInput::MoveLeft {
                assert(q == left_of(p));
                assert(p.0 > 0) by {
                    if p.0 <= 0 {
                        assert(at_left_wall(before));
                    }
                }
                assert(!hits(state, left_of(before[i])));
                assert(q.0 == p.0 - 1);
            } else {
                assert(q == right_of(p));
                assert(p.0 as u32 == p.0);
                assert((ruleset.well_size_cols - 1) as u32 == ruleset.well_size_cols - 1);
                assert((p.0 as u32) != (ruleset.well_size_cols - 1) as u32) by {
                    if (p.0 as u32) == (ruleset.well_size_cols - 1) as u32 {
                        assert(at_right_wall(before, ruleset.well_size_cols));
                    }
                }
                assert(!hits(state, right_of(before[i])));
                assert(forall|j: int| 0 <= j < i ==> !hits(state, right_of(#[trigger] before[j])));
                assert(p.0 < i32::MAX);
                assert(q.0 == p.0 + 1);
            }
            assert(0 <= q.0 < w);
            assert(q.1 as u32 == q.1 && q.0 as u32 == q.0);
            assert(q.1 * w + q.0 < h * w) by (nonlinear_arith)
                requires
                    0 <= q.0 < w,
                    0 <= q.1 < h,
            ;
            assert(state.cells()[state.block_index(q)] <= 1);
        }
    }
}

/// A move left is stopped by the wall only where a block is already in
/// column 0: where every block lies in the well in column 1 or further
/// right, and the cell to its left is empty, the move happens and every
/// block goes one column left.
#[verifier::spinoff_prover]
pub proof fn lemma_left_move_when_clear(
    cols: u32,
    state: GameState,
    before: Seq<TetrisPos>,
    after: Seq<TetrisPos>,
    outcome: ControlOutcome,
)
    requires
        state.wf(),
        forall|i: int|
            0 <= i < before.len() ==> {
                let p = #[trigger] before[i];
                &&& 1 <= p.0 < state.width()
                &&& 0 <= p.1 < state.height()
                &&& state.cells()[p.1 * state.width() + p.0 - 1] == 0
            },
        control_result(ControlInput::MoveLeft, cols, state, before, after, outcome),
    ensures
        outcome == ControlOutcome::Moved,
        after.len() == before.len(),
        forall|i: int|
            0 <= i < before.len() ==> #[trigger] after[i].0 == before[i].0 - 1 && after[i].1
                == before[i].1,
{
    assert(!at_left_wall(before)) by {
        if at_left_wall(before) {
            let i = choose|i: int| 0 <= i < before.len() && #[trigger] before[i].0 <= 0;
            assert(1 <= before[i].0);
        }
    }
    assert(!blocked_left(state, before)) by {
        if blocked_left(state, before) {
            let i = choose|i: int| 0 <= i < before.len() && hits(state, left_of(#[trigger] before[i]));
            let p = before[i];
            let q = left_of(p);
            assert(q.0 == p.0 - 1);
            assert(q.1 as u32 == q.1 && q.0 as u32 == q.0);
            assert(state.block_index(q) == p.1 * state.width() + p.0 - 1);
        }
    }
    assert forall|i: int| 0 <= i < before.len() implies #[trigger] after[i].0 == before[i].0 - 1
        && after[i].1 == before[i].1 by {
        assert(after[i] == left_of(before[i]));
        assert(1 <= before[i].0);
    }
}

/// A move right is stopped by the wall only where a block is already in
/// the last column: where every block lies in the well left of the last
/// column, and the cell to its right is empty, the move happens and every
/// block goes one column right (a block in column `i32::MAX` is left out:
/// its column cannot grow).
#[verifier::spinoff_prover]
pub proof fn lemma_right_move_when_clear(
    state: GameState,
    before: Seq<TetrisPos>,
    after: Seq<TetrisPos>,
    outcome: ControlOutcome,
)
    requires
        state.wf(),
        forall|i: int|
            0 <= i < before.len() ==> {
                let p = #[trigger] before[i];
                &&& 0 <= p.0 < state.width() - 1
                &&& p.0 < i32::MAX
                &&& 0 <= p.1 < state.height()
                &&& state.cells()[p.1 * state.width() + p.0 + 1] == 0
            },
        control_result(ControlInput::MoveRight, state.width(), state, before, after, outcome),
    ensures
        outcome == ControlOutcome::Moved,
        after.len() == before.len(),
        forall|i: int|
            0 <= i < before.len() ==> #[trigger] after[i].0 == before[i].0 + 1 && after[i].1
                == before[i].1,
{
    assert(!at_right_wall(before, state.width())) by {
        if at_right_wall(before, state.width()) {
            let i = choose|i: int|
                0 <= i < before.len() && (#[trigger] before[i].0 as u32) == (state.width() - 1) as u32;
            let p = before[i];
            assert(0 <= p.0 < state.width() - 1);
            assert(p.0 as u32 == p.0);
            assert((state.width() - 1) as u32 == state.width() - 1);
        }
    }
    assert(!blocked_right(state, before)) by {
        if blocked_right(state, before) {
            let i = choose|i: int| 0 <= i < before.len() && hits(state, right_of(#[trigger] before[i]));
            let p = before[i];
            let q = right_of(p);
            assert(p.0 < i32::MAX);
            assert(q.0 == p.0 + 1);
            assert(q.1 as u32 == q.1 && q.0 as u32 == q.0);
            assert(state.block_index(q) == p.1 * state.width() + p.0 + 1);
        }
    }
    assert forall|i: int| 0 <= i < before.len() implies #[trigger] after[i].0 == before[i].0 + 1
        && after[i].1 == before[i].1 by {
        assert(after[i] == right_of(before[i]));
        assert(before[i].0 < i32::MAX);
    }
}

/// The wall stops a move: where some block is in column 0, a move left
/// leaves the piece where it is; where some block is in the last column, a
/// move right leaves it where it is.
pub proof fn lemma_wall_stops_move(
    input: ControlInput,
    state: GameState,
    before: Seq<TetrisPos>,
    after: Seq<TetrisPos>,
    outcome: ControlOutcome,
)
    requires
        state.width() > 0,
        control_result(input, state.width(), state, before, after, outcome),
        input == ControlInput::MoveLeft ==> exists|i: int| 0 <= i < before.len() && #[trigger] before[i].0 == 0,
        input == ControlInput::MoveRight ==> exists|i: int|
            0 <= i < before.len() && #[trigger] before[i].0 == state.width() - 1,
        input == ControlInput::MoveLeft || input == ControlInput::MoveRight,
    ensures
        outcome == ControlOutcome::Stayed,
        after == before,
{
    if input == ControlInput::MoveLeft {
        let i = choose|i: int| 0 <= i < before.len() && #[trigger] before[i].0 == 0;
        assert(before[i].0 <= 0);
        assert(at_left_wall(before));
    } else {
        let i = choose|i: int| 0 <= i < before.len() && #[trigger] before[i].0 == state.width() - 1;
        assert(before[i].0 as u32 == before[i].0);
        assert((state.width() - 1) as u32 == state.width() - 1);
        assert(at_right_wall(before, state.width()));
    }
}

/// Reacts to a key press: moves the piece one column left or right when no
/// block is at the wall and none would land on an occupied cell, or asks
/// for a rotation.
#[verifier::spinoff_prover]
pub fn controls(
    input: ControlInput,
    ruleset: &TetrisRuleset,
    state: &GameState,
    piece: &mut Vec<TetrisPos>,
) -> (outcome: ControlOutcome)
    requires
        input == ControlInput::MoveLeft ==> left_move_computable(*state, old(piece)@),
        input == ControlInput::MoveRight ==> right_move_computable(
            *state,
            old(piece)@,
            ruleset.well_size_cols,
        ),
    ensures
        control_result(input, ruleset.well_size_cols, *state, old(piece)@, final(piece)@, outcome),
{
    match input {
        ControlInput::MoveLeft => {
            if !touches_left_wall(piece) && !collides_left(state, piece) {
                shift_piece(piece, -1);
                ControlOutcome::Moved
            } else {
                ControlOutcome::Stayed
            }
        },
        ControlInput::MoveRight => {
            if !touches_right_wall(piece, ruleset.well_size_cols) && !collides_right(state, piece) {
                shift_piece(piece, 1);
                ControlOutcome::Moved
            } else {
                ControlOutcome::Stayed
            }
        },
        ControlInput::Rotate => ControlOutcome::RotationRequested,
        ControlInput::Idle => ControlOutcome::Stayed,
    }
}

/// Whether some block is in the leftmost column.
fn touches_left_wall(piece: &Vec<TetrisPos>) -> (touches: bool)
    ensures
        touches == at_left_wall(piece@),
{
    let mut not_hitting_wall = true;
    let mut i: usize = 0;
    while i < piece.len() && not_hitting_wall
        invariant
            0 <= i <= piece@.len(),
            not_hitting_wall ==> forall|j: int| 0 <= j < i ==> #[trigger] piece@[j].0 > 0,
            !not_hitting_wall ==> at_left_wall(piece@),
        decreases piece@.len() - i,
    {
        if !(piece[i].0 > 0) {
            not_hitting_wall = false;
        }
        i = i + 1;
    }
    !not_hitting_wall
}

/// Whether some block is in the rightmost column.
fn touches_right_wall(piece: &Vec<TetrisPos>, cols: u32) -> (touches: bool)
    requires
        piece@.len() > 0 ==> cols > 0,
    ensures
        touches == at_right_wall(piece@, cols),
{
    let mut hitting_wall = false;
    let mut i: usize = 0;
    while i < piece.len() && !hitting_wall
        invariant
            0 <= i <= piece@.len(),
            piece@.len() > 0 ==> cols > 0,
            !hitting_wall ==> forall|j: int|
                0 <= j < i ==> (#[trigger] piece@[j].0 as u32) != (cols - 1) as u32,
            hitting_wall ==> at_right_wall(piece@, cols),
        decreases piece@.len() - i,
    {
        if #[verifier::truncate] (piece[i].0 as u32) == cols - 1 {
            hitting_wall = true;
        }
        i = i + 1;
    }
    hitting_wall
}

/// Whether a block would land on an occupied cell when moved left.
fn collides_left(state: &GameState, piece: &Vec<TetrisPos>) -> (blocked: bool)
    requires
        !at_left_wall(piece@),
        left_move_computable(*state, piece@),
    ensures
        blocked == blocked_left(*state, piece@),
{
    let mut colliding = false;
    let mut i: usize = 0;
    while i < piece.len() && !colliding
        invariant
            0 <= i <= piece@.len(),
            !at_left_wall(piece@),
            left_move_computable(*state, piece@),
            !colliding ==> forall|j: int| 0 <= j < i ==> !hits(*state, left_of(#[trigger] piece@[j])),
            colliding ==> blocked_left(*state, piece@),
        decreases piece@.len() - i,
    {
        let pos = piece[i];
        assert(pos.0 > 0) by {
            if pos.0 <= 0 {
                assert(at_left_wall(piece@));
            }
        }
        assert(state.block_index_ok(left_of(piece@[i as int])));
        if state.colliding(TetrisPos(pos.0 - 1, pos.1)) {
            colliding = true;
        }
        i = i + 1;
    }
    colliding
}

/// Whether a block would land on an occupied cell when moved right.
fn collides_right(state: &GameState, piece: &Vec<TetrisPos>) -> (blocked: bool)
    requires
        forall|i: int|
            0 <= i < piece@.len() && (forall|j: int|
                0 <= j < i ==> !hits(*state, right_of(#[trigger] piece@[j]))) ==> piece@[i].0
                < i32::MAX && state.block_index_ok(right_of(#[trigger] piece@[i])),
    ensures
        blocked == blocked_right(*state, piece@),
{
    let mut colliding = false;
    let mut i: usize = 0;
    while i < piece.len() && !colliding
        invariant
            0 <= i <= piece@.len(),
            forall|i: int|
                0 <= i < piece@.len() && (forall|j: int|
                    0 <= j < i ==> !hits(*state, right_of(#[trigger] piece@[j]))) ==> piece@[i].0
                    < i32::MAX && state.block_index_ok(right_of(#[trigger] piece@[i])),
            !colliding ==> forall|j: int| 0 <= j < i ==> !hits(*state, right_of(#[trigger] piece@[j])),
            colliding ==> blocked_right(*state, piece@),
        decreases piece@.len() - i,
    {
        let pos = piece[i];
        assert(pos.0 < i32::MAX && state.block_index_ok(right_of(piece@[i as int])));
        if state.colliding(TetrisPos(pos.0 + 1, pos.1)) {
            colliding = true;
        }
        i = i + 1;
    }
    colliding
}

/// Moves every block `dx` columns, where no block leaves the range of `i32`.
fn shift_piece(piece: &mut Vec<TetrisPos>, dx: i32)
    requires
        forall|i: int|
            0 <= i < old(piece)@.len() ==> i32::MIN <= #[trigger] old(piece)@[i].0 + dx <= i32::MAX,
    ensures
        final(piece)@.len() == old(piece)@.len(),
        forall|i: int|
            0 <= i < old(piece)@.len() ==> #[trigger] final(piece)@[i] == TetrisPos(
                (old(piece)@[i].0 + dx) as i32,
                old(piece)@[i].1,
            ),
{
    let n = piece.len();
    for i in 0..n
        invariant
            n == old(piece)@.len(),
            piece@.len() == n,
            forall|j: int|
                0 <= j < n ==> i32::MIN <= #[trigger] old(piece)@[j].0 + dx <= i32::MAX,
            forall|j: int|
                0 <= j < i ==> #[trigger] piece@[j] == TetrisPos(
                    (old(piece)@[j].0 + dx) as i32,
                    old(piece)@[j].1,
                ),
            forall|j: int| i <= j < n ==> #[trigger] piece@[j] == old(piece)@[j],
    {
        let pos = piece[i];
        piece.set(i, TetrisPos(pos.0 + dx, pos.1));
    }
}

} // verus!
