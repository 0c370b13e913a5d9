use vstd::prelude::*;
use bevy::platform::collections::HashMap;
use crate::piece::{can_rotate, rotation_adjustment, rotation_adjustment_of, spawn_blocks, Current, PieceBlock, TetrisPos};
use crate::ruleset::TetrisRuleset;
use crate::shape::TetrominoShape;

verus! {

#[verifier::external_type_specification]
#[verifier::external_body]
#[verifier::reject_recursive_types(K)]
#[verifier::reject_recursive_types(V)]
#[verifier::reject_recursive_types(S)]
pub struct ExHashMap<K, V, S>(bevy::platform::collections::HashMap<K, V, S>);

#[verifier::external_type_specification]
#[verifier::external_body]
pub struct ExFixedHasher(bevy::platform::hash::FixedHasher);

/// A map from block numbers to positions.
pub type PositionMap = HashMap<u8, TetrisPos>;

/// The entries of a map from block numbers to positions.
pub uninterp spec fn position_map_contents(map: PositionMap) -> Map<u8, TetrisPos>;

/// Calls `bevy::platform::collections::HashMap::with_capacity`. Claims that
/// the new map has no entries.
#[verifier::external_body]
fn position_map_with_capacity(capacity: usize) -> (positions: PositionMap)
    ensures
        position_map_contents(positions).dom() == Set::<u8>::empty(),
{
    HashMap::with_capacity(capacity)
}

/// Calls `bevy::platform::collections::HashMap::insert`. Claims that the map
/// then holds `value` for `key` and is otherwise unchanged, and that the
/// result is the value it held for `key` before, if it held one.
#[verifier::external_body]
fn position_map_insert(map: &mut PositionMap, key: u8, value: TetrisPos) -> (previous:
    Option<TetrisPos>)
    ensures
        position_map_contents(*final(map)) == position_map_contents(*old(map)).insert(key, value),
        previous == (if position_map_contents(*old(map)).contains_key(key) {
            Some(position_map_contents(*old(map))[key])
        } else {
            None
        }),
{
    map.insert(key, value)
}

/// Calls `bevy::platform::collections::HashMap::get` and copies the value
/// found. Claims that the result is the value the map holds for `key`, or
/// `None` where it holds none.
#[verifier::external_body]
fn position_map_get(map: &PositionMap, key: u8) -> (found: Option<TetrisPos>)
    ensures
        found == (if position_map_contents(*map).contains_key(key) {
            Some(position_map_contents(*map)[key])
        } else {
            None
        }),
{
    map.get(&key).copied()
}

/// Where block `b` goes when its piece is turned, as unbounded integers.
pub open spec fn turned_pos(b: PieceBlock) -> (int, int) {
    let adj = rotation_adjustment(b.current.1, b.current.2, b.current.0);
    (b.pos.0 + adj.0, b.pos.1 + adj.1)
}

/// Whether the turn of block `b` can be computed: its shape can be turned,
/// its number is 1 to 4, and its new position fits in `i32`.
pub open spec fn turn_computable(b: PieceBlock) -> bool {
    &&& can_rotate(b.current.1)
    &&& 1 <= b.current.0 <= 4
    &&& i32::MIN <= turned_pos(b).0 <= i32::MAX
    &&& i32::MIN <= turned_pos(b).1 <= i32::MAX
}

/// Whether `p` lies in the well of `ruleset`, its sizes taken as `i32`.
pub open spec fn in_well(p: (int, int), ruleset: TetrisRuleset) -> bool {
    0 <= p.0 < (ruleset.well_size_cols as i32) && 0 <= p.1 < (ruleset.well_size_rows as i32)
}

/// Whether every block of the piece stays in the well when it is turned.
pub open spec fn turn_fits(blocks: Seq<PieceBlock>, ruleset: TetrisRuleset) -> bool {
    forall|i: int| 0 <= i < blocks.len() ==> in_well(turned_pos(#[trigger] blocks[i]), ruleset)
}

/// The new position of each block number, as recorded block after block:
/// where two blocks share a number, the later one's position is kept.
pub open spec fn rotation_targets(blocks: Seq<PieceBlock>) -> Map<u8, TetrisPos>
    decreases blocks.len(),
{
    if blocks.len() == 0 {
        Map::empty()
    } else {
        let b = blocks.last();
        rotation_targets(blocks.drop_last()).insert(
            b.current.0,
            TetrisPos(turned_pos(b).0 as i32, turned_pos(b).1 as i32),
        )
    }
}

/// Block `b` after its piece is turned: at its new position, with one more
/// quarter turn counted (modulo 4).
pub open spec fn turned_block(b: PieceBlock) -> PieceBlock {
    PieceBlock {
        pos: TetrisPos(turned_pos(b).0 as i32, turned_pos(b).1 as i32),
        current: Current(b.current.0, b.current.1, ((b.current.2 + 1) % 4) as u8),
    }
}

/// `after` is the piece `before` turned: each block goes to the target of
/// its number and counts one more quarter turn.
pub open spec fn rotation_step(before: Seq<PieceBlock>, after: Seq<PieceBlock>) -> bool {
    &&& after.len() == before.len()
    &&& forall|i: int|
        0 <= i < before.len() ==> #[trigger] after[i] == (PieceBlock {
            pos: rotation_targets(before)[before[i].current.0],
            current: turned_block(before[i]).current,
        })
}

/// What turning the piece needs to be computed: every block reached, up to
/// the first that would leave the well, can be turned, and where all stay
/// in the well every turn count can grow by one.
pub open spec fn rotation_computable(blocks: Seq<PieceBlock>, ruleset: TetrisRuleset) -> bool {
    &&& forall|i: int|
        0 <= i < blocks.len() && (forall|j: int|
            0 <= j < i ==> in_well(turned_pos(#[trigger] blocks[j]), ruleset)) ==> turn_computable(
            #[trigger] blocks[i],
        )
    &&& turn_fits(blocks, ruleset) ==> forall|i: int|
        0 <= i < blocks.len() ==> #[trigger] blocks[i].current.2 < 255
}

/// Turns the falling piece a quarter turn, if every block stays in the
/// well; otherwise leaves it as it is. Each block moves by the amount its
/// shape, number and turn count give, and its turn count grows by one.
#[verifier::spinoff_prover]
pub fn rotate_current(ruleset: &TetrisRuleset, blocks: &mut Vec<PieceBlock>) -> (rotated: bool)
    requires
        rotation_computable(old(blocks)@, *ruleset),
    ensures
        rotated == turn_fits(old(blocks)@, *ruleset),
        !rotated ==> final(blocks)@ == old(blocks)@,
        final(blocks)@.len() == old(blocks)@.len(),
        rotated ==> rotation_step(old(blocks)@, final(blocks)@),
{
    let mut new_positions = position_map_with_capacity(4);
    assert(position_map_contents(new_positions) =~= rotation_targets(blocks@.take(0)));
    let n = blocks.len();
    for i in 0..n
        invariant
            n == blocks@.len(),
            blocks@ == old(blocks)@,
            forall|k: int|
                0 <= k < blocks@.len() && (forall|j: int|
                    0 <= j < k ==> in_well(turned_pos(#[trigger] blocks@[j]), *ruleset))
                    ==> turn_computable(#[trigger] blocks@[k]),
            forall|j: int| 0 <= j < i ==> in_well(turned_pos(#[trigger] blocks@[j]), *ruleset),
            position_map_contents(new_positions) == rotation_targets(blocks@.take(i as int)),
    {
        let block = blocks[i];
        assert(turn_computable(blocks@[i as int]));
        let new_tetris_pos = turned_position(block);
        if !fits_in_well(new_tetris_pos, ruleset) {
            return false;
        } else {
            assert(blocks@.take(i + 1).drop_last() =~= blocks@.take(i as int));
            position_map_insert(&mut new_positions, block.current.0, new_tetris_pos);
        }
    }
    assert(blocks@.take(n as int) =~= blocks@);

    for i in 0..n
        invariant
            n == blocks@.len(),
            n == old(blocks)@.len(),
            rotation_computable(old(blocks)@, *ruleset),
            turn_fits(old(blocks)@, *ruleset),
            position_map_contents(new_positions) == rotation_targets(old(blocks)@),
            forall|j: int| i <= j < n ==> #[trigger] blocks@[j] == old(blocks)@[j],
            forall|j: int|
                0 <= j < i ==> #[trigger] blocks@[j] == (PieceBlock {
                    pos: rotation_targets(old(blocks)@)[old(blocks)@[j].current.0],
                    current: turned_block(old(blocks)@[j]).current,
                }),
    {
        let block = blocks[i];
        let Current(idx, shape, rotation) = block.current;
        proof {
            lemma_targets_cover(old(blocks)@, i as int);
        }
        let new_tetris_pos = position_map_get(&new_positions, idx).unwrap();
        let next_rotation = (rotation + 1) % 4;
        blocks.set(i, PieceBlock { pos: new_tetris_pos, current: Current(idx, shape, next_rotation) });
    }
    assert(rotation_step(old(blocks)@, blocks@));
    true
}

/// Where `block` goes when its piece is turned.
fn turned_position(block: PieceBlock) -> (pos: TetrisPos)
    requires
        turn_computable(block),
    ensures
        pos.0 == turned_pos(block).0,
        pos.1 == turned_pos(block).1,
{
    let Current(idx, shape, current_rotation) = block.current;
    let adjustment = rotation_adjustment_of(shape, current_rotation, idx);
    let mut new_tetris_pos = block.pos;
    new_tetris_pos.0 = new_tetris_pos.0 + adjustment.0;
    new_tetris_pos.1 = new_tetris_pos.1 + adjustment.1;
    new_tetris_pos
}

/// Whether `pos` lies in the well of `ruleset`.
fn fits_in_well(pos: TetrisPos, ruleset: &TetrisRuleset) -> (fits: bool)
    ensures
        fits == in_well((pos.0 as int, pos.1 as int), *ruleset),
{
    let cols = #[verifier::truncate] (ruleset.well_size_cols as i32);
    let rows = #[verifier::truncate] (ruleset.well_size_rows as i32);
    (0 <= pos.0 && pos.0 < cols) && (0 <= pos.1 && pos.1 < rows)
}

/// Every block's number has a target.
proof fn lemma_targets_cover(blocks: Seq<PieceBlock>, i: int)
    requires
        0 <= i < blocks.len(),
    ensures
        rotation_targets(blocks).contains_key(blocks[i].current.0),
    decreases blocks.len(),
{
    if i < blocks.len() - 1 {
        lemma_targets_cover(blocks.drop_last(), i);
        assert(blocks.drop_last()[i] == blocks[i]);
    }
}

/// Where no two blocks share a number, each block goes where its own
/// turn takes it.
pub proof fn lemma_distinct_blocks_turn_alone(blocks: Seq<PieceBlock>, i: int)
    requires
        0 <= i < blocks.len(),
        forall|j: int, k: int|
            0 <= j < k < blocks.len() ==> #[trigger] blocks[j].current.0 != #[trigger] blocks[k].current.0,
    ensures
        rotation_targets(blocks)[blocks[i].current.0] == turned_block(blocks[i]).pos,
    decreases blocks.len(),
{
    if i < blocks.len() - 1 {
        let shorter = blocks.drop_last();
        assert(shorter[i] == blocks[i]);
        assert(blocks[i].current.0 != blocks[blocks.len() - 1].current.0);
        assert forall|j: int, k: int| 0 <= j < k < shorter.len() implies #[trigger] shorter[j].current.0
            != #[trigger] shorter[k].current.0 by {
            assert(shorter[j] == blocks[j] && shorter[k] == blocks[k]);
        }
        lemma_distinct_blocks_turn_alone(shorter, i);
    }
}

/// Four quarter turns bring a block back where it was, with the same turn
/// count, wherever each of the four turns can be computed.
pub proof fn lemma_four_turns_return(b: PieceBlock)
    requires
        b.current.2 < 4,
        turn_computable(b),
        turn_computable(turned_block(b)),
        turn_computable(turned_block(turned_block(b))),
        turn_computable(turned_block(turned_block(turned_block(b)))),
    ensures
        turned_block(turned_block(turned_block(turned_block(b)))) == b,
{
    crate::piece::lemma_full_turn_returns(b.current.1, b.current.0, b.current.2);
}

/// No two blocks of the piece share a number.
pub open spec fn distinct_numbers(blocks: Seq<PieceBlock>) -> bool {
    forall|j: int, k: int|
        0 <= j < k < blocks.len() ==> #[trigger] blocks[j].current.0 != #[trigger] blocks[k].current.0
}

/// Block `b` after `n` quarter turns.
pub open spec fn turned_times(b: PieceBlock, n: nat) -> PieceBlock
    decreases n,
{
    if n == 0 {
        b
    } else {
        turned_block(turned_times(b, (n - 1) as nat))
    }
}

/// How many quarter turns bring a piece of `shape` back where it was.
pub open spec fn turn_cycle(shape: TetrominoShape) -> nat {
    match shape {
        TetrominoShape::Arrow => 4,
        TetrominoShape::Stick => 2,
        _ => 1,
    }
}

/// Where no two blocks share a number, a turn moves each block by its own
/// amount, and the numbers stay distinct.
pub proof fn lemma_step_of_distinct_blocks(before: Seq<PieceBlock>, after: Seq<PieceBlock>)
    requires
        distinct_numbers(before),
        rotation_step(before, after),
    ensures
        forall|i: int| 0 <= i < before.len() ==> #[trigger] after[i] == turned_block(before[i]),
        distinct_numbers(after),
{
    assert forall|i: int| 0 <= i < before.len() implies #[trigger] after[i] == turned_block(
        before[i],
    ) by {
        lemma_distinct_blocks_turn_alone(before, i);
    }
    assert forall|j: int, k: int| 0 <= j < k < after.len() implies #[trigger] after[j].current.0
        != #[trigger] after[k].current.0 by {
        assert(after[j].current.0 == before[j].current.0);
        assert(after[k].current.0 == before[k].current.0);
    }
}

/// A block of a piece that can be turned, turned as many times as its
/// shape's cycle (four for an arrow, two for a stick, one for a square),
/// is back at its position, with its turn count grown by that many (modulo
/// 4); an arrow's turn count must start below 4.
#[verifier::spinoff_prover]
#[verifier::rlimit(30)]
pub proof fn lemma_block_turn_cycle(b: PieceBlock)
    requires
        can_rotate(b.current.1),
        1 <= b.current.0 <= 4,
        b.current.1 == TetrominoShape::Arrow ==> b.current.2 < 4,
        forall|k: nat| k < turn_cycle(b.current.1) ==> #[trigger] turn_computable(turned_times(b, k)),
    ensures
        turned_times(b, turn_cycle(b.current.1)).pos == b.pos,
        turned_times(b, turn_cycle(b.current.1)).current == Current(
            b.current.0,
            b.current.1,
            ((b.current.2 + turn_cycle(b.current.1)) % 4) as u8,
        ),
{
    let t0 = turned_times(b, 0);
    assert(turn_computable(t0));
    let t1 = turned_times(b, 1);
    assert(t1 == turned_block(t0));
    if b.current.1 == TetrominoShape::Stick {
        assert(turn_computable(turned_times(b, 1)));
        assert(turned_times(b, 2) == turned_block(t1));
    } else if b.current.1 == TetrominoShape::Arrow {
        assert(turn_computable(turned_times(b, 1)));
        assert(turn_computable(turned_times(b, 2)));
        assert(turn_computable(turned_times(b, 3)));
        assert(turned_times(b, 2) == turned_block(t1));
        assert(turned_times(b, 3) == turned_block(turned_times(b, 2)));
        assert(turned_times(b, 4) == turned_block(turned_times(b, 3)));
        lemma_four_turns_return(b);
    }
}

/// Each state of a run of successive turns, each keeping the piece in the
/// well, is the first state with every block turned that many times.
#[verifier::spinoff_prover]
proof fn lemma_states_follow(states: Seq<Seq<PieceBlock>>, ruleset: TetrisRuleset, k: int)
    requires
        0 <= k < states.len(),
        distinct_numbers(states[0]),
        forall|m: int| #![trigger states[m]] 0 <= m < k ==> rotation_step(states[m], states[m + 1]),
    ensures
        states[k].len() == states[0].len(),
        distinct_numbers(states[k]),
        forall|i: int|
            0 <= i < states[0].len() ==> #[trigger] states[k][i] == turned_times(states[0][i], k as nat),
    decreases k,
{
    if k > 0 {
        lemma_states_follow(states, ruleset, k - 1);
        assert(rotation_step(states[k - 1], states[k]));
        lemma_step_of_distinct_blocks(states[k - 1], states[k]);
        assert forall|i: int| 0 <= i < states[0].len() implies #[trigger] states[k][i] == turned_times(
            states[0][i],
            k as nat,
        ) by {
            assert(states[k][i] == turned_block(states[k - 1][i]));
        }
    }
}

/// Successive turns bring a piece back: where a piece of one shape that can
/// be turned, with distinct block numbers 1 to 4, is turned as many times
/// as the shape's cycle (four for an arrow, two for a stick, one for a
/// square), each turn keeping the piece in the well, every block is back at
/// its position with its turn count grown by that many (modulo 4). An
/// arrow's turn counts must start below 4.
#[verifier::spinoff_prover]
#[verifier::rlimit(30)]
pub proof fn lemma_successive_turns_return(
    states: Seq<Seq<PieceBlock>>,
    ruleset: TetrisRuleset,
    shape: TetrominoShape,
)
    requires
        can_rotate(shape),
        states.len() == turn_cycle(shape) + 1,
        distinct_numbers(states[0]),
        forall|i: int|
            0 <= i < states[0].len() ==> {
                let b = #[trigger] states[0][i];
                &&& b.current.1 == shape
                &&& 1 <= b.current.0 <= 4
                &&& shape == TetrominoShape::Arrow ==> b.current.2 < 4
            },
        forall|m: int|
            #![trigger states[m]]
            0 <= m < turn_cycle(shape) ==> turn_fits(states[m], ruleset) && rotation_step(
                states[m],
                states[m + 1],
            ),
    ensures
        states[turn_cycle(shape) as int].len() == states[0].len(),
        forall|i: int|
            0 <= i < states[0].len() ==> {
                let b = states[0][i];
                &&& #[trigger] states[turn_cycle(shape) as int][i].pos == b.pos
                &&& states[turn_cycle(shape) as int][i].current == Current(
                    b.current.0,
                    shape,
                    ((b.current.2 + turn_cycle(shape)) % 4) as u8,
                )
            },
{
    let n = turn_cycle(shape) as int;
    lemma_states_follow(states, ruleset, n);
    assert forall|i: int| 0 <= i < states[0].len() implies {
        let b = states[0][i];
        &&& #[trigger] states[n][i].pos == b.pos
        &&& states[n][i].current == Current(b.current.0, shape, ((b.current.2 + turn_cycle(shape)) % 4) as u8)
    } by {
        let b = states[0][i];
        assert forall|k: nat| k < turn_cycle(b.current.1) implies #[trigger] turn_computable(
            turned_times(b, k),
        ) by {
            lemma_states_follow(states, ruleset, k as int);
            assert(turn_fits(states[k as int], ruleset));
            assert(states[k as int][i] == turned_times(b, k));
            assert(in_well(turned_pos(states[k as int][i]), ruleset));
            lemma_turned_times_keeps_number(b, k);
        }
        lemma_block_turn_cycle(b);
    }
}

/// Turning keeps a block's number and shape.
proof fn lemma_turned_times_keeps_number(b: PieceBlock, k: nat)
    ensures
        turned_times(b, k).current.0 == b.current.0,
        turned_times(b, k).current.1 == b.current.1,
    decreases k,
{
    if k > 0 {
        lemma_turned_times_keeps_number(b, (k - 1) as nat);
    }
}

/// The cell of block `b`, as (column, row).
pub open spec fn block_cell(b: PieceBlock) -> (int, int) {
    (b.pos.0 as int, b.pos.1 as int)
}

/// The cells the blocks of a piece lie on.
pub open spec fn piece_cells(p: Seq<PieceBlock>) -> Set<(int, int)> {
    Set::new(|c: (int, int)| exists|i: int| 0 <= i < p.len() && #[trigger] block_cell(p[i]) == c)
}

/// Cell `c` turned a quarter turn clockwise, (x, y) to (y, -x), and moved
/// by `d`.
pub open spec fn quarter_turned_cell(c: (int, int), d: (int, int)) -> (int, int) {
    (c.1 + d.0, d.1 - c.0)
}

/// The cells `s` turned a quarter turn clockwise and moved by `d`.
pub open spec fn quarter_turned_cells(s: Set<(int, int)>, d: (int, int)) -> Set<(int, int)> {
    Set::new(|c: (int, int)| s.contains((d.1 - c.1, c.0 - d.0)))
}

/// No two blocks of the piece lie on one cell.
pub open spec fn distinct_cells(p: Seq<PieceBlock>) -> bool {
    forall|j: int, k: int| 0 <= j < k < p.len() ==> #[trigger] p[j].pos != #[trigger] p[k].pos
}

/// `p` is a new piece of `shape` turned `k` times and moved by `dx` columns
/// and `dy` rows.
pub open spec fn spawned_turned_moved(
    p: Seq<PieceBlock>,
    shape: TetrominoShape,
    k: nat,
    dx: int,
    dy: int,
) -> bool {
    &&& p.len() == spawn_blocks(shape).len()
    &&& forall|i: int|
        0 <= i < p.len() ==> {
            let b = turned_times(spawn_blocks(shape)[i], k);
            &&& #[trigger] p[i].current == b.current
            &&& p[i].pos.0 == b.pos.0 + dx
            &&& p[i].pos.1 == b.pos.1 + dy
        }
}

/// The cells of a piece of four blocks are the cells of those four blocks.
proof fn lemma_cells_of_four(p: Seq<PieceBlock>)
    requires
        p.len() == 4,
    ensures
        piece_cells(p) == set![block_cell(p[0]), block_cell(p[1]), block_cell(p[2]), block_cell(p[3])],
{
    let lit = set![block_cell(p[0]), block_cell(p[1]), block_cell(p[2]), block_cell(p[3])];
    assert forall|c: (int, int)| piece_cells(p).contains(c) implies lit.contains(c) by {
        let i = choose|i: int| 0 <= i < p.len() && #[trigger] block_cell(p[i]) == c;
        assert(i == 0 || i == 1 || i == 2 || i == 3);
    }
    assert forall|c: (int, int)| lit.contains(c) implies piece_cells(p).contains(c) by {
        if c == block_cell(p[0]) {
            assert(block_cell(p[0]) == c);
        } else if c == block_cell(p[1]) {
            assert(block_cell(p[1]) == c);
        } else if c == block_cell(p[2]) {
            assert(block_cell(p[2]) == c);
        } else {
            assert(block_cell(p[3]) == c);
        }
    }
    assert(piece_cells(p) =~= lit);
}

/// Four cells turned are the four turned cells.
proof fn lemma_turned_four(a: (int, int), b: (int, int), c: (int, int), e: (int, int), d: (int, int))
    ensures
        quarter_turned_cells(set![a, b, c, e], d) == set![
            quarter_turned_cell(a, d),
            quarter_turned_cell(b, d),
            quarter_turned_cell(c, d),
            quarter_turned_cell(e, d),
        ],
{
    let lit = set![
        quarter_turned_cell(a, d),
        quarter_turned_cell(b, d),
        quarter_turned_cell(c, d),
        quarter_turned_cell(e, d),
    ];
    assert forall|x: (int, int)| #[trigger] lit.contains(x) implies quarter_turned_cells(
        set![a, b, c, e],
        d,
    ).contains(x) by {
        if x == quarter_turned_cell(a, d) {
            assert((d.1 - x.1, x.0 - d.0) == a);
        } else if x == quarter_turned_cell(b, d) {
            assert((d.1 - x.1, x.0 - d.0) == b);
        } else if x == quarter_turned_cell(c, d) {
            assert((d.1 - x.1, x.0 - d.0) == c);
        } else {
            assert((d.1 - x.1, x.0 - d.0) == e);
        }
    }
    assert forall|x: (int, int)| #[trigger] quarter_turned_cells(set![a, b, c, e], d).contains(x)
        implies lit.contains(x) by {
        let y = (d.1 - x.1, x.0 - d.0);
        assert(set![a, b, c, e].contains(y));
        assert(x == quarter_turned_cell(y, d));
    }
    assert(quarter_turned_cells(set![a, b, c, e], d) =~= lit);
}

/// Where the four cells of `before`, turned and moved by `d`, are the four
/// cells of `after`, the cells of `after` are the cells of `before` turned.
proof fn lemma_turned_piece_cells(before: Seq<PieceBlock>, after: Seq<PieceBlock>, d: (int, int))
    requires
        before.len() == 4,
        after.len() == 4,
        set![
            quarter_turned_cell(block_cell(before[0]), d),
            quarter_turned_cell(block_cell(before[1]), d),
            quarter_turned_cell(block_cell(before[2]), d),
            quarter_turned_cell(block_cell(before[3]), d),
        ] == set![block_cell(after[0]), block_cell(after[1]), block_cell(after[2]), block_cell(after[3])],
    ensures
        piece_cells(after) == quarter_turned_cells(piece_cells(before), d),
{
    lemma_cells_of_four(before);
    lemma_cells_of_four(after);
    lemma_turned_four(
        block_cell(before[0]),
        block_cell(before[1]),
        block_cell(before[2]),
        block_cell(before[3]),
        d,
    );
}

/// One turn of a piece whose cells before and after are the given cells
/// moved by `dx` columns and `dy` rows, where the given cells after are the
/// given cells before turned and moved by `d0`: the piece turns rigidly.
proof fn lemma_turn_case(
    before: Seq<PieceBlock>,
    after: Seq<PieceBlock>,
    dx: int,
    dy: int,
    cb: Seq<(int, int)>,
    ca: Seq<(int, int)>,
    d0: (int, int),
)
    requires
        before.len() == 4,
        after.len() == 4,
        cb.len() == 4,
        ca.len() == 4,
        forall|i: int| 0 <= i < 4 ==> #[trigger] block_cell(before[i]) == (cb[i].0 + dx, cb[i].1 + dy),
        forall|i: int| 0 <= i < 4 ==> #[trigger] block_cell(after[i]) == (ca[i].0 + dx, ca[i].1 + dy),
        forall|j: int, k: int| 0 <= j < k < 4 ==> #[trigger] cb[j] != #[trigger] cb[k],
        forall|j: int, k: int| 0 <= j < k < 4 ==> #[trigger] ca[j] != #[trigger] ca[k],
        set![
            quarter_turned_cell(cb[0], d0),
            quarter_turned_cell(cb[1], d0),
            quarter_turned_cell(cb[2], d0),
            quarter_turned_cell(cb[3], d0),
        ] == set![ca[0], ca[1], ca[2], ca[3]],
    ensures
        distinct_cells(before),
        distinct_cells(after),
        piece_cells(after) == quarter_turned_cells(piece_cells(before), (d0.0 + dx - dy, d0.1 + dx + dy)),
{
    let d = (d0.0 + dx - dy, d0.1 + dx + dy);
    assert forall|j: int, k: int| 0 <= j < k < before.len() implies #[trigger] before[j].pos
        != #[trigger] before[k].pos by {
        assert(block_cell(before[j]) == (cb[j].0 + dx, cb[j].1 + dy));
        assert(block_cell(before[k]) == (cb[k].0 + dx, cb[k].1 + dy));
        assert(cb[j] != cb[k]);
    }
    assert forall|j: int, k: int| 0 <= j < k < after.len() implies #[trigger] after[j].pos
        != #[trigger] after[k].pos by {
        assert(block_cell(after[j]) == (ca[j].0 + dx, ca[j].1 + dy));
        assert(block_cell(after[k]) == (ca[k].0 + dx, ca[k].1 + dy));
        assert(ca[j] != ca[k]);
    }
    let lb = set![
        quarter_turned_cell(block_cell(before[0]), d),
        quarter_turned_cell(block_cell(before[1]), d),
        quarter_turned_cell(block_cell(before[2]), d),
        quarter_turned_cell(block_cell(before[3]), d),
    ];
    let la = set![block_cell(after[0]), block_cell(after[1]), block_cell(after[2]), block_cell(after[3])];
    let l0 = set![
        quarter_turned_cell(cb[0], d0),
        quarter_turned_cell(cb[1], d0),
        quarter_turned_cell(cb[2], d0),
        quarter_turned_cell(cb[3], d0),
    ];
    assert forall|i: int| 0 <= i < 4 implies #[trigger] quarter_turned_cell(block_cell(before[i]), d)
        == (quarter_turned_cell(cb[i], d0).0 + dx, quarter_turned_cell(cb[i], d0).1 + dy) by {
        assert(block_cell(before[i]) == (cb[i].0 + dx, cb[i].1 + dy));
    }
    let lc = set![ca[0], ca[1], ca[2], ca[3]];
    assert(l0 == lc);
    assert forall|x: (int, int)| #[trigger] lb.contains(x) implies la.contains(x) by {
        let i: int = if x == quarter_turned_cell(block_cell(before[0]), d) {
            0
        } else if x == quarter_turned_cell(block_cell(before[1]), d) {
            1
        } else if x == quarter_turned_cell(block_cell(before[2]), d) {
            2
        } else {
            3
        };
        let q = quarter_turned_cell(cb[i], d0);
        assert(x == quarter_turned_cell(block_cell(before[i]), d));
        assert(x == (q.0 + dx, q.1 + dy));
        assert(l0.contains(q));
        assert(lc.contains(q));
        let j: int = if q == ca[0] {
            0
        } else if q == ca[1] {
            1
        } else if q == ca[2] {
            2
        } else {
            3
        };
        assert(q == ca[j]);
        assert(block_cell(after[j]) == (ca[j].0 + dx, ca[j].1 + dy));
        assert(x == block_cell(after[j]));
    }
    assert forall|x: (int, int)| #[trigger] la.contains(x) implies lb.contains(x) by {
        let j: int = if x == block_cell(after[0]) {
            0
        } else if x == block_cell(after[1]) {
            1
        } else if x == block_cell(after[2]) {
            2
        } else {
            3
        };
        assert(x == block_cell(after[j]));
        assert(x == (ca[j].0 + dx, ca[j].1 + dy));
        let q = ca[j];
        assert(lc.contains(q));
        assert(l0.contains(q));
        let i: int = if q == quarter_turned_cell(cb[0], d0) {
            0
        } else if q == quarter_turned_cell(cb[1], d0) {
            1
        } else if q == quarter_turned_cell(cb[2], d0) {
            2
        } else {
            3
        };
        assert(q == quarter_turned_cell(cb[i], d0));
        assert(x == quarter_turned_cell(block_cell(before[i]), d));
    }
    assert(lb =~= la);
    lemma_turned_piece_cells(before, after, d);
}

/// One turn of a new piece of `shape` turned `k` times and moved, where
/// the cells of the new piece turned `k` and `k + 1` times are `cb` and
/// `ca`, and `ca` is `cb` turned and moved by `d0`.
proof fn lemma_spawn_turn_case(
    shape: TetrominoShape,
    k: nat,
    dx: int,
    dy: int,
    before: Seq<PieceBlock>,
    after: Seq<PieceBlock>,
    cb: Seq<(int, int)>,
    ca: Seq<(int, int)>,
    d0: (int, int),
)
    requires
        spawned_turned_moved(before, shape, k, dx, dy),
        before.len() == 4,
        after.len() == 4,
        forall|i: int| 0 <= i < 4 ==> #[trigger] after[i] == turned_block(before[i]),
        forall|i: int| 0 <= i < 4 ==> #[trigger] turn_computable(before[i]),
        cb.len() == 4,
        ca.len() == 4,
        forall|i: int|
            0 <= i < 4 ==> #[trigger] block_cell(turned_times(spawn_blocks(shape)[i], k)) == cb[i],
        forall|i: int|
            0 <= i < 4 ==> #[trigger] turned_pos(turned_times(spawn_blocks(shape)[i], k)) == ca[i],
        forall|j: int, m: int| 0 <= j < m < 4 ==> #[trigger] cb[j] != #[trigger] cb[m],
        forall|j: int, m: int| 0 <= j < m < 4 ==> #[trigger] ca[j] != #[trigger] ca[m],
        set![
            quarter_turned_cell(cb[0], d0),
            quarter_turned_cell(cb[1], d0),
            quarter_turned_cell(cb[2], d0),
            quarter_turned_cell(cb[3], d0),
        ] == set![ca[0], ca[1], ca[2], ca[3]],
    ensures
        distinct_cells(before),
        distinct_cells(after),
        piece_cells(after) == quarter_turned_cells(piece_cells(before), (d0.0 + dx - dy, d0.1 + dx + dy)),
{
    assert forall|i: int| 0 <= i < 4 implies #[trigger] block_cell(before[i]) == (cb[i].0 + dx, cb[i].1 + dy) by {
        let b = turned_times(spawn_blocks(shape)[i], k);
        assert(block_cell(b) == cb[i]);
        assert(before[i].current == b.current);
        assert(before[i].pos.0 == b.pos.0 + dx && before[i].pos.1 == b.pos.1 + dy);
    }
    assert forall|i: int| 0 <= i < 4 implies #[trigger] block_cell(after[i]) == (ca[i].0 + dx, ca[i].1 + dy) by {
        let b = turned_times(spawn_blocks(shape)[i], k);
        assert(turned_pos(b) == ca[i]);
        assert(before[i].current == b.current);
        assert(turn_computable(before[i]));
        assert(turned_pos(before[i]) == (ca[i].0 + dx, ca[i].1 + dy));
        assert(after[i] == turned_block(before[i]));
    }
    lemma_turn_case(before, after, dx, dy, cb, ca, d0);
}

/// One turn of a new arrow as it comes in, moved by `dx` columns and `dy` rows, is
/// rigid.
#[verifier::spinoff_prover]
proof fn lemma_arrow_turn_0(dx: int, dy: int, before: Seq<PieceBlock>, after: Seq<PieceBlock>)
    requires
        spawned_turned_moved(before, TetrominoShape::Arrow, 0, dx, dy),
        before.len() == 4,
        after.len() == 4,
        forall|i: int| 0 <= i < 4 ==> #[trigger] after[i] == turned_block(before[i]),
        forall|i: int| 0 <= i < 4 ==> #[trigger] turn_computable(before[i]),
    ensures
        distinct_cells(before),
        distinct_cells(after),
        piece_cells(after) == quarter_turned_cells(piece_cells(before), (-15 + dx - dy, 22 + dx + dy)),
{
    reveal_with_fuel(turned_times, 1);
    let s = spawn_blocks(TetrominoShape::Arrow);
    let cb = seq![(4int, 19int), (3int, 18int), (4int, 18int), (5int, 18int)];
    let ca = seq![(4int, 18int), (3int, 19int), (3int, 18int), (3int, 17int)];
    assert forall|i: int| 0 <= i < 4 implies #[trigger] block_cell(turned_times(s[i], 0)) == cb[i]
        && turned_pos(turned_times(s[i], 0)) == ca[i] by {
        assert(i == 0 || i == 1 || i == 2 || i == 3);
    }
    assert(set![
        quarter_turned_cell(cb[0], (-15, 22)),
        quarter_turned_cell(cb[1], (-15, 22)),
        quarter_turned_cell(cb[2], (-15, 22)),
        quarter_turned_cell(cb[3], (-15, 22)),
    ] =~= set![ca[0], ca[1], ca[2], ca[3]]);
    lemma_spawn_turn_case(TetrominoShape::Arrow, 0, dx, dy, before, after, cb, ca, (-15, 22));
}

/// One turn of a new arrow turned once, moved by `dx` columns and `dy` rows, is
/// rigid.
#[verifier::spinoff_prover]
proof fn lemma_arrow_turn_1(dx: int, dy: int, before: Seq<PieceBlock>, after: Seq<PieceBlock>)
    requires
        spawned_turned_moved(before, TetrominoShape::Arrow, 1, dx, dy),
        before.len() == 4,
        after.len() == 4,
        forall|i: int| 0 <= i < 4 ==> #[trigger] after[i] == turned_block(before[i]),
        forall|i: int| 0 <= i < 4 ==> #[trigger] turn_computable(before[i]),
    ensures
        distinct_cells(before),
        distinct_cells(after),
        piece_cells(after) == quarter_turned_cells(piece_cells(before), (-14 + dx - dy, 22 + dx + dy)),
{
    reveal_with_fuel(turned_times, 2);
    let s = spawn_blocks(TetrominoShape::Arrow);
    let cb = seq![(4int, 18int), (3int, 19int), (3int, 18int), (3int, 17int)];
    let ca = seq![(4int, 18int), (3int, 19int), (4int, 19int), (5int, 19int)];
    assert forall|i: int| 0 <= i < 4 implies #[trigger] block_cell(turned_times(s[i], 1)) == cb[i]
        && turned_pos(turned_times(s[i], 1)) == ca[i] by {
        assert(i == 0 || i == 1 || i == 2 || i == 3);
    }
    assert(set![
        quarter_turned_cell(cb[0], (-14, 22)),
        quarter_turned_cell(cb[1], (-14, 22)),
        quarter_turned_cell(cb[2], (-14, 22)),
        quarter_turned_cell(cb[3], (-14, 22)),
    ] =~= set![ca[0], ca[1], ca[2], ca[3]]);
    lemma_spawn_turn_case(TetrominoShape::Arrow, 1, dx, dy, before, after, cb, ca, (-14, 22));
}

/// One turn of a new arrow turned twice, moved by `dx` columns and `dy` rows, is
/// rigid.
#[verifier::spinoff_prover]
proof fn lemma_arrow_turn_2(dx: int, dy: int, before: Seq<PieceBlock>, after: Seq<PieceBlock>)
    requires
        spawned_turned_moved(before, TetrominoShape::Arrow, 2, dx, dy),
        before.len() == 4,
        after.len() == 4,
        forall|i: int| 0 <= i < 4 ==> #[trigger] after[i] == turned_block(before[i]),
        forall|i: int| 0 <= i < 4 ==> #[trigger] turn_computable(before[i]),
    ensures
        distinct_cells(before),
        distinct_cells(after),
        piece_cells(after) == quarter_turned_cells(piece_cells(before), (-14 + dx - dy, 22 + dx + dy)),
{
    reveal_with_fuel(turned_times, 3);
    let s = spawn_blocks(TetrominoShape::Arrow);
    let cb = seq![(4int, 18int), (3int, 19int), (4int, 19int), (5int, 19int)];
    let ca = seq![(4int, 18int), (5int, 19int), (5int, 18int), (5int, 17int)];
    assert forall|i: int| 0 <= i < 4 implies #[trigger] block_cell(turned_times(s[i], 2)) == cb[i]
        && turned_pos(turned_times(s[i], 2)) == ca[i] by {
        assert(i == 0 || i == 1 || i == 2 || i == 3);
    }
    assert(set![
        quarter_turned_cell(cb[0], (-14, 22)),
        quarter_turned_cell(cb[1], (-14, 22)),
        quarter_turned_cell(cb[2], (-14, 22)),
        quarter_turned_cell(cb[3], (-14, 22)),
    ] =~= set![ca[0], ca[1], ca[2], ca[3]]);
    lemma_spawn_turn_case(TetrominoShape::Arrow, 2, dx, dy, before, after, cb, ca, (-14, 22));
}

/// One turn of a new arrow turned three times, moved by `dx` columns and `dy` rows, is
/// rigid.
#[verifier::spinoff_prover]
proof fn lemma_arrow_turn_3(dx: int, dy: int, before: Seq<PieceBlock>, after: Seq<PieceBlock>)
    requires
        spawned_turned_moved(before, TetrominoShape::Arrow, 3, dx, dy),
        before.len() == 4,
        after.len() == 4,
        forall|i: int| 0 <= i < 4 ==> #[trigger] after[i] == turned_block(before[i]),
        forall|i: int| 0 <= i < 4 ==> #[trigger] turn_computable(before[i]),
    ensures
        distinct_cells(before),
        distinct_cells(after),
        piece_cells(after) == quarter_turned_cells(piece_cells(before), (-14 + dx - dy, 23 + dx + dy)),
{
    reveal_with_fuel(turned_times, 4);
    let s = spawn_blocks(TetrominoShape::Arrow);
    let cb = seq![(4int, 18int), (5int, 19int), (5int, 18int), (5int, 17int)];
    let ca = seq![(4int, 19int), (3int, 18int), (4int, 18int), (5int, 18int)];
    assert forall|i: int| 0 <= i < 4 implies #[trigger] block_cell(turned_times(s[i], 3)) == cb[i]
        && turned_pos(turned_times(s[i], 3)) == ca[i] by {
        assert(i == 0 || i == 1 || i == 2 || i == 3);
    }
    assert(set![
        quarter_turned_cell(cb[0], (-14, 23)),
        quarter_turned_cell(cb[1], (-14, 23)),
        quarter_turned_cell(cb[2], (-14, 23)),
        quarter_turned_cell(cb[3], (-14, 23)),
    ] =~= set![ca[0], ca[1], ca[2], ca[3]]);
    lemma_spawn_turn_case(TetrominoShape::Arrow, 3, dx, dy, before, after, cb, ca, (-14, 23));
}

/// Each turn of a new arrow, turned up to three times and moved, is rigid.
proof fn lemma_arrow_turns_rigidly(k: nat, dx: int, dy: int, before: Seq<PieceBlock>, after: Seq<PieceBlock>)
    requires
        k < 4,
        spawned_turned_moved(before, TetrominoShape::Arrow, k, dx, dy),
        before.len() == 4,
        after.len() == 4,
        forall|i: int| 0 <= i < 4 ==> #[trigger] after[i] == turned_block(before[i]),
        forall|i: int| 0 <= i < 4 ==> #[trigger] turn_computable(before[i]),
    ensures
        distinct_cells(before),
        distinct_cells(after),
        exists|d: (int, int)| piece_cells(after) == quarter_turned_cells(piece_cells(before), d),
{
    if k == 0 {
        lemma_arrow_turn_0(dx, dy, before, after);
        assert(piece_cells(after) == quarter_turned_cells(piece_cells(before), (-15 + dx - dy, 22 + dx + dy)));
    } else if k == 1 {
        lemma_arrow_turn_1(dx, dy, before, after);
        assert(piece_cells(after) == quarter_turned_cells(piece_cells(before), (-14 + dx - dy, 22 + dx + dy)));
    } else if k == 2 {
        lemma_arrow_turn_2(dx, dy, before, after);
        assert(piece_cells(after) == quarter_turned_cells(piece_cells(before), (-14 + dx - dy, 22 + dx + dy)));
    } else {
        lemma_arrow_turn_3(dx, dy, before, after);
        assert(piece_cells(after) == quarter_turned_cells(piece_cells(before), (-14 + dx - dy, 23 + dx + dy)));
    }
}

/// One turn of a new stick as it comes in, moved by `dx` columns and `dy` rows, is
/// rigid.
#[verifier::spinoff_prover]
proof fn lemma_stick_turn_0(dx: int, dy: int, before: Seq<PieceBlock>, after: Seq<PieceBlock>)
    requires
        spawned_turned_moved(before, TetrominoShape::Stick, 0, dx, dy),
        before.len() == 4,
        after.len() == 4,
        forall|i: int| 0 <= i < 4 ==> #[trigger] after[i] == turned_block(before[i]),
        forall|i: int| 0 <= i < 4 ==> #[trigger] turn_computable(before[i]),
    ensures
        distinct_cells(before),
        distinct_cells(after),
        piece_cells(after) == quarter_turned_cells(piece_cells(before), (-14 + dx - dy, 22 + dx + dy)),
{
    reveal_with_fuel(turned_times, 1);
    let s = spawn_blocks(TetrominoShape::Stick);
    let cb = seq![(3int, 19int), (4int, 19int), (5int, 19int), (6int, 19int)];
    let ca = seq![(5int, 19int), (5int, 18int), (5int, 17int), (5int, 16int)];
    assert forall|i: int| 0 <= i < 4 implies #[trigger] block_cell(turned_times(s[i], 0)) == cb[i]
        && turned_pos(turned_times(s[i], 0)) == ca[i] by {
        assert(i == 0 || i == 1 || i == 2 || i == 3);
    }
    assert(set![
        quarter_turned_cell(cb[0], (-14, 22)),
        quarter_turned_cell(cb[1], (-14, 22)),
        quarter_turned_cell(cb[2], (-14, 22)),
        quarter_turned_cell(cb[3], (-14, 22)),
    ] =~= set![ca[0], ca[1], ca[2], ca[3]]);
    lemma_spawn_turn_case(TetrominoShape::Stick, 0, dx, dy, before, after, cb, ca, (-14, 22));
}

/// One turn of a new stick turned once, moved by `dx` columns and `dy` rows, is
/// rigid.
#[verifier::spinoff_prover]
proof fn lemma_stick_turn_1(dx: int, dy: int, before: Seq<PieceBlock>, after: Seq<PieceBlock>)
    requires
        spawned_turned_moved(before, TetrominoShape::Stick, 1, dx, dy),
        before.len() == 4,
        after.len() == 4,
        forall|i: int| 0 <= i < 4 ==> #[trigger] after[i] == turned_block(before[i]),
        forall|i: int| 0 <= i < 4 ==> #[trigger] turn_computable(before[i]),
    ensures
        distinct_cells(before),
        distinct_cells(after),
        piece_cells(after) == quarter_turned_cells(piece_cells(before), (-13 + dx - dy, 24 + dx + dy)),
{
    reveal_with_fuel(turned_times, 2);
    let s = spawn_blocks(TetrominoShape::Stick);
    let cb = seq![(5int, 19int), (5int, 18int), (5int, 17int), (5int, 16int)];
    let ca = seq![(3int, 19int), (4int, 19int), (5int, 19int), (6int, 19int)];
    assert forall|i: int| 0 <= i < 4 implies #[trigger] block_cell(turned_times(s[i], 1)) == cb[i]
        && turned_pos(turned_times(s[i], 1)) == ca[i] by {
        assert(i == 0 || i == 1 || i == 2 || i == 3);
    }
    assert(set![
        quarter_turned_cell(cb[0], (-13, 24)),
        quarter_turned_cell(cb[1], (-13, 24)),
        quarter_turned_cell(cb[2], (-13, 24)),
        quarter_turned_cell(cb[3], (-13, 24)),
    ] =~= set![ca[0], ca[1], ca[2], ca[3]]);
    lemma_spawn_turn_case(TetrominoShape::Stick, 1, dx, dy, before, after, cb, ca, (-13, 24));
}

/// One turn of a new stick turned twice, moved by `dx` columns and `dy` rows, is
/// rigid.
#[verifier::spinoff_prover]
proof fn lemma_stick_turn_2(dx: int, dy: int, before: Seq<PieceBlock>, after: Seq<PieceBlock>)
    requires
        spawned_turned_moved(before, TetrominoShape::Stick, 2, dx, dy),
        before.len() == 4,
        after.len() == 4,
        forall|i: int| 0 <= i < 4 ==> #[trigger] after[i] == turned_block(before[i]),
        forall|i: int| 0 <= i < 4 ==> #[trigger] turn_computable(before[i]),
    ensures
        distinct_cells(before),
        distinct_cells(after),
        piece_cells(after) == quarter_turned_cells(piece_cells(before), (-14 + dx - dy, 22 + dx + dy)),
{
    reveal_with_fuel(turned_times, 3);
    let s = spawn_blocks(TetrominoShape::Stick);
    let cb = seq![(3int, 19int), (4int, 19int), (5int, 19int), (6int, 19int)];
    let ca = seq![(5int, 19int), (5int, 18int), (5int, 17int), (5int, 16int)];
    assert forall|i: int| 0 <= i < 4 implies #[trigger] block_cell(turned_times(s[i], 2)) == cb[i]
        && turned_pos(turned_times(s[i], 2)) == ca[i] by {
        assert(i == 0 || i == 1 || i == 2 || i == 3);
    }
    assert(set![
        quarter_turned_cell(cb[0], (-14, 22)),
        quarter_turned_cell(cb[1], (-14, 22)),
        quarter_turned_cell(cb[2], (-14, 22)),
        quarter_turned_cell(cb[3], (-14, 22)),
    ] =~= set![ca[0], ca[1], ca[2], ca[3]]);
    lemma_spawn_turn_case(TetrominoShape::Stick, 2, dx, dy, before, after, cb, ca, (-14, 22));
}

/// One turn of a new stick turned three times, moved by `dx` columns and `dy` rows, is
/// rigid.
#[verifier::spinoff_prover]
proof fn lemma_stick_turn_3(dx: int, dy: int, before: Seq<PieceBlock>, after: Seq<PieceBlock>)
    requires
        spawned_turned_moved(before, TetrominoShape::Stick, 3, dx, dy),
        before.len() == 4,
        after.len() == 4,
        forall|i: int| 0 <= i < 4 ==> #[trigger] after[i] == turned_block(before[i]),
        forall|i: int| 0 <= i < 4 ==> #[trigger] turn_computable(before[i]),
    ensures
        distinct_cells(before),
        distinct_cells(after),
        piece_cells(after) == quarter_turned_cells(piece_cells(before), (-13 + dx - dy, 24 + dx + dy)),
{
    reveal_with_fuel(turned_times, 4);
    let s = spawn_blocks(TetrominoShape::Stick);
    let cb = seq![(5int, 19int), (5int, 18int), (5int, 17int), (5int, 16int)];
    let ca = seq![(3int, 19int), (4int, 19int), (5int, 19int), (6int, 19int)];
    assert forall|i: int| 0 <= i < 4 implies #[trigger] block_cell(turned_times(s[i], 3)) == cb[i]
        && turned_pos(turned_times(s[i], 3)) == ca[i] by {
        assert(i == 0 || i == 1 || i == 2 || i == 3);
    }
    assert(set![
        quarter_turned_cell(cb[0], (-13, 24)),
        quarter_turned_cell(cb[1], (-13, 24)),
        quarter_turned_cell(cb[2], (-13, 24)),
        quarter_turned_cell(cb[3], (-13, 24)),
    ] =~= set![ca[0], ca[1], ca[2], ca[3]]);
    lemma_spawn_turn_case(TetrominoShape::Stick, 3, dx, dy, before, after, cb, ca, (-13, 24));
}

/// Each turn of a new stick, turned up to three times and moved, is rigid.
proof fn lemma_stick_turns_rigidly(k: nat, dx: int, dy: int, before: Seq<PieceBlock>, after: Seq<PieceBlock>)
    requires
        k < 4,
        spawned_turned_moved(before, TetrominoShape::Stick, k, dx, dy),
        before.len() == 4,
        after.len() == 4,
        forall|i: int| 0 <= i < 4 ==> #[trigger] after[i] == turned_block(before[i]),
        forall|i: int| 0 <= i < 4 ==> #[trigger] turn_computable(before[i]),
    ensures
        distinct_cells(before),
        distinct_cells(after),
        exists|d: (int, int)| piece_cells(after) == quarter_turned_cells(piece_cells(before), d),
{
    if k == 0 {
        lemma_stick_turn_0(dx, dy, before, after);
        assert(piece_cells(after) == quarter_turned_cells(piece_cells(before), (-14 + dx - dy, 22 + dx + dy)));
    } else if k == 1 {
        lemma_stick_turn_1(dx, dy, before, after);
        assert(piece_cells(after) == quarter_turned_cells(piece_cells(before), (-13 + dx - dy, 24 + dx + dy)));
    } else if k == 2 {
        lemma_stick_turn_2(dx, dy, before, after);
        assert(piece_cells(after) == quarter_turned_cells(piece_cells(before), (-14 + dx - dy, 22 + dx + dy)));
    } else {
        lemma_stick_turn_3(dx, dy, before, after);
        assert(piece_cells(after) == quarter_turned_cells(piece_cells(before), (-13 + dx - dy, 24 + dx + dy)));
    }
}

/// One turn of a new square as it comes in, moved by `dx` columns and `dy` rows, is
/// rigid.
#[verifier::spinoff_prover]
proof fn lemma_square_turn_0(dx: int, dy: int, before: Seq<PieceBlock>, after: Seq<PieceBlock>)
    requires
        spawned_turned_moved(before, TetrominoShape::Square, 0, dx, dy),
        before.len() == 4,
        after.len() == 4,
        forall|i: int| 0 <= i < 4 ==> #[trigger] after[i] == turned_block(before[i]),
        forall|i: int| 0 <= i < 4 ==> #[trigger] turn_computable(before[i]),
    ensures
        distinct_cells(before),
        distinct_cells(after),
        piece_cells(after) == quarter_turned_cells(piece_cells(before), (-14 + dx - dy, 23 + dx + dy)),
{
    reveal_with_fuel(turned_times, 1);
    let s = spawn_blocks(TetrominoShape::Square);
    let cb = seq![(4int, 19int), (5int, 19int), (4int, 18int), (5int, 18int)];
    let ca = seq![(4int, 19int), (5int, 19int), (4int, 18int), (5int, 18int)];
    assert forall|i: int| 0 <= i < 4 implies #[trigger] block_cell(turned_times(s[i], 0)) == cb[i]
        && turned_pos(turned_times(s[i], 0)) == ca[i] by {
        assert(i == 0 || i == 1 || i == 2 || i == 3);
    }
    assert(set![
        quarter_turned_cell(cb[0], (-14, 23)),
        quarter_turned_cell(cb[1], (-14, 23)),
        quarter_turned_cell(cb[2], (-14, 23)),
        quarter_turned_cell(cb[3], (-14, 23)),
    ] =~= set![ca[0], ca[1], ca[2], ca[3]]);
    lemma_spawn_turn_case(TetrominoShape::Square, 0, dx, dy, before, after, cb, ca, (-14, 23));
}

/// One turn of a new square turned once, moved by `dx` columns and `dy` rows, is
/// rigid.
#[verifier::spinoff_prover]
proof fn lemma_square_turn_1(dx: int, dy: int, before: Seq<PieceBlock>, after: Seq<PieceBlock>)
    requires
        spawned_turned_moved(before, TetrominoShape::Square, 1, dx, dy),
        before.len() == 4,
        after.len() == 4,
        forall|i: int| 0 <= i < 4 ==> #[trigger] after[i] == turned_block(before[i]),
        forall|i: int| 0 <= i < 4 ==> #[trigger] turn_computable(before[i]),
    ensures
        distinct_cells(before),
        distinct_cells(after),
        piece_cells(after) == quarter_turned_cells(piece_cells(before), (-14 + dx - dy, 23 + dx + dy)),
{
    reveal_with_fuel(turned_times, 2);
    let s = spawn_blocks(TetrominoShape::Square);
    let cb = seq![(4int, 19int), (5int, 19int), (4int, 18int), (5int, 18int)];
    let ca = seq![(4int, 19int), (5int, 19int), (4int, 18int), (5int, 18int)];
    assert forall|i: int| 0 <= i < 4 implies #[trigger] block_cell(turned_times(s[i], 1)) == cb[i]
        && turned_pos(turned_times(s[i], 1)) == ca[i] by {
        assert(i == 0 || i == 1 || i == 2 || i == 3);
    }
    assert(set![
        quarter_turned_cell(cb[0], (-14, 23)),
        quarter_turned_cell(cb[1], (-14, 23)),
        quarter_turned_cell(cb[2], (-14, 23)),
        quarter_turned_cell(cb[3], (-14, 23)),
    ] =~= set![ca[0], ca[1], ca[2], ca[3]]);
    lemma_spawn_turn_case(TetrominoShape::Square, 1, dx, dy, before, after, cb, ca, (-14, 23));
}

/// One turn of a new square turned twice, moved by `dx` columns and `dy` rows, is
/// rigid.
#[verifier::spinoff_prover]
proof fn lemma_square_turn_2(dx: int, dy: int, before: Seq<PieceBlock>, after: Seq<PieceBlock>)
    requires
        spawned_turned_moved(before, TetrominoShape::Square, 2, dx, dy),
        before.len() == 4,
        after.len() == 4,
        forall|i: int| 0 <= i < 4 ==> #[trigger] after[i] == turned_block(before[i]),
        forall|i: int| 0 <= i < 4 ==> #[trigger] turn_computable(before[i]),
    ensures
        distinct_cells(before),
        distinct_cells(after),
        piece_cells(after) == quarter_turned_cells(piece_cells(before), (-14 + dx - dy, 23 + dx + dy)),
{
    reveal_with_fuel(turned_times, 3);
    let s = spawn_blocks(TetrominoShape::Square);
    let cb = seq![(4int, 19int), (5int, 19int), (4int, 18int), (5int, 18int)];
    let ca = seq![(4int, 19int), (5int, 19int), (4int, 18int), (5int, 18int)];
    assert forall|i: int| 0 <= i < 4 implies #[trigger] block_cell(turned_times(s[i], 2)) == cb[i]
        && turned_pos(turned_times(s[i], 2)) == ca[i] by {
        assert(i == 0 || i == 1 || i == 2 || i == 3);
    }
    assert(set![
        quarter_turned_cell(cb[0], (-14, 23)),
        quarter_turned_cell(cb[1], (-14, 23)),
        quarter_turned_cell(cb[2], (-14, 23)),
        quarter_turned_cell(cb[3], (-14, 23)),
    ] =~= set![ca[0], ca[1], ca[2], ca[3]]);
    lemma_spawn_turn_case(TetrominoShape::Square, 2, dx, dy, before, after, cb, ca, (-14, 23));
}

/// One turn of a new square turned three times, moved by `dx` columns and `dy` rows, is
/// rigid.
#[verifier::spinoff_prover]
proof fn lemma_square_turn_3(dx: int, dy: int, before: Seq<PieceBlock>, after: Seq<PieceBlock>)
    requires
        spawned_turned_moved(before, TetrominoShape::Square, 3, dx, dy),
        before.len() == 4,
        after.len() == 4,
        forall|i: int| 0 <= i < 4 ==> #[trigger] after[i] == turned_block(before[i]),
        forall|i: int| 0 <= i < 4 ==> #[trigger] turn_computable(before[i]),
    ensures
        distinct_cells(before),
        distinct_cells(after),
        piece_cells(after) == quarter_turned_cells(piece_cells(before), (-14 + dx - dy, 23 + dx + dy)),
{
    reveal_with_fuel(turned_times, 4);
    let s = spawn_blocks(TetrominoShape::Square);
    let cb = seq![(4int, 19int), (5int, 19int), (4int, 18int), (5int, 18int)];
    let ca = seq![(4int, 19int), (5int, 19int), (4int, 18int), (5int, 18int)];
    assert forall|i: int| 0 <= i < 4 implies #[trigger] block_cell(turned_times(s[i], 3)) == cb[i]
        && turned_pos(turned_times(s[i], 3)) == ca[i] by {
        assert(i == 0 || i == 1 || i == 2 || i == 3);
    }
    assert(set![
        quarter_turned_cell(cb[0], (-14, 23)),
        quarter_turned_cell(cb[1], (-14, 23)),
        quarter_turned_cell(cb[2], (-14, 23)),
        quarter_turned_cell(cb[3], (-14, 23)),
    ] =~= set![ca[0], ca[1], ca[2], ca[3]]);
    lemma_spawn_turn_case(TetrominoShape::Square, 3, dx, dy, before, after, cb, ca, (-14, 23));
}

/// Each turn of a new square, turned up to three times and moved, is rigid.
proof fn lemma_square_turns_rigidly(k: nat, dx: int, dy: int, before: Seq<PieceBlock>, after: Seq<PieceBlock>)
    requires
        k < 4,
        spawned_turned_moved(before, TetrominoShape::Square, k, dx, dy),
        before.len() == 4,
        after.len() == 4,
        forall|i: int| 0 <= i < 4 ==> #[trigger] after[i] == turned_block(before[i]),
        forall|i: int| 0 <= i < 4 ==> #[trigger] turn_computable(before[i]),
    ensures
        distinct_cells(before),
        distinct_cells(after),
        exists|d: (int, int)| piece_cells(after) == quarter_turned_cells(piece_cells(before), d),
{
    if k == 0 {
        lemma_square_turn_0(dx, dy, before, after);
        assert(piece_cells(after) == quarter_turned_cells(piece_cells(before), (-14 + dx - dy, 23 + dx + dy)));
    } else if k == 1 {
        lemma_square_turn_1(dx, dy, before, after);
        assert(piece_cells(after) == quarter_turned_cells(piece_cells(before), (-14 + dx - dy, 23 + dx + dy)));
    } else if k == 2 {
        lemma_square_turn_2(dx, dy, before, after);
        assert(piece_cells(after) == quarter_turned_cells(piece_cells(before), (-14 + dx - dy, 23 + dx + dy)));
    } else {
        lemma_square_turn_3(dx, dy, before, after);
        assert(piece_cells(after) == quarter_turned_cells(piece_cells(before), (-14 + dx - dy, 23 + dx + dy)));
    }
}

/// Every turn of a piece is a rigid quarter turn: a new piece of a shape
/// that can be turned, turned up to three times and moved anywhere, lies on
/// four different cells, and turned once more it lies on four different
/// cells that are its cells before, turned a quarter turn clockwise and
/// moved.
#[verifier::spinoff_prover]
pub proof fn lemma_turn_is_quarter_turn(
    shape: TetrominoShape,
    k: nat,
    dx: int,
    dy: int,
    before: Seq<PieceBlock>,
    after: Seq<PieceBlock>,
)
    requires
        can_rotate(shape),
        k < 4,
        spawned_turned_moved(before, shape, k, dx, dy),
        forall|i: int| 0 <= i < before.len() ==> #[trigger] turn_computable(before[i]),
        rotation_step(before, after),
    ensures
        after.len() == 4,
        distinct_cells(before),
        distinct_cells(after),
        exists|d: (int, int)| piece_cells(after) == quarter_turned_cells(piece_cells(before), d),
{
    let s = spawn_blocks(shape);
    assert(s.len() == 4);
    assert forall|j: int, m: int| 0 <= j < m < before.len() implies #[trigger] before[j].current.0
        != #[trigger] before[m].current.0 by {
        lemma_turned_times_keeps_number(s[j], k);
        lemma_turned_times_keeps_number(s[m], k);
        assert(before[j].current == turned_times(s[j], k).current);
        assert(before[m].current == turned_times(s[m], k).current);
    }
    lemma_step_of_distinct_blocks(before, after);
    if shape == TetrominoShape::Arrow {
        lemma_arrow_turns_rigidly(k, dx, dy, before, after);
    } else if shape == TetrominoShape::Stick {
        lemma_stick_turns_rigidly(k, dx, dy, before, after);
    } else {
        lemma_square_turns_rigidly(k, dx, dy, before, after);
    }
}

} // verus!
