use vstd::prelude::*;

verus! {

/// The seven tetromino shapes.
#[derive(Clone, Copy, Debug, PartialEq, Eq, Structural)]
pub enum TetrominoShape {
    Square,
    Stick,
    /// The J piece.
    InverseHook,
    /// The L piece.
    Hook,
    /// The S piece.
    InverseSkew,
    /// The Z piece.
    Skew,
    Arrow,
}

/// The colour a shape is drawn in.
#[derive(Clone, Copy, Debug, PartialEq, Eq, Structural, Hash)]
pub enum TetrominoColor {
    Orange,
    Blue,
    Cyan,
    Yellow,
    Green,
    Magenta,
    Red,
}

/// The colour of each shape.
pub open spec fn shape_color(shape: TetrominoShape) -> TetrominoColor {
    match shape {
        TetrominoShape::Arrow => TetrominoColor::Magenta,
        TetrominoShape::Square => TetrominoColor::Yellow,
        TetrominoShape::Stick => TetrominoColor::Cyan,
        TetrominoShape::InverseSkew => TetrominoColor::Green,
        TetrominoShape::Skew => TetrominoColor::Red,
        TetrominoShape::Hook => TetrominoColor::Orange,
        TetrominoShape::InverseHook => TetrominoColor::Blue,
    }
}

/// The 4x4 grid of a shape, row by row from the top; its blocks are
/// numbered 1 to 4 and empty cells are 0. Every shape rests on the bottom row.
pub open spec fn shape_map(shape: TetrominoShape) -> Seq<u8> {
    match shape {
        TetrominoShape::Square => seq![0, 0, 0, 0, 0, 0, 0, 0, 1, 2, 0, 0, 3, 4, 0, 0],
        TetrominoShape::Arrow => seq![0, 0, 0, 0, 0, 0, 0, 0, 0, 1, 0, 0, 2, 3, 4, 0],
        TetrominoShape::Hook => seq![0, 0, 0, 0, 0, 0, 0, 0, 0, 0, 1, 0, 2, 3, 4, 0],
        TetrominoShape::InverseHook => seq![0, 0, 0, 0, 0, 0, 0, 0, 1, 0, 0, 0, 2, 3, 4, 0],
        TetrominoShape::Skew => seq![0, 0, 0, 0, 0, 0, 0, 0, 1, 2, 0, 0, 0, 3, 4, 0],
        TetrominoShape::InverseSkew => seq![0, 0, 0, 0, 0, 0, 0, 0, 0, 1, 2, 0, 3, 4, 0, 0],
        TetrominoShape::Stick => seq![0, 0, 0, 0, 0, 0, 0, 0, 0, 0, 0, 0, 1, 2, 3, 4],
    }
}

/// A 4x4 grid turned a quarter turn: the cell at row `r`, column `c` moves
/// to row `c`, column `3 - r`.
pub open spec fn quarter_turn(map: Seq<u8>) -> Seq<u8> {
    Seq::new(16, |i: int| map[4 * (3 - i % 4) + i / 4])
}

/// The number of zero cells at the end of `s`, after its last non-zero cell.
pub open spec fn trailing_zeros(s: Seq<u8>) -> nat
    decreases s.len(),
{
    if s.len() == 0 {
        0
    } else if s.last() != 0 {
        0
    } else {
        1 + trailing_zeros(s.drop_last())
    }
}

/// What `rotate_map` gives for `map`: the quarter turn, moved down by the
/// number of empty rows it has at the bottom, so that it rests on the bottom
/// row again.
pub open spec fn rotated_map(map: Seq<u8>) -> Seq<u8> {
    let turned = quarter_turn(map);
    let shift = 4 * (trailing_zeros(turned) / 4);
    Seq::new(
        16,
        |j: int|
            if j >= shift {
                turned[j - shift]
            } else {
                0
            },
    )
}

/// The trailing zeros of a grid are at its end, and the cell before them is
/// not zero.
proof fn lemma_trailing_zeros(s: Seq<u8>)
    ensures
        trailing_zeros(s) <= s.len(),
        forall|j: int| s.len() - trailing_zeros(s) <= j < s.len() ==> s[j] == 0,
        trailing_zeros(s) < s.len() ==> s[s.len() - 1 - trailing_zeros(s)] != 0,
    decreases s.len(),
{
    if s.len() > 0 && s.last() == 0 {
        lemma_trailing_zeros(s.drop_last());
        if trailing_zeros(s) < s.len() {
            assert(s.drop_last()[s.len() - 1 - trailing_zeros(s)] == s[s.len() - 1 - trailing_zeros(s)]);
        }
        assert forall|j: int| s.len() - trailing_zeros(s) <= j < s.len() implies s[j] == 0 by {
            if j < s.len() - 1 {
                assert(s.drop_last()[j] == s[j]);
            }
        }
    }
}

impl TetrominoShape {
    /// The colour of this shape.
    pub fn to_color(&self) -> (color: TetrominoColor)
        ensures
            color == shape_color(*self),
    {
        match self {
            TetrominoShape::Arrow => TetrominoColor::Magenta,
            TetrominoShape::Square => TetrominoColor::Yellow,
            TetrominoShape::Stick => TetrominoColor::Cyan,
            TetrominoShape::InverseSkew => TetrominoColor::Green,
            TetrominoShape::Skew => TetrominoColor::Red,
            TetrominoShape::Hook => TetrominoColor::Orange,
            TetrominoShape::InverseHook => TetrominoColor::Blue,
        }
    }

    /// The 4x4 grid of this shape.
    pub fn to_map(&self) -> (map: [u8; 16])
        ensures
            map@ == shape_map(*self),
    {
        let map: [u8; 16] = match self {
            TetrominoShape::Square => [0, 0, 0, 0, 0, 0, 0, 0, 1, 2, 0, 0, 3, 4, 0, 0],
            TetrominoShape::Arrow => [0, 0, 0, 0, 0, 0, 0, 0, 0, 1, 0, 0, 2, 3, 4, 0],
            TetrominoShape::Hook => [0, 0, 0, 0, 0, 0, 0, 0, 0, 0, 1, 0, 2, 3, 4, 0],
            TetrominoShape::InverseHook => [0, 0, 0, 0, 0, 0, 0, 0, 1, 0, 0, 0, 2, 3, 4, 0],
            TetrominoShape::Skew => [0, 0, 0, 0, 0, 0, 0, 0, 1, 2, 0, 0, 0, 3, 4, 0],
            TetrominoShape::InverseSkew => [0, 0, 0, 0, 0, 0, 0, 0, 0, 1, 2, 0, 3, 4, 0, 0],
            TetrominoShape::Stick => [0, 0, 0, 0, 0, 0, 0, 0, 0, 0, 0, 0, 1, 2, 3, 4],
        };
        assert(map@ =~= shape_map(*self));
        map
    }

    /// Turns a 4x4 grid a quarter turn and moves the result down so that it
    /// rests on the bottom row again.
    #[verifier::spinoff_prover]
    pub fn rotate_map(map: [u8; 16]) -> (result: [u8; 16])
        ensures
            result@ == rotated_map(map@),
    {
        let mut result: [u8; 16] = [0; 16];

        for row in 0..4usize
            invariant
                forall|r: int, c: int| 0 <= r < row && 0 <= c < 4
                    ==> #[trigger] result@[4 * c + 3 - r] == map@[4 * r + c],
                forall|r: int, c: int| row <= r < 4 && 0 <= c < 4
                    ==> #[trigger] result@[4 * c + 3 - r] == 0,
        {
            let target_column: [usize; 4] = [3 - row, 7 - row, 11 - row, 15 - row];
            for c in 0..4usize
                invariant
                    0 <= row < 4,
                    target_column@ == seq![(3 - row) as usize, (7 - row) as usize, (11 - row) as usize, (15 - row) as usize],
                    forall|r: int, c2: int| 0 <= r < row && 0 <= c2 < 4
                        ==> #[trigger] result@[4 * c2 + 3 - r] == map@[4 * r + c2],
                    forall|c2: int| 0 <= c2 < c
                        ==> #[trigger] result@[4 * c2 + 3 - row] == map@[4 * row + c2],
                    forall|r: int, c2: int| row <= r < 4 && 0 <= c2 < 4 && !(r == row && c2 < c)
                        ==> #[trigger] result@[4 * c2 + 3 - r] == 0,
            {
                let idx = target_column[c];
                let val = map[row * 4 + c];
                result[idx] = val;
            }
        }

        let ghost turned = quarter_turn(map@);
        assert(result@ =~= turned) by {
            assert forall|i: int| 0 <= i < 16 implies result@[i] == turned[i] by {
                let c = i / 4;
                let r = 3 - i % 4;
                assert(i == 4 * c + 3 - r);
                assert(result@[4 * c + 3 - r] == map@[4 * r + c]);
            }
        }

        // rotation can leave empty trailing rows: the piece is moved back to the bottom
        let mut zeros: usize = 0;
        for i in 0..16usize
            invariant
                result@ == turned,
                zeros == trailing_zeros(turned.take(i as int)),
                zeros <= i,
        {
            assert(turned.take(i + 1).drop_last() =~= turned.take(i as int));
            if result[i] != 0 {
                zeros = 0;
            } else {
                zeros = zeros + 1;
            }
        }
        assert(turned.take(16) =~= turned);
        let tailing_zero_rows = zeros / 4;
        let shift: usize = tailing_zero_rows * 4;
        proof {
            lemma_trailing_zeros(turned);
        }

        if tailing_zero_rows > 0 {
            let mut i: usize = 16;
            while i > 0
                invariant
                    0 <= i <= 16,
                    shift == 4 * (trailing_zeros(turned) / 4),
                    shift <= trailing_zeros(turned) <= 16,
                    tailing_zero_rows * 4 == shift,
                    1 <= tailing_zero_rows <= 4,
                    forall|j: int| 16 - trailing_zeros(turned) <= j < 16 ==> turned[j] == 0,
                    forall|j: int| 0 <= j < i ==> result@[j] == turned[j],
                    forall|j: int|
                        i <= j < 16 ==> result@[j] == (if j >= i + shift {
                            turned[j - shift]
                        } else {
                            0
                        }),
                decreases i,
            {
                i = i - 1;
                if result[i] != 0 {
                    assert(result@[i as int] == turned[i as int]);
                    assert(i + shift < 16);
                    result[i + tailing_zero_rows * 4] = result[i];
                    result[i] = 0;
                }
            }
        }
        assert(result@ =~= rotated_map(map@));
        result
    }
}

/// Each shape has a colour of its own.
pub proof fn lemma_colors_distinct(a: TetrominoShape, b: TetrominoShape)
    requires
        a != b,
    ensures
        shape_color(a) != shape_color(b),
{
}

/// Turning keeps every block: each non-zero cell of the quarter turn is
/// found again, moved down by whole rows, inside the grid.
pub proof fn lemma_rotation_keeps_blocks(map: Seq<u8>, j: int)
    requires
        0 <= j < 16,
        quarter_turn(map)[j] != 0,
    ensures
        ({
            let shift = 4 * (trailing_zeros(quarter_turn(map)) / 4);
            &&& j + shift < 16
            &&& rotated_map(map)[j + shift] == quarter_turn(map)[j]
        }),
{
    let turned = quarter_turn(map);
    lemma_trailing_zeros(turned);
    let tz = trailing_zeros(turned);
    assert(j < 16 - tz) by {
        if j >= 16 - tz {
            assert(turned[j] == 0);
        }
    }
}

/// A turned grid with some block rests on the bottom row: some cell of the
/// bottom row of the result is not empty.
pub proof fn lemma_rotated_rests_on_bottom(map: Seq<u8>)
    requires
        exists|i: int| 0 <= i < 16 && #[trigger] quarter_turn(map)[i] != 0,
    ensures
        exists|j: int| 12 <= j < 16 && #[trigger] rotated_map(map)[j] != 0,
{
    let turned = quarter_turn(map);
    lemma_trailing_zeros(turned);
    let tz = trailing_zeros(turned);
    assert(tz < 16) by {
        let i = choose|i: int| 0 <= i < 16 && #[trigger] quarter_turn(map)[i] != 0;
        if tz >= 16 {
            assert(turned[i] == 0);
        }
    }
    let shift = 4 * (tz / 4);
    let j = 15 - tz + shift;
    assert(rotated_map(map)[j] == turned[15 - tz]);
}

/// One quarter turn of a given grid, with the quarter turn and its count
/// of trailing zeros worked out.
#[verifier::spinoff_prover]
proof fn lemma_turn_step(map: Seq<u8>, turned: Seq<u8>, zeros: nat, result: Seq<u8>)
    requires
        map.len() == 16,
        turned.len() == 16,
        forall|i: int| 0 <= i < 16 ==> #[trigger] turned[i] == map[4 * (3 - i % 4) + i / 4],
        zeros <= 16,
        forall|j: int| 16 - zeros <= j < 16 ==> turned[j] == 0,
        zeros < 16 ==> turned[15 - zeros] != 0,
        result.len() == 16,
        forall|j: int|
            0 <= j < 16 ==> #[trigger] result[j] == if j >= 4 * (zeros / 4) {
                turned[j - 4 * (zeros / 4)]
            } else {
                0
            },
    ensures
        rotated_map(map) == result,
{
    assert(quarter_turn(map) =~= turned);
    lemma_trailing_zeros(turned);
    let t = trailing_zeros(turned);
    assert(t == zeros) by {
        if t > zeros {
            assert(turned[15 - zeros] == 0);
        } else if t < zeros {
            assert(turned[15 - t] == 0);
        }
    }
    assert(rotated_map(map) =~= result);
}

/// Four quarter turns give the grid of the square back.
#[verifier::spinoff_prover]
#[verifier::rlimit(30)]
proof fn lemma_four_turns_square()
    ensures
        rotated_map(rotated_map(rotated_map(rotated_map(shape_map(TetrominoShape::Square))))) == shape_map(TetrominoShape::Square),
{
    let m0 = shape_map(TetrominoShape::Square);
    assert(m0 =~= seq![0u8, 0u8, 0u8, 0u8, 0u8, 0u8, 0u8, 0u8, 1u8, 2u8, 0u8, 0u8, 3u8, 4u8, 0u8, 0u8]);
    lemma_turn_step(m0, seq![3u8, 1u8, 0u8, 0u8, 4u8, 2u8, 0u8, 0u8, 0u8, 0u8, 0u8, 0u8, 0u8, 0u8, 0u8, 0u8], 10, seq![0u8, 0u8, 0u8, 0u8, 0u8, 0u8, 0u8, 0u8, 3u8, 1u8, 0u8, 0u8, 4u8, 2u8, 0u8, 0u8]);
    let m1 = rotated_map(m0);
    lemma_turn_step(m1, seq![4u8, 3u8, 0u8, 0u8, 2u8, 1u8, 0u8, 0u8, 0u8, 0u8, 0u8, 0u8, 0u8, 0u8, 0u8, 0u8], 10, seq![0u8, 0u8, 0u8, 0u8, 0u8, 0u8, 0u8, 0u8, 4u8, 3u8, 0u8, 0u8, 2u8, 1u8, 0u8, 0u8]);
    let m2 = rotated_map(m1);
    lemma_turn_step(m2, seq![2u8, 4u8, 0u8, 0u8, 1u8, 3u8, 0u8, 0u8, 0u8, 0u8, 0u8, 0u8, 0u8, 0u8, 0u8, 0u8], 10, seq![0u8, 0u8, 0u8, 0u8, 0u8, 0u8, 0u8, 0u8, 2u8, 4u8, 0u8, 0u8, 1u8, 3u8, 0u8, 0u8]);
    let m3 = rotated_map(m2);
    lemma_turn_step(m3, seq![1u8, 2u8, 0u8, 0u8, 3u8, 4u8, 0u8, 0u8, 0u8, 0u8, 0u8, 0u8, 0u8, 0u8, 0u8, 0u8], 10, seq![0u8, 0u8, 0u8, 0u8, 0u8, 0u8, 0u8, 0u8, 1u8, 2u8, 0u8, 0u8, 3u8, 4u8, 0u8, 0u8]);
    let m4 = rotated_map(m3);
    assert(m4 =~= m0);
}

/// Four quarter turns give the grid of the arrow back.
#[verifier::spinoff_prover]
#[verifier::rlimit(30)]
proof fn lemma_four_turns_arrow()
    ensures
        rotated_map(rotated_map(rotated_map(rotated_map(shape_map(TetrominoShape::Arrow))))) == shape_map(TetrominoShape::Arrow),
{
    let m0 = shape_map(TetrominoShape::Arrow);
    assert(m0 =~= seq![0u8, 0u8, 0u8, 0u8, 0u8, 0u8, 0u8, 0u8, 0u8, 1u8, 0u8, 0u8, 2u8, 3u8, 4u8, 0u8]);
    lemma_turn_step(m0, seq![2u8, 0u8, 0u8, 0u8, 3u8, 1u8, 0u8, 0u8, 4u8, 0u8, 0u8, 0u8, 0u8, 0u8, 0u8, 0u8], 7, seq![0u8, 0u8, 0u8, 0u8, 2u8, 0u8, 0u8, 0u8, 3u8, 1u8, 0u8, 0u8, 4u8, 0u8, 0u8, 0u8]);
    let m1 = rotated_map(m0);
    lemma_turn_step(m1, seq![4u8, 3u8, 2u8, 0u8, 0u8, 1u8, 0u8, 0u8, 0u8, 0u8, 0u8, 0u8, 0u8, 0u8, 0u8, 0u8], 10, seq![0u8, 0u8, 0u8, 0u8, 0u8, 0u8, 0u8, 0u8, 4u8, 3u8, 2u8, 0u8, 0u8, 1u8, 0u8, 0u8]);
    let m2 = rotated_map(m1);
    lemma_turn_step(m2, seq![0u8, 4u8, 0u8, 0u8, 1u8, 3u8, 0u8, 0u8, 0u8, 2u8, 0u8, 0u8, 0u8, 0u8, 0u8, 0u8], 6, seq![0u8, 0u8, 0u8, 0u8, 0u8, 4u8, 0u8, 0u8, 1u8, 3u8, 0u8, 0u8, 0u8, 2u8, 0u8, 0u8]);
    let m3 = rotated_map(m2);
    lemma_turn_step(m3, seq![0u8, 1u8, 0u8, 0u8, 2u8, 3u8, 4u8, 0u8, 0u8, 0u8, 0u8, 0u8, 0u8, 0u8, 0u8, 0u8], 9, seq![0u8, 0u8, 0u8, 0u8, 0u8, 0u8, 0u8, 0u8, 0u8, 1u8, 0u8, 0u8, 2u8, 3u8, 4u8, 0u8]);
    let m4 = rotated_map(m3);
    assert(m4 =~= m0);
}

/// Four quarter turns give the grid of the hook back.
#[verifier::spinoff_prover]
#[verifier::rlimit(30)]
proof fn lemma_four_turns_hook()
    ensures
        rotated_map(rotated_map(rotated_map(rotated_map(shape_map(TetrominoShape::Hook))))) == shape_map(TetrominoShape::Hook),
{
    let m0 = shape_map(TetrominoShape::Hook);
    assert(m0 =~= seq![0u8, 0u8, 0u8, 0u8, 0u8, 0u8, 0u8, 0u8, 0u8, 0u8, 1u8, 0u8, 2u8, 3u8, 4u8, 0u8]);
    lemma_turn_step(m0, seq![2u8, 0u8, 0u8, 0u8, 3u8, 0u8, 0u8, 0u8, 4u8, 1u8, 0u8, 0u8, 0u8, 0u8, 0u8, 0u8], 6, seq![0u8, 0u8, 0u8, 0u8, 2u8, 0u8, 0u8, 0u8, 3u8, 0u8, 0u8, 0u8, 4u8, 1u8, 0u8, 0u8]);
    let m1 = rotated_map(m0);
    lemma_turn_step(m1, seq![4u8, 3u8, 2u8, 0u8, 1u8, 0u8, 0u8, 0u8, 0u8, 0u8, 0u8, 0u8, 0u8, 0u8, 0u8, 0u8], 11, seq![0u8, 0u8, 0u8, 0u8, 0u8, 0u8, 0u8, 0u8, 4u8, 3u8, 2u8, 0u8, 1u8, 0u8, 0u8, 0u8]);
    let m2 = rotated_map(m1);
    lemma_turn_step(m2, seq![1u8, 4u8, 0u8, 0u8, 0u8, 3u8, 0u8, 0u8, 0u8, 2u8, 0u8, 0u8, 0u8, 0u8, 0u8, 0u8], 6, seq![0u8, 0u8, 0u8, 0u8, 1u8, 4u8, 0u8, 0u8, 0u8, 3u8, 0u8, 0u8, 0u8, 2u8, 0u8, 0u8]);
    let m3 = rotated_map(m2);
    lemma_turn_step(m3, seq![0u8, 0u8, 1u8, 0u8, 2u8, 3u8, 4u8, 0u8, 0u8, 0u8, 0u8, 0u8, 0u8, 0u8, 0u8, 0u8], 9, seq![0u8, 0u8, 0u8, 0u8, 0u8, 0u8, 0u8, 0u8, 0u8, 0u8, 1u8, 0u8, 2u8, 3u8, 4u8, 0u8]);
    let m4 = rotated_map(m3);
    assert(m4 =~= m0);
}

/// Four quarter turns give the grid of the inverse hook back.
#[verifier::spinoff_prover]
#[verifier::rlimit(30)]
proof fn lemma_four_turns_inverse_hook()
    ensures
        rotated_map(rotated_map(rotated_map(rotated_map(shape_map(TetrominoShape::InverseHook))))) == shape_map(TetrominoShape::InverseHook),
{
    let m0 = shape_map(TetrominoShape::InverseHook);
    assert(m0 =~= seq![0u8, 0u8, 0u8, 0u8, 0u8, 0u8, 0u8, 0u8, 1u8, 0u8, 0u8, 0u8, 2u8, 3u8, 4u8, 0u8]);
    lemma_turn_step(m0, seq![2u8, 1u8, 0u8, 0u8, 3u8, 0u8, 0u8, 0u8, 4u8, 0u8, 0u8, 0u8, 0u8, 0u8, 0u8, 0u8], 7, seq![0u8, 0u8, 0u8, 0u8, 2u8, 1u8, 0u8, 0u8, 3u8, 0u8, 0u8, 0u8, 4u8, 0u8, 0u8, 0u8]);
    let m1 = rotated_map(m0);
    lemma_turn_step(m1, seq![4u8, 3u8, 2u8, 0u8, 0u8, 0u8, 1u8, 0u8, 0u8, 0u8, 0u8, 0u8, 0u8, 0u8, 0u8, 0u8], 9, seq![0u8, 0u8, 0u8, 0u8, 0u8, 0u8, 0u8, 0u8, 4u8, 3u8, 2u8, 0u8, 0u8, 0u8, 1u8, 0u8]);
    let m2 = rotated_map(m1);
    lemma_turn_step(m2, seq![0u8, 4u8, 0u8, 0u8, 0u8, 3u8, 0u8, 0u8, 1u8, 2u8, 0u8, 0u8, 0u8, 0u8, 0u8, 0u8], 6, seq![0u8, 0u8, 0u8, 0u8, 0u8, 4u8, 0u8, 0u8, 0u8, 3u8, 0u8, 0u8, 1u8, 2u8, 0u8, 0u8]);
    let m3 = rotated_map(m2);
    lemma_turn_step(m3, seq![1u8, 0u8, 0u8, 0u8, 2u8, 3u8, 4u8, 0u8, 0u8, 0u8, 0u8, 0u8, 0u8, 0u8, 0u8, 0u8], 9, seq![0u8, 0u8, 0u8, 0u8, 0u8, 0u8, 0u8, 0u8, 1u8, 0u8, 0u8, 0u8, 2u8, 3u8, 4u8, 0u8]);
    let m4 = rotated_map(m3);
    assert(m4 =~= m0);
}

/// Four quarter turns give the grid of the skew back.
#[verifier::spinoff_prover]
#[verifier::rlimit(30)]
proof fn lemma_four_turns_skew()
    ensures
        rotated_map(rotated_map(rotated_map(rotated_map(shape_map(TetrominoShape::Skew))))) == shape_map(TetrominoShape::Skew),
{
    let m0 = shape_map(TetrominoShape::Skew);
    assert(m0 =~= seq![0u8, 0u8, 0u8, 0u8, 0u8, 0u8, 0u8, 0u8, 1u8, 2u8, 0u8, 0u8, 0u8, 3u8, 4u8, 0u8]);
    lemma_turn_step(m0, seq![0u8, 1u8, 0u8, 0u8, 3u8, 2u8, 0u8, 0u8, 4u8, 0u8, 0u8, 0u8, 0u8, 0u8, 0u8, 0u8], 7, seq![0u8, 0u8, 0u8, 0u8, 0u8, 1u8, 0u8, 0u8, 3u8, 2u8, 0u8, 0u8, 4u8, 0u8, 0u8, 0u8]);
    let m1 = rotated_map(m0);
    lemma_turn_step(m1, seq![4u8, 3u8, 0u8, 0u8, 0u8, 2u8, 1u8, 0u8, 0u8, 0u8, 0u8, 0u8, 0u8, 0u8, 0u8, 0u8], 9, seq![0u8, 0u8, 0u8, 0u8, 0u8, 0u8, 0u8, 0u8, 4u8, 3u8, 0u8, 0u8, 0u8, 2u8, 1u8, 0u8]);
    let m2 = rotated_map(m1);
    lemma_turn_step(m2, seq![0u8, 4u8, 0u8, 0u8, 2u8, 3u8, 0u8, 0u8, 1u8, 0u8, 0u8, 0u8, 0u8, 0u8, 0u8, 0u8], 7, seq![0u8, 0u8, 0u8, 0u8, 0u8, 4u8, 0u8, 0u8, 2u8, 3u8, 0u8, 0u8, 1u8, 0u8, 0u8, 0u8]);
    let m3 = rotated_map(m2);
    lemma_turn_step(m3, seq![1u8, 2u8, 0u8, 0u8, 0u8, 3u8, 4u8, 0u8, 0u8, 0u8, 0u8, 0u8, 0u8, 0u8, 0u8, 0u8], 9, seq![0u8, 0u8, 0u8, 0u8, 0u8, 0u8, 0u8, 0u8, 1u8, 2u8, 0u8, 0u8, 0u8, 3u8, 4u8, 0u8]);
    let m4 = rotated_map(m3);
    assert(m4 =~= m0);
}

/// Four quarter turns give the grid of the inverse skew back.
#[verifier::spinoff_prover]
#[verifier::rlimit(30)]
proof fn lemma_four_turns_inverse_skew()
    ensures
        rotated_map(rotated_map(rotated_map(rotated_map(shape_map(TetrominoShape::InverseSkew))))) == shape_map(TetrominoShape::InverseSkew),
{
    let m0 = shape_map(TetrominoShape::InverseSkew);
    assert(m0 =~= seq![0u8, 0u8, 0u8, 0u8, 0u8, 0u8, 0u8, 0u8, 0u8, 1u8, 2u8, 0u8, 3u8, 4u8, 0u8, 0u8]);
    lemma_turn_step(m0, seq![3u8, 0u8, 0u8, 0u8, 4u8, 1u8, 0u8, 0u8, 0u8, 2u8, 0u8, 0u8, 0u8, 0u8, 0u8, 0u8], 6, seq![0u8, 0u8, 0u8, 0u8, 3u8, 0u8, 0u8, 0u8, 4u8, 1u8, 0u8, 0u8, 0u8, 2u8, 0u8, 0u8]);
    let m1 = rotated_map(m0);
    lemma_turn_step(m1, seq![0u8, 4u8, 3u8, 0u8, 2u8, 1u8, 0u8, 0u8, 0u8, 0u8, 0u8, 0u8, 0u8, 0u8, 0u8, 0u8], 10, seq![0u8, 0u8, 0u8, 0u8, 0u8, 0u8, 0u8, 0u8, 0u8, 4u8, 3u8, 0u8, 2u8, 1u8, 0u8, 0u8]);
    let m2 = rotated_map(m1);
    lemma_turn_step(m2, seq![2u8, 0u8, 0u8, 0u8, 1u8, 4u8, 0u8, 0u8, 0u8, 3u8, 0u8, 0u8, 0u8, 0u8, 0u8, 0u8], 6, seq![0u8, 0u8, 0u8, 0u8, 2u8, 0u8, 0u8, 0u8, 1u8, 4u8, 0u8, 0u8, 0u8, 3u8, 0u8, 0u8]);
    let m3 = rotated_map(m2);
    lemma_turn_step(m3, seq![0u8, 1u8, 2u8, 0u8, 3u8, 4u8, 0u8, 0u8, 0u8, 0u8, 0u8, 0u8, 0u8, 0u8, 0u8, 0u8], 10, seq![0u8, 0u8, 0u8, 0u8, 0u8, 0u8, 0u8, 0u8, 0u8, 1u8, 2u8, 0u8, 3u8, 4u8, 0u8, 0u8]);
    let m4 = rotated_map(m3);
    assert(m4 =~= m0);
}

/// Four quarter turns give the grid of the stick back.
#[verifier::spinoff_prover]
#[verifier::rlimit(30)]
proof fn lemma_four_turns_stick()
    ensures
        rotated_map(rotated_map(rotated_map(rotated_map(shape_map(TetrominoShape::Stick))))) == shape_map(TetrominoShape::Stick),
{
    let m0 = shape_map(TetrominoShape::Stick);
    assert(m0 =~= seq![0u8, 0u8, 0u8, 0u8, 0u8, 0u8, 0u8, 0u8, 0u8, 0u8, 0u8, 0u8, 1u8, 2u8, 3u8, 4u8]);
    lemma_turn_step(m0, seq![1u8, 0u8, 0u8, 0u8, 2u8, 0u8, 0u8, 0u8, 3u8, 0u8, 0u8, 0u8, 4u8, 0u8, 0u8, 0u8], 3, seq![1u8, 0u8, 0u8, 0u8, 2u8, 0u8, 0u8, 0u8, 3u8, 0u8, 0u8, 0u8, 4u8, 0u8, 0u8, 0u8]);
    let m1 = rotated_map(m0);
    lemma_turn_step(m1, seq![4u8, 3u8, 2u8, 1u8, 0u8, 0u8, 0u8, 0u8, 0u8, 0u8, 0u8, 0u8, 0u8, 0u8, 0u8, 0u8], 12, seq![0u8, 0u8, 0u8, 0u8, 0u8, 0u8, 0u8, 0u8, 0u8, 0u8, 0u8, 0u8, 4u8, 3u8, 2u8, 1u8]);
    let m2 = rotated_map(m1);
    lemma_turn_step(m2, seq![4u8, 0u8, 0u8, 0u8, 3u8, 0u8, 0u8, 0u8, 2u8, 0u8, 0u8, 0u8, 1u8, 0u8, 0u8, 0u8], 3, seq![4u8, 0u8, 0u8, 0u8, 3u8, 0u8, 0u8, 0u8, 2u8, 0u8, 0u8, 0u8, 1u8, 0u8, 0u8, 0u8]);
    let m3 = rotated_map(m2);
    lemma_turn_step(m3, seq![1u8, 2u8, 3u8, 4u8, 0u8, 0u8, 0u8, 0u8, 0u8, 0u8, 0u8, 0u8, 0u8, 0u8, 0u8, 0u8], 12, seq![0u8, 0u8, 0u8, 0u8, 0u8, 0u8, 0u8, 0u8, 0u8, 0u8, 0u8, 0u8, 1u8, 2u8, 3u8, 4u8]);
    let m4 = rotated_map(m3);
    assert(m4 =~= m0);
}

/// Four quarter turns give every shape's grid back.
pub proof fn lemma_four_turns_restore_map(shape: TetrominoShape)
    ensures
        rotated_map(rotated_map(rotated_map(rotated_map(shape_map(shape))))) == shape_map(shape),
{
    match shape {
        TetrominoShape::Square => lemma_four_turns_square(),
        TetrominoShape::Arrow => lemma_four_turns_arrow(),
        TetrominoShape::Hook => lemma_four_turns_hook(),
        TetrominoShape::InverseHook => lemma_four_turns_inverse_hook(),
        TetrominoShape::Skew => lemma_four_turns_skew(),
        TetrominoShape::InverseSkew => lemma_four_turns_inverse_skew(),
        TetrominoShape::Stick => lemma_four_turns_stick(),
    }
}

} // verus!
