use vstd::prelude::*;
use crate::shape::TetrominoShape;

verus! {

/// A cell of the well: column (from the left) and row (from the bottom).
#[derive(Clone, Copy, Debug, PartialEq, Eq, Structural)]
pub struct TetrisPos(pub i32, pub i32);

/// Marks a block of the falling piece: its number within the piece (1 to 4),
/// the shape it belongs to, and the number of quarter turns made so far.
#[derive(Clone, Copy, Debug, PartialEq, Eq, Structural)]
pub struct Current(pub u8, pub TetrominoShape, pub u8);

/// A block of the falling piece: where it is and which block it is.
#[derive(Clone, Copy, Debug, PartialEq, Eq, Structural)]
pub struct PieceBlock {
    pub pos: TetrisPos,
    pub current: Current,
}

/// The block numbered `idx` of shape `shape` at column `x`, row `y`, not yet turned.
pub open spec fn new_block(idx: u8, shape: TetrominoShape, x: i32, y: i32) -> PieceBlock {
    PieceBlock { pos: TetrisPos(x, y), current: Current(idx, shape, 0) }
}

/// The blocks of a new piece of `shape`, at the top of the well. A square
/// and a stick keep their shape; every other shape comes in as an arrow.
pub open spec fn spawn_blocks(shape: TetrominoShape) -> Seq<PieceBlock> {
    match shape {
        TetrominoShape::Square => seq![
            new_block(1, TetrominoShape::Square, 4, 19),
            new_block(2, TetrominoShape::Square, 5, 19),
            new_block(3, TetrominoShape::Square, 4, 18),
            new_block(4, TetrominoShape::Square, 5, 18),
        ],
        TetrominoShape::Stick => seq![
            new_block(1, TetrominoShape::Stick, 3, 19),
            new_block(2, TetrominoShape::Stick, 4, 19),
            new_block(3, TetrominoShape::Stick, 5, 19),
            new_block(4, TetrominoShape::Stick, 6, 19),
        ],
        _ => seq![
            new_block(1, TetrominoShape::Arrow, 4, 19),
            new_block(2, TetrominoShape::Arrow, 3, 18),
            new_block(3, TetrominoShape::Arrow, 4, 18),
            new_block(4, TetrominoShape::Arrow, 5, 18),
        ],
    }
}

/// Whether pieces of `shape` can be turned.
pub open spec fn can_rotate(shape: TetrominoShape) -> bool {
    shape == TetrominoShape::Arrow || shape == TetrominoShape::Stick || shape
        == TetrominoShape::Square
}

/// How far block `idx` (1 to 4) of a piece of `shape` moves, as (columns,
/// rows), when the piece is turned after `rotation` earlier turns.
pub open spec fn rotation_adjustment(shape: TetrominoShape, rotation: u8, idx: u8) -> (int, int) {
    match shape {
        TetrominoShape::Arrow => if rotation == 0 {
            if idx == 1 { (0, -1) } else if idx == 2 { (0, 1) } else if idx == 3 { (-1, 0) } else { (-2, -1) }
        } else if rotation == 1 {
            if idx == 1 { (0, 0) } else if idx == 2 { (0, 0) } else if idx == 3 { (1, 1) } else { (2, 2) }
        } else if rotation == 2 {
            if idx == 1 { (0, 0) } else if idx == 2 { (2, 0) } else if idx == 3 { (1, -1) } else { (0, -2) }
        } else {
            if idx == 1 { (0, 1) } else if idx == 2 { (-2, -1) } else if idx == 3 { (-1, 0) } else { (0, 1) }
        },
        TetrominoShape::Stick => if rotation % 2 == 0 {
            if idx == 1 { (2, 0) } else if idx == 2 { (1, -1) } else if idx == 3 { (0, -2) } else { (-1, -3) }
        } else {
            if idx == 1 { (-2, 0) } else if idx == 2 { (-1, 1) } else if idx == 3 { (0, 2) } else { (1, 3) }
        },
        _ => (0, 0),
    }
}

/// How far block `idx` of a piece of `shape` moves when the piece is turned
/// after `rotation` earlier turns.
pub fn rotation_adjustment_of(shape: TetrominoShape, rotation: u8, idx: u8) -> (adj: (i32, i32))
    requires
        can_rotate(shape),
        1 <= idx <= 4,
    ensures
        adj.0 == rotation_adjustment(shape, rotation, idx).0,
        adj.1 == rotation_adjustment(shape, rotation, idx).1,
{
    let table: [(i32, i32); 4] = match shape {
        TetrominoShape::Arrow => {
            if rotation == 0 {
                [(0, -1), (0, 1), (-1, 0), (-2, -1)]
            } else if rotation == 1 {
                [(0, 0), (0, 0), (1, 1), (2, 2)]
            } else if rotation == 2 {
                [(0, 0), (2, 0), (1, -1), (0, -2)]
            } else {
                [(0, 1), (-2, -1), (-1, 0), (0, 1)]
            }
        },
        TetrominoShape::Stick => {
            if rotation % 2 == 0 {
                [(2, 0), (1, -1), (0, -2), (-1, -3)]
            } else {
                [(-2, 0), (-1, 1), (0, 2), (1, 3)]
            }
        },
        _ => [(0, 0), (0, 0), (0, 0), (0, 0)],
    };
    table[(idx - 1) as usize]
}

impl TetrominoShape {
    /// The blocks of a new piece of this shape, at the top of the well.
    pub fn spawn_new(&self) -> (blocks: Vec<PieceBlock>)
        ensures
            blocks@ == spawn_blocks(*self),
    {
        let blocks = match self {
            TetrominoShape::Square => vec![
                PieceBlock { pos: TetrisPos(4, 19), current: Current(1, TetrominoShape::Square, 0) },
                PieceBlock { pos: TetrisPos(5, 19), current: Current(2, TetrominoShape::Square, 0) },
                PieceBlock { pos: TetrisPos(4, 18), current: Current(3, TetrominoShape::Square, 0) },
                PieceBlock { pos: TetrisPos(5, 18), current: Current(4, TetrominoShape::Square, 0) },
            ],
            TetrominoShape::Stick => vec![
                PieceBlock { pos: TetrisPos(3, 19), current: Current(1, TetrominoShape::Stick, 0) },
                PieceBlock { pos: TetrisPos(4, 19), current: Current(2, TetrominoShape::Stick, 0) },
                PieceBlock { pos: TetrisPos(5, 19), current: Current(3, TetrominoShape::Stick, 0) },
                PieceBlock { pos: TetrisPos(6, 19), current: Current(4, TetrominoShape::Stick, 0) },
            ],
            _ => vec![
                PieceBlock { pos: TetrisPos(4, 19), current: Current(1, TetrominoShape::Arrow, 0) },
                PieceBlock { pos: TetrisPos(3, 18), current: Current(2, TetrominoShape::Arrow, 0) },
                PieceBlock { pos: TetrisPos(4, 18), current: Current(3, TetrominoShape::Arrow, 0) },
                PieceBlock { pos: TetrisPos(5, 18), current: Current(4, TetrominoShape::Arrow, 0) },
            ],
        };
        assert(blocks@ =~= spawn_blocks(*self));
        blocks
    }
}

/// Turning a piece four times brings every block back where it was: for
/// each shape that can be turned and each block, the four moves of a full
/// turn add up to nothing.
pub proof fn lemma_full_turn_returns(shape: TetrominoShape, idx: u8, rotation: u8)
    requires
        can_rotate(shape),
        1 <= idx <= 4,
        rotation < 4,
    ensures
        rotation_adjustment(shape, rotation, idx).0 + rotation_adjustment(shape, ((rotation + 1) % 4) as u8, idx).0
            + rotation_adjustment(shape, ((rotation + 2) % 4) as u8, idx).0 + rotation_adjustment(shape, ((rotation + 3) % 4) as u8, idx).0 == 0,
        rotation_adjustment(shape, rotation, idx).1 + rotation_adjustment(shape, ((rotation + 1) % 4) as u8, idx).1
            + rotation_adjustment(shape, ((rotation + 2) % 4) as u8, idx).1 + rotation_adjustment(shape, ((rotation + 3) % 4) as u8, idx).1 == 0,
{
}

/// Every shape but the square and the stick comes in as an arrow: a new
/// piece of such a shape is the new arrow, block for block.
pub proof fn lemma_other_shapes_spawn_as_arrow(shape: TetrominoShape)
    requires
        shape != TetrominoShape::Square,
        shape != TetrominoShape::Stick,
    ensures
        spawn_blocks(shape) == spawn_blocks(TetrominoShape::Arrow),
{
}

/// A new piece comes in at the top of a well of 20 rows and 10 columns: its
/// four blocks, numbered 1 to 4 and not yet turned, lie on four different
/// cells of the two top rows (18 and 19), at least one of them in the top
/// row, in the middle columns 3 to 6. A square and a stick keep their
/// shape; every other shape comes in as an arrow.
pub proof fn lemma_spawn_at_top(shape: TetrominoShape)
    ensures
        spawn_blocks(shape).len() == 4,
        forall|i: int|
            0 <= i < 4 ==> {
                let b = #[trigger] spawn_blocks(shape)[i];
                &&& b.current.0 == i + 1
                &&& b.current.1 == (if shape == TetrominoShape::Square || shape
                    == TetrominoShape::Stick {
                    shape
                } else {
                    TetrominoShape::Arrow
                })
                &&& b.current.2 == 0
                &&& 18 <= b.pos.1 <= 19
                &&& 3 <= b.pos.0 <= 6
            },
        forall|j: int, k: int|
            0 <= j < k < 4 ==> #[trigger] spawn_blocks(shape)[j].pos != #[trigger] spawn_blocks(
                shape,
            )[k].pos,
        exists|i: int| 0 <= i < 4 && #[trigger] spawn_blocks(shape)[i].pos.1 == 19,
{
    assert(spawn_blocks(shape)[0].pos.1 == 19);
}

} // verus!
