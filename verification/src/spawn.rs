use vstd::prelude::*;
use rand::seq::IndexedRandom;
use crate::piece::{can_rotate, spawn_blocks, PieceBlock};
use crate::shape::TetrominoShape;

verus! {

/// The shapes new pieces are drawn from, in the order they are offered to
/// the random draw.
pub open spec fn spawn_shapes() -> Seq<TetrominoShape> {
    seq![TetrominoShape::Arrow, TetrominoShape::Stick, TetrominoShape::Square]
}

/// The shapes new pieces are drawn from.
pub fn spawn_choices() -> (choices: [TetrominoShape; 3])
    ensures
        choices@ == spawn_shapes(),
{
    let choices: [TetrominoShape; 3] = [
        TetrominoShape::Arrow,
        TetrominoShape::Stick,
        TetrominoShape::Square,
    ];
    assert(choices@ =~= spawn_shapes());
    choices
}

/// Calls `rand::rng` for the thread's generator, then
/// `rand::seq::IndexedRandom::sample` on `choices` for one element, and
/// copies that element. Claims only that it is one of `choices`: which one
/// is left to chance and is not stated.
#[verifier::external_body]
fn sample_one(choices: &[TetrominoShape]) -> (picked: TetrominoShape)
    requires
        choices@.len() > 0,
    ensures
        choices@.contains(picked),
{
    let mut prng = rand::rng();
    *choices.sample(&mut prng, 1).next().unwrap()
}

/// The blocks of a new piece, of a shape drawn at random among
/// `spawn_shapes()` (the arrow, the stick and the square), at the top of the
/// well.
pub fn spawn_new_piece() -> (blocks: Vec<PieceBlock>)
    ensures
        exists|shape: TetrominoShape| #[trigger] spawn_shapes().contains(shape) && blocks@
            == spawn_blocks(shape),
{
    let choices = spawn_choices();
    let sampled = sample_one(&choices);
    sampled.spawn_new()
}

/// Every new piece can be turned: its blocks are numbered 1 to 4, each
/// number once, of a shape that can be turned, not yet turned, and they lie
/// inside a well of 20 rows and 10 columns.
pub proof fn lemma_spawned_piece_rotatable(shape: TetrominoShape)
    ensures
        spawn_blocks(shape).len() == 4,
        forall|i: int|
            0 <= i < 4 ==> {
                let b = #[trigger] spawn_blocks(shape)[i];
                &&& b.current.0 == i + 1
                &&& can_rotate(b.current.1)
                &&& b.current.2 == 0
                &&& 0 <= b.pos.0 < 10
                &&& 0 <= b.pos.1 < 20
            },
{
}

} // verus!
