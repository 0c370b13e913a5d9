use tetris::board::GameState;
use tetris::piece::{rotation_adjustment_of, Current, PieceBlock, TetrisPos};
use tetris::rotation::rotate_current;
use tetris::rules::{controls, gravity_system, ControlInput, ControlOutcome};
use tetris::ruleset::TetrisRuleset;
use tetris::shape::TetrominoShape;
use tetris::spawn::spawn_new_piece;

fn positions(blocks: &[PieceBlock]) -> Vec<TetrisPos> {
    blocks.iter().map(|b| b.pos).collect()
}

#[test]
fn default_ruleset() {
    let ruleset = TetrisRuleset::default();
    assert_eq!(ruleset.well_size_rows, 20);
    assert_eq!(ruleset.well_size_cols, 10);
    assert_eq!(ruleset.initial_speed_ms, 200);
    let custom = TetrisRuleset::new(30, 12, 150);
    assert_eq!(custom, TetrisRuleset { well_size_rows: 30, well_size_cols: 12, initial_speed_ms: 150 });
}

#[test]
fn spawn_positions() {
    assert_eq!(
        positions(&TetrominoShape::Square.spawn_new()),
        vec![TetrisPos(4, 19), TetrisPos(5, 19), TetrisPos(4, 18), TetrisPos(5, 18)]
    );
    assert_eq!(
        positions(&TetrominoShape::Stick.spawn_new()),
        vec![TetrisPos(3, 19), TetrisPos(4, 19), TetrisPos(5, 19), TetrisPos(6, 19)]
    );
    let hook = TetrominoShape::Hook.spawn_new();
    assert_eq!(
        positions(&hook),
        vec![TetrisPos(4, 19), TetrisPos(3, 18), TetrisPos(4, 18), TetrisPos(5, 18)]
    );
    // other shapes come in as arrows
    assert!(hook.iter().all(|b| b.current.1 == TetrominoShape::Arrow));
    let numbers: Vec<u8> = hook.iter().map(|b| b.current.0).collect();
    assert_eq!(numbers, vec![1, 2, 3, 4]);
    assert!(hook.iter().all(|b| b.current.2 == 0));
}

#[test]
fn spawned_piece_is_arrow_stick_or_square() {
    for _ in 0..50 {
        let blocks = spawn_new_piece();
        assert_eq!(blocks.len(), 4);
        let shape = blocks[0].current.1;
        assert!(matches!(
            shape,
            TetrominoShape::Arrow | TetrominoShape::Stick | TetrominoShape::Square
        ));
        assert_eq!(blocks, shape.spawn_new());
    }
}

#[test]
fn gravity_moves_piece_down() {
    let mut state = GameState::new(20, 10);
    let mut piece = positions(&TetrominoShape::Square.spawn_new());
    let placed = gravity_system(&mut state, &mut piece);
    assert!(!placed);
    assert_eq!(
        piece,
        vec![TetrisPos(4, 18), TetrisPos(5, 18), TetrisPos(4, 17), TetrisPos(5, 17)]
    );
}

#[test]
fn gravity_places_piece_on_floor() {
    let mut state = GameState::new(20, 10);
    let mut piece = vec![TetrisPos(4, 1), TetrisPos(4, 0)];
    let placed = gravity_system(&mut state, &mut piece);
    assert!(placed);
    assert_eq!(piece, vec![TetrisPos(4, 1), TetrisPos(4, 0)]);
    assert!(state.colliding(TetrisPos(4, 1)));
    assert!(state.colliding(TetrisPos(4, 0)));
}

#[test]
fn gravity_places_piece_on_blocks() {
    let mut state = GameState::new(20, 10);
    state.place_block(TetrisPos(6, 4));
    let mut piece = vec![TetrisPos(5, 5), TetrisPos(6, 5)];
    assert!(gravity_system(&mut state, &mut piece));
    assert!(state.colliding(TetrisPos(5, 5)));
    assert!(state.colliding(TetrisPos(6, 5)));
    assert!(!state.colliding(TetrisPos(5, 4)));
}

#[test]
fn controls_move_left_and_right() {
    let ruleset = TetrisRuleset::default();
    let state = GameState::new(20, 10);
    let mut piece = vec![TetrisPos(4, 5), TetrisPos(5, 5)];
    assert_eq!(controls(ControlInput::MoveLeft, &ruleset, &state, &mut piece), ControlOutcome::Moved);
    assert_eq!(piece, vec![TetrisPos(3, 5), TetrisPos(4, 5)]);
    assert_eq!(controls(ControlInput::MoveRight, &ruleset, &state, &mut piece), ControlOutcome::Moved);
    assert_eq!(controls(ControlInput::MoveRight, &ruleset, &state, &mut piece), ControlOutcome::Moved);
    assert_eq!(piece, vec![TetrisPos(5, 5), TetrisPos(6, 5)]);
}

#[test]
fn controls_stop_at_walls() {
    let ruleset = TetrisRuleset::default();
    let state = GameState::new(20, 10);
    let mut left = vec![TetrisPos(0, 5), TetrisPos(1, 5)];
    assert_eq!(controls(ControlInput::MoveLeft, &ruleset, &state, &mut left), ControlOutcome::Stayed);
    assert_eq!(left, vec![TetrisPos(0, 5), TetrisPos(1, 5)]);
    let mut right = vec![TetrisPos(8, 5), TetrisPos(9, 5)];
    assert_eq!(controls(ControlInput::MoveRight, &ruleset, &state, &mut right), ControlOutcome::Stayed);
    assert_eq!(right, vec![TetrisPos(8, 5), TetrisPos(9, 5)]);
}

#[test]
fn controls_stop_at_blocks() {
    let ruleset = TetrisRuleset::default();
    let mut state = GameState::new(20, 10);
    state.place_block(TetrisPos(3, 5));
    state.place_block(TetrisPos(7, 6));
    let mut piece = vec![TetrisPos(4, 5), TetrisPos(6, 6)];
    assert_eq!(controls(ControlInput::MoveLeft, &ruleset, &state, &mut piece), ControlOutcome::Stayed);
    assert_eq!(controls(ControlInput::MoveRight, &ruleset, &state, &mut piece), ControlOutcome::Stayed);
    assert_eq!(piece, vec![TetrisPos(4, 5), TetrisPos(6, 6)]);
}

#[test]
fn controls_rotate_and_idle() {
    let ruleset = TetrisRuleset::default();
    let state = GameState::new(20, 10);
    let mut piece = vec![TetrisPos(4, 5)];
    assert_eq!(
        controls(ControlInput::Rotate, &ruleset, &state, &mut piece),
        ControlOutcome::RotationRequested
    );
    assert_eq!(controls(ControlInput::Idle, &ruleset, &state, &mut piece), ControlOutcome::Stayed);
    assert_eq!(piece, vec![TetrisPos(4, 5)]);
}

#[test]
fn rotation_table() {
    assert_eq!(rotation_adjustment_of(TetrominoShape::Arrow, 0, 4), (-2, -1));
    assert_eq!(rotation_adjustment_of(TetrominoShape::Arrow, 2, 2), (2, 0));
    assert_eq!(rotation_adjustment_of(TetrominoShape::Stick, 1, 4), (1, 3));
    assert_eq!(rotation_adjustment_of(TetrominoShape::Stick, 2, 1), (2, 0));
    assert_eq!(rotation_adjustment_of(TetrominoShape::Square, 3, 3), (0, 0));
}

fn block(idx: u8, shape: TetrominoShape, rotation: u8, x: i32, y: i32) -> PieceBlock {
    PieceBlock { pos: TetrisPos(x, y), current: Current(idx, shape, rotation) }
}

#[test]
fn rotate_arrow_once() {
    let ruleset = TetrisRuleset::default();
    let mut blocks = TetrominoShape::Arrow.spawn_new();
    for b in blocks.iter_mut() {
        b.pos.1 -= 10;
    }
    assert!(rotate_current(&ruleset, &mut blocks));
    assert_eq!(
        blocks,
        vec![
            block(1, TetrominoShape::Arrow, 1, 4, 8),
            block(2, TetrominoShape::Arrow, 1, 3, 9),
            block(3, TetrominoShape::Arrow, 1, 3, 8),
            block(4, TetrominoShape::Arrow, 1, 3, 7),
        ]
    );
}

#[test]
fn four_rotations_return_the_piece() {
    let ruleset = TetrisRuleset::default();
    for shape in [TetrominoShape::Arrow, TetrominoShape::Stick, TetrominoShape::Square] {
        let mut blocks = shape.spawn_new();
        for b in blocks.iter_mut() {
            b.pos.1 -= 10;
        }
        let start = blocks.clone();
        for _ in 0..4 {
            assert!(rotate_current(&ruleset, &mut blocks));
        }
        assert_eq!(blocks, start);
    }
}

#[test]
fn square_rotation_keeps_positions() {
    let ruleset = TetrisRuleset::default();
    let mut blocks = TetrominoShape::Square.spawn_new();
    let before = positions(&blocks);
    assert!(rotate_current(&ruleset, &mut blocks));
    assert_eq!(positions(&blocks), before);
    assert!(blocks.iter().all(|b| b.current.2 == 1));
}

#[test]
fn rotation_leaving_the_well_is_refused() {
    let ruleset = TetrisRuleset::default();
    // at the right wall, the first block of a stick would move two columns
    // to the right, out of the well
    let mut at_wall = vec![
        block(1, TetrominoShape::Stick, 0, 8, 5),
        block(2, TetrominoShape::Stick, 0, 7, 5),
        block(3, TetrominoShape::Stick, 0, 8, 5),
        block(4, TetrominoShape::Stick, 0, 9, 5),
    ];
    let before = at_wall.clone();
    assert!(!rotate_current(&ruleset, &mut at_wall));
    assert_eq!(at_wall, before);

    // on the bottom row, its third block would move below the well
    let mut low = vec![
        block(1, TetrominoShape::Stick, 0, 3, 1),
        block(2, TetrominoShape::Stick, 0, 4, 1),
        block(3, TetrominoShape::Stick, 0, 5, 1),
        block(4, TetrominoShape::Stick, 0, 6, 1),
    ];
    let low_before = low.clone();
    assert!(!rotate_current(&ruleset, &mut low));
    assert_eq!(low, low_before);
}

#[test]
fn stick_turns_upright() {
    let ruleset = TetrisRuleset::default();
    let mut blocks = TetrominoShape::Stick.spawn_new();
    for b in blocks.iter_mut() {
        b.pos.1 -= 10;
    }
    assert!(rotate_current(&ruleset, &mut blocks));
    assert_eq!(
        positions(&blocks),
        vec![TetrisPos(5, 9), TetrisPos(5, 8), TetrisPos(5, 7), TetrisPos(5, 6)]
    );
}

#[test]
fn each_shape_returns_after_its_cycle() {
    let ruleset = TetrisRuleset::default();
    for (shape, cycle) in [
        (TetrominoShape::Arrow, 4u8),
        (TetrominoShape::Stick, 2),
        (TetrominoShape::Square, 1),
    ] {
        let mut blocks = shape.spawn_new();
        for b in blocks.iter_mut() {
            b.pos.1 -= 10;
        }
        let start = blocks.clone();
        for _ in 0..cycle {
            assert!(rotate_current(&ruleset, &mut blocks));
        }
        assert_eq!(positions(&blocks), positions(&start));
        assert!(blocks.iter().all(|b| b.current.2 == cycle % 4));
    }
}

#[test]
fn spawn_choices_are_arrow_stick_square() {
    assert_eq!(
        tetris::spawn::spawn_choices(),
        [TetrominoShape::Arrow, TetrominoShape::Stick, TetrominoShape::Square]
    );
}
