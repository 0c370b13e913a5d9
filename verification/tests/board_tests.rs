use tetris::board::{clear_lines, saturating_sub_i32, GameState, TileFate, POINTS_PER_CLEAR};
use tetris::piece::TetrisPos;

fn fill_row(state: &mut GameState, y: i32, cols: i32) {
    for x in 0..cols {
        state.place_block(TetrisPos(x, y));
    }
}

fn row(state: &GameState, y: i32, cols: i32) -> Vec<bool> {
    (0..cols).map(|x| state.colliding(TetrisPos(x, y))).collect()
}

#[test]
fn new_well_is_empty() {
    let state = GameState::new(20, 10);
    assert_eq!(state.points(), 0);
    assert!(state.full_lines().is_empty());
    for y in 0..20 {
        assert_eq!(row(&state, y, 10), vec![false; 10]);
    }
}

#[test]
fn placed_block_collides() {
    let mut state = GameState::new(20, 10);
    state.place_block(TetrisPos(3, 4));
    assert!(state.colliding(TetrisPos(3, 4)));
    assert!(!state.colliding(TetrisPos(4, 3)));
    assert!(!state.colliding(TetrisPos(2, 4)));
}

#[test]
fn should_rest_on_floor_and_on_blocks() {
    let mut state = GameState::new(20, 10);
    assert!(state.should_rest(&TetrisPos(5, 0)));
    assert!(!state.should_rest(&TetrisPos(5, 1)));
    state.place_block(TetrisPos(5, 0));
    assert!(state.should_rest(&TetrisPos(5, 1)));
    assert!(!state.should_rest(&TetrisPos(6, 1)));
}

#[test]
fn full_lines_lists_full_rows_bottom_up() {
    let mut state = GameState::new(6, 3);
    fill_row(&mut state, 4, 3);
    fill_row(&mut state, 1, 3);
    state.place_block(TetrisPos(0, 2));
    state.place_block(TetrisPos(1, 2));
    assert_eq!(state.full_lines(), vec![1, 4]);
}

#[test]
fn clear_lines_moves_rows_down_and_copies_top_row() {
    // rows from the bottom: full, [1,0], [0,1]
    let mut state = GameState::new(3, 2);
    fill_row(&mut state, 0, 2);
    state.place_block(TetrisPos(0, 1));
    state.place_block(TetrisPos(1, 2));
    state.clear_lines();
    assert_eq!(row(&state, 0, 2), vec![true, false]);
    assert_eq!(row(&state, 1, 2), vec![false, true]);
    assert_eq!(row(&state, 2, 2), vec![false, true]);
}

#[test]
fn clear_lines_with_full_top_row() {
    // rows from the bottom: full, [1,0], full
    let mut state = GameState::new(3, 2);
    fill_row(&mut state, 0, 2);
    state.place_block(TetrisPos(0, 1));
    fill_row(&mut state, 2, 2);
    state.clear_lines();
    assert_eq!(row(&state, 0, 2), vec![true, false]);
    assert_eq!(row(&state, 1, 2), vec![true, true]);
    assert_eq!(row(&state, 2, 2), vec![true, true]);
}

#[test]
fn clear_lines_without_full_rows_changes_nothing() {
    let mut state = GameState::new(4, 3);
    state.place_block(TetrisPos(0, 0));
    state.place_block(TetrisPos(2, 1));
    state.clear_lines();
    assert_eq!(row(&state, 0, 3), vec![true, false, false]);
    assert_eq!(row(&state, 1, 3), vec![false, false, true]);
    assert_eq!(row(&state, 2, 3), vec![false, false, false]);
}

#[test]
fn clear_lines_scores_and_moves_tiles() {
    let mut state = GameState::new(6, 3);
    fill_row(&mut state, 0, 3);
    fill_row(&mut state, 2, 3);
    state.place_block(TetrisPos(1, 1));
    state.place_block(TetrisPos(2, 3));
    let tiles = vec![
        TetrisPos(0, 0),
        TetrisPos(1, 1),
        TetrisPos(1, 2),
        TetrisPos(2, 3),
    ];
    let fates = clear_lines(&mut state, &tiles);
    assert_eq!(state.points(), 2 * POINTS_PER_CLEAR);
    assert_eq!(
        fates,
        vec![
            TileFate::Despawn,
            TileFate::Stay(TetrisPos(1, 0)),
            TileFate::Despawn,
            TileFate::Stay(TetrisPos(2, 1)),
        ]
    );
    // each kept tile sits on the row that now shows its old row
    assert!(state.colliding(TetrisPos(1, 0)));
    assert!(state.colliding(TetrisPos(2, 1)));
    assert!(state.full_lines().is_empty());
}

#[test]
fn clear_lines_scores_nothing_without_full_rows() {
    let mut state = GameState::new(4, 2);
    state.place_block(TetrisPos(0, 0));
    let fates = clear_lines(&mut state, &vec![TetrisPos(0, 0)]);
    assert_eq!(state.points(), 0);
    assert_eq!(fates, vec![TileFate::Stay(TetrisPos(0, 0))]);
}

#[test]
fn points_add_up_over_clears() {
    let mut state = GameState::new(4, 2);
    fill_row(&mut state, 0, 2);
    clear_lines(&mut state, &vec![]);
    fill_row(&mut state, 0, 2);
    fill_row(&mut state, 1, 2);
    clear_lines(&mut state, &vec![]);
    assert_eq!(state.points(), 300);
}

#[test]
fn saturating_sub_holds_to_range() {
    assert_eq!(saturating_sub_i32(5, 2), 3);
    assert_eq!(saturating_sub_i32(i32::MIN, 1), i32::MIN);
    assert_eq!(saturating_sub_i32(i32::MAX, -1), i32::MAX);
    assert_eq!(saturating_sub_i32(0, 1), -1);
}
