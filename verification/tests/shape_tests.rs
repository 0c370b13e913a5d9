use tetris::shape::{TetrominoColor, TetrominoShape};

const ALL: [TetrominoShape; 7] = [
    TetrominoShape::Square,
    TetrominoShape::Stick,
    TetrominoShape::InverseHook,
    TetrominoShape::Hook,
    TetrominoShape::InverseSkew,
    TetrominoShape::Skew,
    TetrominoShape::Arrow,
];

#[test]
fn each_shape_has_its_color() {
    assert_eq!(TetrominoShape::Arrow.to_color(), TetrominoColor::Magenta);
    assert_eq!(TetrominoShape::Square.to_color(), TetrominoColor::Yellow);
    assert_eq!(TetrominoShape::Stick.to_color(), TetrominoColor::Cyan);
    assert_eq!(TetrominoShape::InverseSkew.to_color(), TetrominoColor::Green);
    assert_eq!(TetrominoShape::Skew.to_color(), TetrominoColor::Red);
    assert_eq!(TetrominoShape::Hook.to_color(), TetrominoColor::Orange);
    assert_eq!(TetrominoShape::InverseHook.to_color(), TetrominoColor::Blue);
}

#[test]
fn colors_are_distinct() {
    for (i, a) in ALL.iter().enumerate() {
        for (j, b) in ALL.iter().enumerate() {
            if i != j {
                assert_ne!(a.to_color(), b.to_color());
            }
        }
    }
}

#[test]
fn maps_of_the_shapes() {
    assert_eq!(
        TetrominoShape::Square.to_map(),
        [0, 0, 0, 0, 0, 0, 0, 0, 1, 2, 0, 0, 3, 4, 0, 0]
    );
    assert_eq!(
        TetrominoShape::Arrow.to_map(),
        [0, 0, 0, 0, 0, 0, 0, 0, 0, 1, 0, 0, 2, 3, 4, 0]
    );
    assert_eq!(
        TetrominoShape::Hook.to_map(),
        [0, 0, 0, 0, 0, 0, 0, 0, 0, 0, 1, 0, 2, 3, 4, 0]
    );
    assert_eq!(
        TetrominoShape::InverseHook.to_map(),
        [0, 0, 0, 0, 0, 0, 0, 0, 1, 0, 0, 0, 2, 3, 4, 0]
    );
    assert_eq!(
        TetrominoShape::Skew.to_map(),
        [0, 0, 0, 0, 0, 0, 0, 0, 1, 2, 0, 0, 0, 3, 4, 0]
    );
    assert_eq!(
        TetrominoShape::InverseSkew.to_map(),
        [0, 0, 0, 0, 0, 0, 0, 0, 0, 1, 2, 0, 3, 4, 0, 0]
    );
    assert_eq!(
        TetrominoShape::Stick.to_map(),
        [0, 0, 0, 0, 0, 0, 0, 0, 0, 0, 0, 0, 1, 2, 3, 4]
    );
}

#[test]
fn every_map_rests_on_the_bottom_row() {
    for shape in ALL {
        let map = shape.to_map();
        assert!(map[12..16].iter().any(|v| *v != 0));
    }
}

#[test]
fn rotate_square_map() {
    let rotated = TetrominoShape::rotate_map(TetrominoShape::Square.to_map());
    assert_eq!(rotated, [0, 0, 0, 0, 0, 0, 0, 0, 3, 1, 0, 0, 4, 2, 0, 0]);
}

#[test]
fn rotate_arrow_map_rests_on_bottom() {
    let rotated = TetrominoShape::rotate_map(TetrominoShape::Arrow.to_map());
    assert_eq!(rotated, [0, 0, 0, 0, 2, 0, 0, 0, 3, 1, 0, 0, 4, 0, 0, 0]);
    assert!(rotated[12..16].iter().any(|v| *v != 0));
}

#[test]
fn rotate_stick_map_stands_it_upright() {
    // the turned stick already touches the bottom row: it is not moved
    let rotated = TetrominoShape::rotate_map(TetrominoShape::Stick.to_map());
    assert_eq!(rotated, [1, 0, 0, 0, 2, 0, 0, 0, 3, 0, 0, 0, 4, 0, 0, 0]);
}

#[test]
fn four_turns_give_every_map_back() {
    for shape in ALL {
        let map = shape.to_map();
        let mut turned = map;
        for _ in 0..4 {
            turned = TetrominoShape::rotate_map(turned);
            assert!(turned[12..16].iter().any(|v| *v != 0));
            let mut before: Vec<u8> = map.iter().copied().filter(|v| *v != 0).collect();
            let mut after: Vec<u8> = turned.iter().copied().filter(|v| *v != 0).collect();
            before.sort();
            after.sort();
            assert_eq!(before, after);
        }
        assert_eq!(turned, map);
    }
}

#[test]
fn rotate_empty_map() {
    assert_eq!(TetrominoShape::rotate_map([0; 16]), [0; 16]);
}
