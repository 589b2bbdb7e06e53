use hangman::layout::{char_grid_positions, GridPosition};

#[test]
fn grid_for_the_logical_window() {
    // 1000 x 1000: scaled font 52, column spacing 67, row spacing 104,
    // usable width 800, so 11 characters per row and three rows.
    let positions = char_grid_positions(1000, 1000, 26);
    assert_eq!(positions.len(), 26);
    // full first row starts at the left margin
    assert_eq!(positions[0], GridPosition { x: 100, y: 625 });
    assert_eq!(positions[1], GridPosition { x: 167, y: 625 });
    assert_eq!(positions[10], GridPosition { x: 770, y: 625 });
    // second full row, one row spacing lower
    assert_eq!(positions[11], GridPosition { x: 100, y: 729 });
    // the last row holds the remaining 4 characters, shifted right by
    // half of the seven unused columns to stay centered
    assert_eq!(positions[22], GridPosition { x: 334, y: 833 });
    assert_eq!(positions[25], GridPosition { x: 535, y: 833 });
}

#[test]
fn every_position_stays_inside_the_window() {
    for (w, h) in [(1000u32, 1000u32), (500, 300), (300, 500), (4000, 250), (250, 4000)] {
        let positions = char_grid_positions(w, h, 26);
        assert_eq!(positions.len(), 26);
        for p in &positions {
            assert!(u64::from(w) / 10 <= p.x, "x {} below margin in {}x{}", p.x, w, h);
            assert!(p.x <= u64::from(w) * 9 / 10, "x {} beyond {}x{}", p.x, w, h);
            assert!(p.y <= u64::from(h), "y {} beyond {}x{}", p.y, w, h);
        }
    }
}

#[test]
fn no_two_characters_share_a_position() {
    let positions = char_grid_positions(640, 480, 26);
    for i in 0..positions.len() {
        for j in 0..i {
            assert!(positions[i] != positions[j], "{} and {} collide", i, j);
        }
    }
}

#[test]
fn short_last_row_is_centered() {
    // 500 x 300: scaled font 15, column spacing 19, usable width 400,
    // 21 characters per row; the last row holds 5.
    let positions = char_grid_positions(500, 300, 26);
    let left_gap = positions[21].x - 50;
    let full_row_end = 20 * 19 + 50;
    let right_gap = full_row_end - positions[25].x;
    assert_eq!(left_gap, 152);
    assert_eq!(right_gap, 152);
}

#[test]
fn identical_inputs_give_identical_output() {
    let first = char_grid_positions(777, 321, 26);
    let second = char_grid_positions(777, 321, 26);
    assert_eq!(first, second);
}

#[test]
fn tiny_window_collapses_to_one_column() {
    // 10 x 10: the scaled font size is zero, so the column spacing is
    // zero and the layout clamps to one character per row.
    let positions = char_grid_positions(10, 10, 26);
    assert_eq!(positions.len(), 26);
    for p in &positions {
        assert_eq!(*p, GridPosition { x: 1, y: 6 });
    }
}

#[test]
fn no_characters_give_no_positions() {
    assert_eq!(char_grid_positions(1000, 1000, 0).len(), 0);
}
