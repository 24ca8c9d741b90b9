use gomoku::{Board, Cell, Player, Point};

#[test]
fn place_get_clear() {
    let mut b = Board::new(15);
    let p = Point::new(7, 7);
    assert!(b.is_empty(p));
    b.place(Player::Black, p);
    assert_eq!(b.get(p), Cell::Stone(Player::Black));
    assert_eq!(b.stone_count(), 1);
    // Overwrite with the other color.
    b.place(Player::White, p);
    assert_eq!(b.get(p), Cell::Stone(Player::White));
    assert_eq!(b.stone_count(), 1);
    b.clear(p);
    assert!(b.is_empty(p));
    assert_eq!(b.stone_count(), 0);
}

#[test]
fn high_index_uses_upper_words() {
    // The last cell of a 19x19 board.
    let mut b = Board::new(19);
    let corner = Point::new(18, 18);
    b.place(Player::White, corner);
    assert_eq!(b.get(corner), Cell::Stone(Player::White));
    assert!(b.is_empty(Point::new(0, 0)));
}

#[test]
fn bounds_and_center() {
    let b = Board::new(15);
    assert!(b.in_bounds(Point::new(14, 14)));
    assert!(!b.in_bounds(Point::new(15, 0)));
    assert_eq!(b.center(), Point::new(7, 7));
    assert!(b.get(Point::new(99, 99)).is_empty());
}

#[test]
fn points_cover_whole_board() {
    let b = Board::new(15);
    assert_eq!(b.points().len(), 225);
}

#[test]
fn points_run_row_major_from_bottom_left() {
    let b = Board::new(5);
    let pts = b.points();
    assert_eq!(pts[0], Point::new(0, 0));
    assert_eq!(pts[1], Point::new(1, 0));
    assert_eq!(pts[5], Point::new(0, 1));
    assert_eq!(pts[24], Point::new(4, 4));
}

#[test]
fn clear_off_board_is_a_no_op() {
    let mut b = Board::new(5);
    b.place(Player::Black, Point::new(2, 2));
    b.clear(Point::new(9, 9));
    assert_eq!(b.stone_count(), 1);
    assert_eq!(b.get(Point::new(2, 2)), Cell::Stone(Player::Black));
}

#[test]
fn full_board_is_detected() {
    let mut b = Board::new(5);
    for p in b.points() {
        assert!(!b.is_full());
        b.place(Player::White, p);
    }
    assert!(b.is_full());
    assert_eq!(b.stone_count(), 25);
}

#[test]
fn center_rounds_down_on_even_sizes() {
    assert_eq!(Board::new(6).center(), Point::new(3, 3));
    assert_eq!(Board::new(19).center(), Point::new(9, 9));
    assert_eq!(Board::new(6).size(), 6);
}

#[test]
fn duplicate_is_equal() {
    let mut b = Board::new(9);
    b.place(Player::Black, Point::new(1, 2));
    let c = b.duplicate();
    assert_eq!(c, b);
}

#[test]
fn board_renders_rows_top_first() {
    let mut b = Board::new(5);
    b.place(Player::Black, Point::new(0, 0));
    b.place(Player::White, Point::new(4, 4));
    let expected = " 5 . . . . O \n 4 . . . . . \n 3 . . . . . \n 2 . . . . . \n 1 X . . . . \n   a b c d e ";
    assert_eq!(b.to_string(), expected);
}

#[test]
fn board_labels_two_digit_rows_without_padding() {
    let b = Board::new(10);
    let text = b.to_string();
    assert!(text.starts_with("10 . . . . . . . . . . \n 9 "));
    assert!(text.ends_with("   a b c d e f g h i j "));
}
