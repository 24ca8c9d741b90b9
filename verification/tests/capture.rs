use gomoku::rules::capture::resolve;
use gomoku::{Board, Cell, Player, Point};

#[test]
fn flanking_move_captures_the_pair() {
    let mut b = Board::new(15);
    // White pair at (5,7),(6,7) flanked by Black at (4,7); Black plays (7,7).
    b.place(Player::Black, Point::new(4, 7));
    b.place(Player::White, Point::new(5, 7));
    b.place(Player::White, Point::new(6, 7));
    b.place(Player::Black, Point::new(7, 7));
    let taken = resolve(&mut b, Point::new(7, 7), Player::Black);
    assert_eq!(taken.len(), 2);
    assert!(b.is_empty(Point::new(5, 7)));
    assert!(b.is_empty(Point::new(6, 7)));
}

#[test]
fn lone_stone_or_triple_is_not_captured() {
    // A single enemy stone (not a pair) is safe.
    let mut b = Board::new(15);
    b.place(Player::Black, Point::new(4, 7));
    b.place(Player::White, Point::new(5, 7));
    b.place(Player::Black, Point::new(6, 7));
    assert!(resolve(&mut b, Point::new(6, 7), Player::Black).is_empty());

    // Three enemy stones in a row are safe.
    let mut b = Board::new(15);
    b.place(Player::Black, Point::new(3, 7));
    for x in 4..7 {
        b.place(Player::White, Point::new(x, 7));
    }
    b.place(Player::Black, Point::new(7, 7));
    assert!(resolve(&mut b, Point::new(7, 7), Player::Black).is_empty());
}

#[test]
fn placing_into_a_bracket_is_safe() {
    // Black plays between two White stones - Black is not captured.
    let mut b = Board::new(15);
    b.place(Player::White, Point::new(5, 7));
    b.place(Player::White, Point::new(8, 7));
    b.place(Player::Black, Point::new(6, 7));
    b.place(Player::Black, Point::new(7, 7));
    // Resolving Black's move only ever removes White stones.
    assert!(resolve(&mut b, Point::new(7, 7), Player::Black).is_empty());
    assert_eq!(b.get(Point::new(6, 7)), Cell::Stone(Player::Black));
}

#[test]
fn one_move_can_capture_in_several_directions() {
    let mut b = Board::new(15);
    // Pairs to the east and to the north of (7,7), each bracketed by Black.
    b.place(Player::White, Point::new(8, 7));
    b.place(Player::White, Point::new(9, 7));
    b.place(Player::Black, Point::new(10, 7));
    b.place(Player::White, Point::new(7, 8));
    b.place(Player::White, Point::new(7, 9));
    b.place(Player::Black, Point::new(7, 10));
    b.place(Player::Black, Point::new(7, 7));
    let taken = resolve(&mut b, Point::new(7, 7), Player::Black);
    assert_eq!(taken.len(), 4);
    assert_eq!(b.stone_count(), 3);
    for p in &taken {
        assert!(b.is_empty(*p));
    }
}

#[test]
fn capture_at_the_edge_is_bounded_by_the_board() {
    let mut b = Board::new(15);
    // A White pair against the edge cannot be bracketed past the edge.
    b.place(Player::White, Point::new(0, 0));
    b.place(Player::White, Point::new(1, 0));
    b.place(Player::Black, Point::new(2, 0));
    assert!(resolve(&mut b, Point::new(2, 0), Player::Black).is_empty());
    assert_eq!(b.stone_count(), 3);
}
