use gomoku::rules::renju::forbidden;
use gomoku::{Board, ForbiddenKind, Game, MoveError, Player, Point, RuleSet, Status};

/// Place Black stones at the given `(x, y)` points.
fn black_board(stones: &[(u8, u8)]) -> Board {
    let mut b = Board::new(15);
    for &(x, y) in stones {
        b.place(Player::Black, Point::new(x, y));
    }
    b
}

#[test]
fn overline_is_forbidden() {
    // Black at x = 4,5,6,7,9 on row 7; playing x = 8 makes six in a row.
    let b = black_board(&[(4, 7), (5, 7), (6, 7), (7, 7), (9, 7)]);
    assert_eq!(
        forbidden(&b, Point::new(8, 7)),
        Some(ForbiddenKind::Overline)
    );
}

#[test]
fn five_is_allowed_even_if_it_looks_forbidden() {
    // Exactly five, always legal regardless of other shapes.
    let b = black_board(&[(4, 7), (5, 7), (6, 7), (7, 7)]);
    assert_eq!(forbidden(&b, Point::new(8, 7)), None);
    assert_eq!(forbidden(&b, Point::new(3, 7)), None);
}

#[test]
fn double_four_is_forbidden() {
    // Two gapped fours crossing at (7,7): playing it yields X X X _ X both
    // horizontally and vertically (a four each), without making a five.
    let b = black_board(&[
        (3, 7),
        (4, 7),
        (5, 7), // horizontal: X X X _ (7,7) with gap at (6,7)
        (7, 3),
        (7, 4),
        (7, 5), // vertical:   X X X _ (7,7) with gap at (7,6)
    ]);
    assert_eq!(
        forbidden(&b, Point::new(7, 7)),
        Some(ForbiddenKind::DoubleFour)
    );
}

#[test]
fn double_three_is_forbidden() {
    // Two open threes meeting at (7,7): horizontal _ X X _ and vertical
    // _ X X _, completed into a 3-3 fork by playing (7,7).
    let b = black_board(&[(5, 7), (6, 7), (7, 5), (7, 6)]);
    assert_eq!(
        forbidden(&b, Point::new(7, 7)),
        Some(ForbiddenKind::DoubleThree)
    );
}

#[test]
fn single_three_is_allowed() {
    let b = black_board(&[(5, 7), (6, 7)]);
    assert_eq!(forbidden(&b, Point::new(7, 7)), None);
}

#[test]
fn single_four_is_allowed() {
    let b = black_board(&[(3, 7), (4, 7), (5, 7), (6, 7)]);
    // Extending to a straight/open four is fine (it is a winning threat).
    assert_eq!(forbidden(&b, Point::new(2, 7)), None);
}

#[test]
fn overline_with_move_at_run_end_is_forbidden() {
    // The move caps a six-in-a-row from its end.
    let b = black_board(&[(3, 7), (4, 7), (5, 7), (6, 7), (7, 7)]);
    assert_eq!(
        forbidden(&b, Point::new(8, 7)),
        Some(ForbiddenKind::Overline)
    );
}

#[test]
fn move_far_from_all_stones_is_allowed() {
    // With no Black stone anywhere near the move, no forbidden shape is
    // possible.
    let b = black_board(&[(2, 2), (2, 3)]);
    assert_eq!(forbidden(&b, Point::new(12, 12)), None);
}

#[test]
fn forbidden_leaves_the_board_untouched() {
    let b = black_board(&[(5, 7), (6, 7), (7, 5), (7, 6)]);
    let fen = b.to_fen();
    let _ = forbidden(&b, Point::new(7, 7));
    assert_eq!(b.to_fen(), fen);
}

/// Drive a game to the position just before Black plays the test move, by
/// placing the listed Black stones with throwaway White replies in between.
fn setup(black: &[(u8, u8)]) -> Game {
    let mut g = Game::new(RuleSet::renju());
    // Park White stones along a far row, spaced so they never line up.
    let mut wx = 0u8;
    for &(x, y) in black {
        g.play(Point::new(x, y)).expect("black setup move");
        g.play(Point::new(wx, 14)).expect("white setup move");
        wx += 2;
    }
    g
}

#[test]
fn black_double_three_is_rejected() {
    let mut g = setup(&[(5, 7), (6, 7), (7, 5)]);
    // Black now to move; (7,7) would make a 3-3 fork (needs (7,6) too).
    g.play(Point::new(7, 6)).unwrap(); // black
    g.play(Point::new(12, 0)).unwrap(); // white elsewhere
    assert_eq!(
        g.play(Point::new(7, 7)),
        Err(MoveError::Forbidden(ForbiddenKind::DoubleThree))
    );
    assert!(!g.is_legal(Point::new(7, 7)));
    assert!(!g.legal_moves().contains(&Point::new(7, 7)));
}

#[test]
fn white_is_not_restricted() {
    // The same 3-3 shape is perfectly legal for White.
    let mut g = Game::new(RuleSet::renju());
    g.play(Point::new(0, 0)).unwrap(); // black throwaway
    g.play(Point::new(5, 7)).unwrap(); // white
    g.play(Point::new(0, 2)).unwrap();
    g.play(Point::new(6, 7)).unwrap(); // white
    g.play(Point::new(0, 4)).unwrap();
    g.play(Point::new(7, 5)).unwrap(); // white
    g.play(Point::new(0, 6)).unwrap();
    g.play(Point::new(7, 6)).unwrap(); // white
    g.play(Point::new(0, 8)).unwrap();
    // White makes the 3-3 fork - allowed.
    assert!(g.play(Point::new(7, 7)).is_ok());
}

#[test]
fn black_five_wins_despite_overline_neighbors() {
    // A move that makes exactly five is always legal and wins.
    let mut g = setup(&[(4, 7), (5, 7), (6, 7), (7, 7)]);
    let out = g.play(Point::new(8, 7)).unwrap();
    assert_eq!(out.status, Status::Win(Player::Black));
}

#[test]
fn black_overline_is_rejected() {
    // Black has X X X X _ X; filling the gap would make six - forbidden.
    let mut g = setup(&[(4, 7), (5, 7), (6, 7), (7, 7), (9, 7)]);
    assert_eq!(
        g.play(Point::new(8, 7)),
        Err(MoveError::Forbidden(ForbiddenKind::Overline))
    );
}

#[test]
fn white_overline_does_not_win_under_renju() {
    // White bridges x = 1,2,3 and 5,6 with x = 4 into a six; Black answers
    // far away on its own scattered points.
    let mut g = Game::new(RuleSet::renju());
    let blacks = [(0, 10), (3, 12), (6, 10), (9, 12), (12, 10), (14, 14)];
    let whites = [(1, 0), (2, 0), (3, 0), (5, 0), (6, 0)];
    for i in 0..5 {
        g.play(Point::new(blacks[i].0, blacks[i].1)).unwrap();
        g.play(Point::new(whites[i].0, whites[i].1)).unwrap();
    }
    g.play(Point::new(blacks[5].0, blacks[5].1)).unwrap();
    let out = g.play(Point::new(4, 0)).unwrap();
    assert_eq!(out.status, Status::InProgress);
}
