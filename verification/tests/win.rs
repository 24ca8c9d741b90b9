use gomoku::rules::win::is_win;
use gomoku::{Board, Player, Point, RuleSet};

fn place_row(board: &mut Board, player: Player, start: Point, axis: (i8, i8), n: i8) {
    for i in 0..n {
        let q = start.offset(axis.0 * i, axis.1 * i).unwrap();
        board.place(player, q);
    }
}

#[test]
fn freestyle_five_and_overline_win() {
    let rules = RuleSet::freestyle();
    let mut b = Board::new(15);
    place_row(&mut b, Player::Black, Point::new(2, 2), (1, 0), 5);
    assert!(is_win(&b, Point::new(4, 2), Player::Black, &rules));

    let mut b = Board::new(15);
    place_row(&mut b, Player::Black, Point::new(2, 2), (1, 0), 6);
    assert!(is_win(&b, Point::new(4, 2), Player::Black, &rules));
}

#[test]
fn standard_rejects_overline() {
    let rules = RuleSet::standard();
    let mut b = Board::new(15);
    place_row(&mut b, Player::Black, Point::new(2, 2), (1, 0), 6);
    // The completing stone sits inside a six -> no win under Standard.
    assert!(!is_win(&b, Point::new(4, 2), Player::Black, &rules));

    let mut b = Board::new(15);
    place_row(&mut b, Player::Black, Point::new(2, 2), (1, 0), 5);
    assert!(is_win(&b, Point::new(4, 2), Player::Black, &rules));
}

#[test]
fn diagonal_win() {
    let rules = RuleSet::standard();
    let mut b = Board::new(15);
    place_row(&mut b, Player::White, Point::new(1, 1), (1, 1), 5);
    assert!(is_win(&b, Point::new(3, 3), Player::White, &rules));
}

#[test]
fn anti_diagonal_and_vertical_wins() {
    let rules = RuleSet::standard();
    let mut b = Board::new(15);
    place_row(&mut b, Player::Black, Point::new(2, 10), (1, -1), 5);
    assert!(is_win(&b, Point::new(6, 6), Player::Black, &rules));

    let mut b = Board::new(15);
    place_row(&mut b, Player::White, Point::new(9, 3), (0, 1), 5);
    assert!(is_win(&b, Point::new(9, 3), Player::White, &rules));
}

#[test]
fn four_is_not_a_win() {
    let rules = RuleSet::freestyle();
    let mut b = Board::new(15);
    place_row(&mut b, Player::Black, Point::new(2, 2), (1, 0), 4);
    assert!(!is_win(&b, Point::new(3, 2), Player::Black, &rules));
}

#[test]
fn caro_five_blocked_at_both_ends_is_not_a_win() {
    let rules = RuleSet::caro();
    let mut b = Board::new(15);
    place_row(&mut b, Player::Black, Point::new(2, 2), (1, 0), 5);
    b.place(Player::White, Point::new(1, 2));
    b.place(Player::White, Point::new(7, 2));
    assert!(!is_win(&b, Point::new(4, 2), Player::Black, &rules));
    b.clear(Point::new(7, 2));
    assert!(is_win(&b, Point::new(4, 2), Player::Black, &rules));
}

#[test]
fn renju_scores_both_players_on_exact_five() {
    let rules = RuleSet::renju();
    let mut b = Board::new(15);
    place_row(&mut b, Player::White, Point::new(2, 2), (1, 0), 6);
    assert!(!is_win(&b, Point::new(4, 2), Player::White, &rules));

    let mut b = Board::new(15);
    place_row(&mut b, Player::White, Point::new(2, 2), (1, 0), 5);
    assert!(is_win(&b, Point::new(4, 2), Player::White, &rules));
}
