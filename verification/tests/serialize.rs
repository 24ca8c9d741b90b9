use gomoku::{Board, FenError, Game, MoveError, MoveListError, Player, Point, RuleSet};

#[test]
fn board_fen_round_trips() {
    let mut b = Board::new(15);
    b.place(Player::Black, Point::new(7, 7));
    b.place(Player::White, Point::new(7, 8));
    b.place(Player::Black, Point::new(0, 0));
    let fen = b.to_fen();
    let back = Board::from_fen(&fen).unwrap();
    assert_eq!(b, back);
    assert_eq!(back.to_fen(), fen);
}

#[test]
fn fen_rejects_bad_input() {
    assert_eq!(Board::from_fen("nope"), Err(FenError::BadSize));
    assert_eq!(Board::from_fen("4:...."), Err(FenError::BadSize));
    assert!(matches!(Board::from_fen("15:XQ"), Err(FenError::BadShape)));
}

#[test]
fn move_list_replays_to_same_board() {
    let mut g = Game::new(RuleSet::standard());
    for &(x, y) in &[(7, 7), (7, 8), (8, 8), (8, 9), (9, 9)] {
        g.play(Point::new(x, y)).unwrap();
    }
    let list = g.to_move_list();
    let replayed = Game::from_move_list(RuleSet::standard(), &list).unwrap();
    assert_eq!(replayed.board().to_fen(), g.board().to_fen());
    assert_eq!(replayed.to_move_list(), list);
}

#[test]
fn move_list_reports_bad_token() {
    match Game::from_move_list(RuleSet::standard(), "h8 ??") {
        Err(e) => assert_eq!(e, MoveListError::BadCoordinate("??".to_string())),
        Ok(_) => panic!("expected a parse error"),
    }
}

#[test]
fn fen_of_a_small_board() {
    let mut board = Board::new(5);
    board.place(Player::Black, Point::new(0, 0));
    assert_eq!(board.to_fen(), "5:...../...../...../...../X....");
    board.place(Player::White, Point::new(4, 4));
    assert_eq!(board.to_fen(), "5:....O/...../...../...../X....");
}

#[test]
fn fen_parses_rows_top_first() {
    let b = Board::from_fen("5:X..../...../...../...../....O").unwrap();
    assert_eq!(b.size(), 5);
    assert_eq!(b.get(Point::new(0, 4)), gomoku::Cell::Stone(Player::Black));
    assert_eq!(b.get(Point::new(4, 0)), gomoku::Cell::Stone(Player::White));
    assert_eq!(b.stone_count(), 2);
}

#[test]
fn fen_size_prefix_is_trimmed_and_may_carry_a_plus() {
    let b = Board::from_fen(" +5 :...../...../...../...../.....").unwrap();
    assert_eq!(b.size(), 5);
}

#[test]
fn fen_error_variants() {
    assert_eq!(Board::from_fen("20:"), Err(FenError::BadSize));
    assert_eq!(Board::from_fen("x5:....."), Err(FenError::BadSize));
    assert_eq!(Board::from_fen("300:"), Err(FenError::BadSize));
    assert_eq!(Board::from_fen("5:...../...../...../....."), Err(FenError::BadShape));
    assert_eq!(Board::from_fen("5:...../...../...../...../...."), Err(FenError::BadShape));
    assert_eq!(Board::from_fen("5:...../..Q../...../...../....."), Err(FenError::BadChar('Q')));
    // Rows are checked in order: a short row before a bad character wins.
    assert_eq!(Board::from_fen("5:.../..Q../...../...../....."), Err(FenError::BadShape));
    // Within a row the first bad character is reported.
    assert_eq!(Board::from_fen("5:.ab../...../...../...../....."), Err(FenError::BadChar('a')));
}

#[test]
fn empty_move_list_is_a_fresh_game() {
    let g = Game::from_move_list(RuleSet::standard(), "   ").unwrap();
    assert_eq!(g.move_count(), 0);
    assert_eq!(g.to_move_list(), "");
}

#[test]
fn move_list_tolerates_extra_whitespace() {
    let g = Game::from_move_list(RuleSet::standard(), "  h8\n\ti9   j10 ").unwrap();
    assert_eq!(g.to_move_list(), "h8 i9 j10");
    assert_eq!(g.moves(), vec![Point::new(7, 7), Point::new(8, 8), Point::new(9, 9)]);
}

#[test]
fn move_list_reports_illegal_move() {
    let err = Game::from_move_list(RuleSet::standard(), "h8 h8").unwrap_err();
    assert_eq!(err, MoveListError::Illegal(MoveError::Occupied(Point::new(7, 7))));
    let err = Game::from_move_list(RuleSet::standard(), "z1").unwrap_err();
    assert_eq!(err, MoveListError::Illegal(MoveError::OutOfBounds(Point::new(25, 0))));
}

#[test]
fn move_list_replay_from_readme() {
    let game = Game::from_move_list(RuleSet::standard(), "h8 h1 i8 i1 j8").unwrap();
    assert_eq!(game.move_count(), 5);
    assert_eq!(game.to_move_list(), "h8 h1 i8 i1 j8");
}

#[test]
fn fen_of_every_size_round_trips() {
    for size in 5..=19u8 {
        let mut b = Board::new(size);
        b.place(Player::Black, Point::new(size - 1, 0));
        b.place(Player::White, Point::new(0, size - 1));
        let fen = b.to_fen();
        assert_eq!(Board::from_fen(&fen), Ok(b));
    }
}
