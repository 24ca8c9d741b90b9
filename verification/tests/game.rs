use gomoku::{Game, MoveError, Player, Point, RuleSet, Status};

#[test]
fn alternates_and_detects_win() {
    let mut g = Game::new(RuleSet::standard());
    // Black builds a horizontal five while White plays elsewhere.
    let blacks = [(2, 2), (3, 2), (4, 2), (5, 2), (6, 2)];
    let whites = [(2, 10), (3, 10), (4, 10), (5, 10)];
    for i in 0..4 {
        assert_eq!(g.to_move(), Player::Black);
        let out = g.play(Point::new(blacks[i].0, blacks[i].1)).unwrap();
        assert_eq!(out.status, Status::InProgress);
        assert_eq!(g.to_move(), Player::White);
        g.play(Point::new(whites[i].0, whites[i].1)).unwrap();
    }
    let out = g.play(Point::new(6, 2)).unwrap();
    assert_eq!(out.status, Status::Win(Player::Black));
    assert_eq!(g.winner(), Some(Player::Black));
    assert!(g.status().is_over());
}

#[test]
fn rejects_illegal_moves() {
    let mut g = Game::new(RuleSet::standard());
    g.play(Point::new(7, 7)).unwrap();
    assert_eq!(
        g.play(Point::new(7, 7)),
        Err(MoveError::Occupied(Point::new(7, 7)))
    );
    assert_eq!(
        g.play(Point::new(20, 0)),
        Err(MoveError::OutOfBounds(Point::new(20, 0)))
    );
    assert!(!g.is_legal(Point::new(7, 7)));
}

#[test]
fn undo_restores_turn_and_status() {
    let mut g = Game::new(RuleSet::freestyle());
    for x in 2..6 {
        g.play(Point::new(x, 2)).unwrap(); // black
        g.play(Point::new(x, 9)).unwrap(); // white
    }
    let out = g.play(Point::new(6, 2)).unwrap(); // black wins
    assert_eq!(out.status, Status::Win(Player::Black));
    assert_eq!(g.undo(), Some(Point::new(6, 2)));
    assert_eq!(g.status(), Status::InProgress);
    assert_eq!(g.to_move(), Player::Black);
    assert!(g.board().is_empty(Point::new(6, 2)));
}

#[test]
fn no_moves_after_game_over() {
    let mut g = Game::new(RuleSet::freestyle());
    for x in 2..6 {
        g.play(Point::new(x, 2)).unwrap();
        g.play(Point::new(x, 9)).unwrap();
    }
    g.play(Point::new(6, 2)).unwrap(); // black wins
    assert_eq!(g.play(Point::new(0, 0)), Err(MoveError::GameOver));
    assert!(g.legal_moves().is_empty());
}

#[test]
fn rejected_move_leaves_game_unchanged() {
    let mut g = Game::new(RuleSet::standard());
    g.play(Point::new(7, 7)).unwrap();
    let before = g.to_move_list();
    assert!(g.play(Point::new(7, 7)).is_err());
    assert_eq!(g.to_move_list(), before);
    assert_eq!(g.move_count(), 1);
    assert_eq!(g.to_move(), Player::White);
}

#[test]
fn undo_on_fresh_game_is_none() {
    let mut g = Game::new(RuleSet::standard());
    assert_eq!(g.undo(), None);
    assert_eq!(g.move_count(), 0);
    assert_eq!(g.to_move(), Player::Black);
}

#[test]
fn undo_after_play_restores_everything() {
    let mut g = Game::new(RuleSet::standard());
    g.play(Point::new(7, 7)).unwrap();
    g.play(Point::new(8, 8)).unwrap();
    let fen = g.board().to_fen();
    let moves = g.moves();
    g.play(Point::new(3, 4)).unwrap();
    assert_eq!(g.undo(), Some(Point::new(3, 4)));
    assert_eq!(g.board().to_fen(), fen);
    assert_eq!(g.moves(), moves);
    assert_eq!(g.to_move(), Player::Black);
    assert_eq!(g.status(), Status::InProgress);
}

#[test]
fn legal_moves_are_exactly_the_legal_points() {
    let mut g = Game::new(RuleSet::standard());
    assert_eq!(g.legal_moves().len(), 225);
    g.play(Point::new(0, 0)).unwrap();
    let legal = g.legal_moves();
    assert_eq!(legal.len(), 224);
    assert!(!legal.contains(&Point::new(0, 0)));
    assert_eq!(legal[0], Point::new(1, 0));
    for p in &legal {
        assert!(g.is_legal(*p));
    }
}

#[test]
fn draw_when_the_board_fills() {
    let mut rules = RuleSet::freestyle();
    rules.board_size = 5;
    rules.win_length = 5;
    let mut g = Game::new(rules);
    // Rows alternate between the patterns B B W W B and W W B B W, so no
    // row, column or diagonal holds five of one color.
    let order = [
        (0, 0), (2, 0), (1, 0), (3, 0), (4, 0),
        (0, 1), (2, 1), (1, 1), (3, 1), (4, 1),
        (0, 2), (2, 2), (1, 2), (3, 2), (4, 2),
        (0, 3), (2, 3), (1, 3), (3, 3), (4, 3),
        (0, 4), (2, 4), (1, 4), (3, 4), (4, 4),
    ];
    let mut last = Status::InProgress;
    for (i, &(x, y)) in order.iter().enumerate() {
        let out = g.play(Point::new(x, y)).unwrap();
        last = out.status;
        if i + 1 < order.len() {
            assert_eq!(last, Status::InProgress);
        }
    }
    assert_eq!(last, Status::Draw);
    assert!(g.board().is_full());
    assert_eq!(g.winner(), None);
}

#[test]
fn try_new_accepts_valid_rules() {
    let g = Game::try_new(RuleSet::renju()).unwrap();
    assert_eq!(g.rules(), &RuleSet::renju());
    assert_eq!(g.captures(Player::Black), 0);
    assert_eq!(g.captures(Player::White), 0);
    assert_eq!(g.opening_color_choice(), None);
}
