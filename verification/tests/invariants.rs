use gomoku::{Board, Cell, Game, OpeningAction, OpeningName, Player, Point, RuleSet, ALL_OPENINGS};

#[test]
fn every_offered_fifth_move_can_be_chosen() {
    for pick in [Point::new(3, 3), Point::new(11, 11)] {
        let mut g = Game::new(RuleSet::renju_yamaguchi());
        g.play(Point::new(7, 7)).unwrap();
        g.play(Point::new(7, 8)).unwrap();
        g.play(Point::new(8, 7)).unwrap();
        g.announce_fifth_count(2).unwrap();
        g.choose_color(Player::Black).unwrap();
        g.play(Point::new(5, 5)).unwrap();
        g.propose_fifths(&[Point::new(3, 3), Point::new(11, 11)]).unwrap();
        assert!(g.choose_fifth(pick).is_ok());
        assert_eq!(g.board().get(pick), Cell::Stone(Player::Black));
        assert_eq!(g.to_move(), Player::White);
    }
}

#[test]
fn turns_follow_move_parity() {
    let mut g = Game::new(RuleSet::swap2());
    let moves = [(7, 7), (7, 8), (8, 7)];
    for (i, &(x, y)) in moves.iter().enumerate() {
        let expected = if i % 2 == 0 { Player::Black } else { Player::White };
        assert_eq!(g.to_move(), expected);
        if let OpeningAction::PlaceStone { color, .. } = g.opening_action() {
            assert_eq!(color, g.to_move());
        }
        g.play(Point::new(x, y)).unwrap();
    }
    assert_eq!(g.to_move(), Player::White);
    g.swap2_decision(gomoku::Swap2Choice::PlaceTwoMore).unwrap();
    match g.opening_action() {
        OpeningAction::PlaceStone { color, .. } => assert_eq!(color, Player::White),
        other => panic!("unexpected action {other:?}"),
    }
    assert_eq!(g.to_move(), Player::White);
}

#[test]
fn board_holds_exactly_the_moves_without_captures() {
    let mut g = Game::new(RuleSet::standard());
    for &(x, y) in &[(7, 7), (0, 0), (3, 9), (14, 14), (6, 2)] {
        g.play(Point::new(x, y)).unwrap();
    }
    g.undo();
    let moves = g.moves();
    assert_eq!(g.board().stone_count() as usize, g.move_count());
    for (i, p) in moves.iter().enumerate() {
        let expected = if i % 2 == 0 { Player::Black } else { Player::White };
        assert_eq!(g.board().get(*p), Cell::Stone(expected));
    }
    assert!(g.board().is_empty(Point::new(6, 2)));
}

#[test]
fn stone_count_matches_a_walk_over_the_points() {
    let mut b = Board::new(9);
    b.place(Player::Black, Point::new(0, 0));
    b.place(Player::White, Point::new(8, 8));
    b.place(Player::Black, Point::new(4, 5));
    let walked = b.points().iter().filter(|p| !b.is_empty(**p)).count();
    assert_eq!(b.stone_count() as usize, walked);
    assert_eq!(walked, 3);
}

/// One of the eight symmetries of an offset.
fn sym(v: (i8, i8), t: u8) -> (i8, i8) {
    let (x, y) = v;
    match t {
        0 => (x, y),
        1 => (-x, y),
        2 => (x, -y),
        3 => (-x, -y),
        4 => (y, x),
        5 => (-y, x),
        6 => (y, -x),
        _ => (-y, -x),
    }
}

#[test]
fn identify_under_all_eight_symmetries() {
    for size in [5u8, 15, 19] {
        let c = (size / 2) as i8;
        for name in ALL_OPENINGS {
            let o = name.offsets();
            for t in 0..8u8 {
                let pts = o.map(|v| {
                    let (dx, dy) = sym(v, t);
                    Point::new((c + dx) as u8, (c + dy) as u8)
                });
                assert_eq!(OpeningName::identify(pts, size), Some(name));
            }
        }
    }
}

#[test]
fn placements_on_the_largest_boards_their_offsets_allow() {
    let pts = OpeningName::Ryuusei.placements(252);
    assert_eq!(pts, [Point::new(126, 126), Point::new(127, 127), Point::new(125, 126)]);
    assert_eq!(OpeningName::identify(pts, 252), Some(OpeningName::Ryuusei));
}
