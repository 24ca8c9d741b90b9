use gomoku::{
    Game, MoveError, OpeningAction, OpeningError, Player, Point, RuleSet, Swap2Choice,
};

fn opening_three(g: &mut Game) {
    g.play(Point::new(7, 7)).unwrap();
    g.play(Point::new(7, 8)).unwrap();
    g.play(Point::new(8, 7)).unwrap();
}

#[test]
fn decisions_out_of_turn_are_rejected() {
    let mut g = Game::new(RuleSet::swap2());
    assert_eq!(
        g.swap2_decision(Swap2Choice::PlayWhite),
        Err(MoveError::Opening(OpeningError::UnexpectedSwap2Decision))
    );
    assert_eq!(
        g.choose_color(Player::White),
        Err(MoveError::Opening(OpeningError::UnexpectedColorChoice))
    );
    assert_eq!(
        g.announce_fifth_count(2),
        Err(MoveError::Opening(OpeningError::UnexpectedAnnouncement))
    );
    assert_eq!(
        g.propose_fifths(&[Point::new(1, 1)]),
        Err(MoveError::Opening(OpeningError::UnexpectedProposal))
    );
    assert_eq!(
        g.choose_fifth(Point::new(1, 1)),
        Err(MoveError::Opening(OpeningError::UnexpectedSelection))
    );
    // Nothing changed.
    assert_eq!(g.move_count(), 0);
    assert_eq!(g.to_move(), Player::Black);
}

#[test]
fn swap2_take_black_ends_the_opening() {
    let mut g = Game::new(RuleSet::swap2());
    opening_three(&mut g);
    g.swap2_decision(Swap2Choice::SwapToBlack).unwrap();
    assert_eq!(g.opening_action(), OpeningAction::NoAction);
    assert_eq!(g.opening_color_choice(), Some(Player::Black));
    assert_eq!(g.to_move(), Player::White);
}

#[test]
fn long_pro_requires_distance_four() {
    let mut g = Game::new(RuleSet::long_pro());
    g.play(Point::new(7, 7)).unwrap();
    g.play(Point::new(0, 0)).unwrap();
    assert_eq!(
        g.play(Point::new(10, 7)),
        Err(MoveError::Opening(OpeningError::PlacementRestricted))
    );
    g.play(Point::new(11, 7)).unwrap();
    assert_eq!(g.opening_action(), OpeningAction::NoAction);
}

#[test]
fn yamaguchi_rejects_duplicate_and_unplayable_proposals() {
    let mut g = Game::new(RuleSet::renju_yamaguchi());
    opening_three(&mut g);
    g.announce_fifth_count(2).unwrap();
    g.choose_color(Player::Black).unwrap();
    g.play(Point::new(5, 5)).unwrap();
    assert_eq!(
        g.propose_fifths(&[Point::new(3, 3), Point::new(3, 3)]),
        Err(MoveError::Opening(OpeningError::DuplicateProposal))
    );
    assert_eq!(
        g.propose_fifths(&[Point::new(3, 3), Point::new(7, 7)]),
        Err(MoveError::Occupied(Point::new(7, 7)))
    );
    assert_eq!(
        g.play(Point::new(3, 3)),
        Err(MoveError::Opening(OpeningError::DecisionRequired))
    );
    assert!(g.legal_moves().is_empty());
    g.propose_fifths(&[Point::new(3, 3), Point::new(11, 11)]).unwrap();
    match g.opening_action() {
        OpeningAction::SelectFifth { options } => {
            assert_eq!(options, vec![Point::new(3, 3), Point::new(11, 11)])
        }
        other => panic!("unexpected action {other:?}"),
    }
    g.choose_fifth(Point::new(11, 11)).unwrap();
    assert_eq!(g.board().get(Point::new(11, 11)), gomoku::Cell::Stone(Player::Black));
    assert_eq!(g.move_count(), 5);
    assert_eq!(g.opening_action(), OpeningAction::NoAction);
}

#[test]
fn free_openings_need_no_decisions() {
    let g = Game::new(RuleSet::renju());
    assert_eq!(g.opening_action(), OpeningAction::NoAction);
    let g = Game::new(RuleSet::standard());
    assert_eq!(g.opening_action(), OpeningAction::NoAction);
}

#[test]
fn undo_rewinds_the_opening_step() {
    let mut g = Game::new(RuleSet::swap());
    opening_three(&mut g);
    assert_eq!(g.opening_action(), OpeningAction::ChooseColor);
    assert_eq!(g.undo(), Some(Point::new(8, 7)));
    assert_eq!(
        g.opening_action(),
        OpeningAction::PlaceStone { color: Player::Black, constraint: gomoku::Constraint::Anywhere }
    );
}

#[test]
fn presets_resize() {
    let r = RuleSet::pente().with_board_size(13);
    assert_eq!(r.board_size, 13);
    assert_eq!(r.validate(), Ok(()));
    let g = Game::new(r);
    assert_eq!(g.board().size(), 13);
    assert_eq!(RuleSet::omok().board_size, 19);
    assert_eq!(RuleSet::renju().board_size, 15);
}
