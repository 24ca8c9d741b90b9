use gomoku::{FenError, ForbiddenKind, MoveError, MoveListError, OpeningError, Point, RuleSetError};

#[test]
fn forbidden_kind_messages() {
    assert_eq!(ForbiddenKind::DoubleThree.to_string(), "double-three (3-3)");
    assert_eq!(ForbiddenKind::DoubleFour.to_string(), "double-four (4-4)");
    assert_eq!(ForbiddenKind::Overline.to_string(), "overline (long row)");
}

#[test]
fn rule_set_error_messages() {
    assert_eq!(RuleSetError::BoardSize(99).to_string(), "board size 99 is not in 5..=19");
    assert_eq!(RuleSetError::WinLength(1).to_string(), "win length 1 must be in 2..=board_size");
    assert_eq!(
        RuleSetError::ZeroCapturePairs.to_string(),
        "capture pairs-to-win must be at least 1"
    );
}

#[test]
fn opening_error_messages() {
    assert_eq!(OpeningError::ZeroCount.to_string(), "the announced count must be at least 1");
    assert_eq!(
        OpeningError::NotProposed.to_string(),
        "the chosen move was not among the proposals"
    );
    assert_eq!(
        OpeningError::DecisionRequired.to_string(),
        "an opening decision is required before playing"
    );
}

#[test]
fn move_error_messages() {
    assert_eq!(
        MoveError::OutOfBounds(Point::new(20, 0)).to_string(),
        "point u1 is off the board"
    );
    assert_eq!(
        MoveError::Occupied(Point::new(7, 7)).to_string(),
        "point h8 is already occupied"
    );
    assert_eq!(MoveError::GameOver.to_string(), "the game is already over");
    assert_eq!(
        MoveError::Forbidden(ForbiddenKind::Overline).to_string(),
        "forbidden move for Black: overline (long row)"
    );
    assert_eq!(
        MoveError::Opening(OpeningError::WrongProposalCount).to_string(),
        "opening rule violated: wrong number of proposed moves"
    );
}

#[test]
fn serialization_error_messages() {
    assert_eq!(FenError::BadSize.to_string(), "missing or invalid board size");
    assert_eq!(FenError::BadChar('Q').to_string(), "invalid cell character 'Q'");
    assert_eq!(
        FenError::BadShape.to_string(),
        "row count or length does not match the board size"
    );
    assert_eq!(
        MoveListError::BadCoordinate("??".to_string()).to_string(),
        "invalid coordinate '??'"
    );
    assert_eq!(
        MoveListError::Illegal(MoveError::GameOver).to_string(),
        "illegal move during replay: the game is already over"
    );
}
