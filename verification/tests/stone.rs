use gomoku::{Cell, Player};

#[test]
fn opponent_flips() {
    assert_eq!(Player::Black.opponent(), Player::White);
    assert_eq!(Player::White.opponent(), Player::Black);
}

#[test]
fn cell_predicates() {
    let b = Cell::Stone(Player::Black);
    assert!(b.is(Player::Black));
    assert!(!b.is(Player::White));
    assert!(!b.is_empty());
    assert_eq!(b.player(), Some(Player::Black));
    assert!(Cell::Empty.is_empty());
    assert_eq!(Cell::Empty.player(), None);
}

#[test]
fn glyphs() {
    assert_eq!(Player::Black.glyph(), 'X');
    assert_eq!(Player::White.glyph(), 'O');
    assert_eq!(Cell::Empty.glyph(), '.');
    assert_eq!(Cell::Stone(Player::White).glyph(), 'O');
}
