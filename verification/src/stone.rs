//! The two players and the contents of a board cell.

use vstd::prelude::*;

verus! {

/// One of the two players. Black always moves first.
#[derive(Debug, Clone, Copy, PartialEq, Eq, Hash, Structural)]
pub enum Player {
    /// The first player. Renders as `X` and always moves first.
    Black,
    /// The second player. Renders as `O`.
    White,
}

/// The other player.
pub open spec fn opponent_of(p: Player) -> Player {
    match p {
        Player::Black => Player::White,
        Player::White => Player::Black,
    }
}

/// The glyph used to render a player's stones.
pub open spec fn player_glyph(p: Player) -> char {
    match p {
        Player::Black => 'X',
        Player::White => 'O',
    }
}

impl Player {
    /// The other player.
    pub fn opponent(self) -> (r: Player)
        ensures
            r == opponent_of(self),
            r != self,
    {
        match self {
            Player::Black => Player::White,
            Player::White => Player::Black,
        }
    }

    /// The single character used to render this player's stones (`X` / `O`).
    pub fn glyph(self) -> (c: char)
        ensures
            c == player_glyph(self),
    {
        match self {
            Player::Black => 'X',
            Player::White => 'O',
        }
    }
}

/// The contents of a single intersection on the board.
#[derive(Debug, Clone, Copy, PartialEq, Eq, Hash, Structural)]
pub enum Cell {
    /// An unoccupied intersection.
    Empty,
    /// An intersection holding the given player's stone.
    Stone(Player),
}

/// The glyph used to render a cell: `.` for empty, else the player's glyph.
pub open spec fn cell_glyph(c: Cell) -> char {
    match c {
        Cell::Empty => '.',
        Cell::Stone(p) => player_glyph(p),
    }
}

impl Cell {
    /// Whether this cell holds a stone of the given player.
    pub fn is(self, player: Player) -> (r: bool)
        ensures
            r == (self == Cell::Stone(player)),
    {
        match self {
            Cell::Stone(p) => p == player,
            Cell::Empty => false,
        }
    }

    /// Whether this cell is empty.
    pub fn is_empty(self) -> (r: bool)
        ensures
            r == (self == Cell::Empty),
    {
        match self {
            Cell::Empty => true,
            Cell::Stone(_) => false,
        }
    }

    /// The player occupying this cell, if any.
    pub fn player(self) -> (r: Option<Player>)
        ensures
            r == (match self {
                Cell::Stone(p) => Some(p),
                Cell::Empty => None::<Player>,
            }),
    {
        match self {
            Cell::Stone(p) => Some(p),
            Cell::Empty => None,
        }
    }

    /// The character used to render this cell: `.` for empty, otherwise the
    /// player's glyph.
    pub fn glyph(self) -> (c: char)
        ensures
            c == cell_glyph(self),
    {
        match self {
            Cell::Empty => '.',
            Cell::Stone(p) => p.glyph(),
        }
    }
}

} // verus!
