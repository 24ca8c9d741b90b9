//! Errors returned when a move, an opening action or a rule set is rejected.

use vstd::prelude::*;
use crate::point::{Point, point_text};
use crate::text::{decimal, push_decimal};

verus! {

/// Why a Renju move is forbidden for Black.
#[derive(Debug, Clone, Copy, PartialEq, Eq, Structural)]
pub enum ForbiddenKind {
    /// Two open threes created at once (3-3).
    DoubleThree,
    /// Two fours created at once (4-4).
    DoubleFour,
    /// A line of six or more.
    Overline,
}

/// Why a [`RuleSet`](crate::RuleSet) is not a valid configuration.
#[non_exhaustive]
#[derive(Debug, Clone, Copy, PartialEq, Eq, Structural)]
pub enum RuleSetError {
    /// `board_size` is outside the supported range `5..=19`.
    BoardSize(u8),
    /// `win_length` is less than 2 or greater than `board_size`.
    WinLength(u8),
    /// Capturing is enabled but `pairs_to_win` is zero.
    ZeroCapturePairs,
}

/// Why an opening-protocol action was rejected.
#[non_exhaustive]
#[derive(Debug, Clone, Copy, PartialEq, Eq, Structural)]
pub enum OpeningError {
    /// A stone placement was attempted while a non-placement decision is pending.
    DecisionRequired,
    /// A placement broke the protocol's location restriction (center / distance).
    PlacementRestricted,
    /// A color choice was made when none was expected.
    UnexpectedColorChoice,
    /// A Swap2 decision was made when none was expected.
    UnexpectedSwap2Decision,
    /// A 5th-move count announcement was made when none was expected.
    UnexpectedAnnouncement,
    /// The announced 5th-move count was zero.
    ZeroCount,
    /// A 5th-move proposal was made when none was expected.
    UnexpectedProposal,
    /// The number of proposed moves did not match the announced count.
    WrongProposalCount,
    /// The proposed moves contained a duplicate.
    DuplicateProposal,
    /// A 5th-move selection was made when none was expected.
    UnexpectedSelection,
    /// The selected move was not among those proposed.
    NotProposed,
}

/// The reason a call to [`Game::play`](crate::Game::play) (or an opening
/// action) was rejected. No game state is changed when an error is returned.
#[non_exhaustive]
#[derive(Debug, Clone, PartialEq, Eq, Structural)]
pub enum MoveError {
    /// The point lies outside the board.
    OutOfBounds(Point),
    /// The point is already occupied.
    Occupied(Point),
    /// The game has already ended.
    GameOver,
    /// A Renju forbidden move for Black.
    Forbidden(ForbiddenKind),
    /// The move or decision conflicts with the active opening protocol.
    Opening(OpeningError),
}


impl ForbiddenKind {
    /// The human-readable description of the kind.
    pub open spec fn message(self) -> Seq<char> {
        match self {
            ForbiddenKind::DoubleThree => "double-three (3-3)"@,
            ForbiddenKind::DoubleFour => "double-four (4-4)"@,
            ForbiddenKind::Overline => "overline (long row)"@,
        }
    }

    /// The human-readable description, e.g. `"double-three (3-3)"`.
    pub fn to_string(&self) -> (s: String)
        ensures
            s@ == self.message(),
    {
        let mut s = String::new();
        match self {
            ForbiddenKind::DoubleThree => s.append("double-three (3-3)"),
            ForbiddenKind::DoubleFour => s.append("double-four (4-4)"),
            ForbiddenKind::Overline => s.append("overline (long row)"),
        }
        s
    }
}

impl RuleSetError {
    /// The human-readable description of the error.
    pub open spec fn message(self) -> Seq<char> {
        match self {
            RuleSetError::BoardSize(n) => "board size "@ + decimal(n as nat) + " is not in 5..=19"@,
            RuleSetError::WinLength(n) => "win length "@ + decimal(n as nat)
                + " must be in 2..=board_size"@,
            RuleSetError::ZeroCapturePairs => "capture pairs-to-win must be at least 1"@,
        }
    }

    /// The human-readable description, e.g. `"board size 99 is not in 5..=19"`.
    pub fn to_string(&self) -> (s: String)
        ensures
            s@ == self.message(),
    {
        let mut s = String::new();
        match self {
            RuleSetError::BoardSize(n) => {
                s.append("board size ");
                push_decimal(&mut s, *n as u32);
                s.append(" is not in 5..=19");
            },
            RuleSetError::WinLength(n) => {
                s.append("win length ");
                push_decimal(&mut s, *n as u32);
                s.append(" must be in 2..=board_size");
            },
            RuleSetError::ZeroCapturePairs => s.append("capture pairs-to-win must be at least 1"),
        }
        s
    }
}

impl OpeningError {
    /// The human-readable description of the error.
    pub open spec fn message(self) -> Seq<char> {
        match self {
            OpeningError::DecisionRequired => "an opening decision is required before playing"@,
            OpeningError::PlacementRestricted => "move violates the opening placement restriction"@,
            OpeningError::UnexpectedColorChoice => "no color choice is expected now"@,
            OpeningError::UnexpectedSwap2Decision => "no Swap2 decision is expected now"@,
            OpeningError::UnexpectedAnnouncement => "no count announcement is expected now"@,
            OpeningError::ZeroCount => "the announced count must be at least 1"@,
            OpeningError::UnexpectedProposal => "no 5th-move proposal is expected now"@,
            OpeningError::WrongProposalCount => "wrong number of proposed moves"@,
            OpeningError::DuplicateProposal => "proposed moves must be distinct"@,
            OpeningError::UnexpectedSelection => "no 5th-move selection is expected now"@,
            OpeningError::NotProposed => "the chosen move was not among the proposals"@,
        }
    }

    /// The human-readable description of the error.
    pub fn to_string(&self) -> (s: String)
        ensures
            s@ == self.message(),
    {
        let mut s = String::new();
        match self {
            OpeningError::DecisionRequired => s.append("an opening decision is required before playing"),
            OpeningError::PlacementRestricted => s.append("move violates the opening placement restriction"),
            OpeningError::UnexpectedColorChoice => s.append("no color choice is expected now"),
            OpeningError::UnexpectedSwap2Decision => s.append("no Swap2 decision is expected now"),
            OpeningError::UnexpectedAnnouncement => s.append("no count announcement is expected now"),
            OpeningError::ZeroCount => s.append("the announced count must be at least 1"),
            OpeningError::UnexpectedProposal => s.append("no 5th-move proposal is expected now"),
            OpeningError::WrongProposalCount => s.append("wrong number of proposed moves"),
            OpeningError::DuplicateProposal => s.append("proposed moves must be distinct"),
            OpeningError::UnexpectedSelection => s.append("no 5th-move selection is expected now"),
            OpeningError::NotProposed => s.append("the chosen move was not among the proposals"),
        }
        s
    }
}

impl MoveError {
    /// Whether the point the error carries, if any, has a column letter
    /// within a byte (column index below 159).
    pub open spec fn printable(self) -> bool {
        match self {
            MoveError::OutOfBounds(p) => p.x + 97 < 256,
            MoveError::Occupied(p) => p.x + 97 < 256,
            _ => true,
        }
    }

    /// The human-readable description of the error.
    pub open spec fn message(self) -> Seq<char> {
        match self {
            MoveError::OutOfBounds(p) => "point "@ + point_text(p) + " is off the board"@,
            MoveError::Occupied(p) => "point "@ + point_text(p) + " is already occupied"@,
            MoveError::GameOver => "the game is already over"@,
            MoveError::Forbidden(k) => "forbidden move for Black: "@ + k.message(),
            MoveError::Opening(e) => "opening rule violated: "@ + e.message(),
        }
    }

    /// The human-readable description, e.g. `"point h8 is already occupied"`.
    pub fn to_string(&self) -> (s: String)
        requires
            self.printable(),
        ensures
            s@ == self.message(),
    {
        let mut s = String::new();
        match self {
            MoveError::OutOfBounds(p) => {
                s.append("point ");
                let t = p.to_string();
                s.append(t.as_str());
                s.append(" is off the board");
            },
            MoveError::Occupied(p) => {
                s.append("point ");
                let t = p.to_string();
                s.append(t.as_str());
                s.append(" is already occupied");
            },
            MoveError::GameOver => s.append("the game is already over"),
            MoveError::Forbidden(k) => {
                s.append("forbidden move for Black: ");
                let t = k.to_string();
                s.append(t.as_str());
            },
            MoveError::Opening(e) => {
                s.append("opening rule violated: ");
                let t = e.to_string();
                s.append(t.as_str());
            },
        }
        s
    }
}

} // verus!
