//! Rule configuration. A [`RuleSet`] is a data-driven description of a variant
//! that the [`Game`](crate::Game) interprets; Renju forbidden moves, Pente
//! captures and opening protocols live in submodules and are consulted only
//! when the relevant option is set.

pub mod capture;
pub mod opening;
pub mod renju;
pub mod win;

use vstd::prelude::*;
use crate::error::RuleSetError;
use crate::point::MAX_SIZE;

verus! {

/// How a run longer than the win length is treated.
#[derive(Debug, Clone, Copy, PartialEq, Eq, Structural)]
pub enum Overline {
    /// A run of `win_length` *or more* wins (Freestyle, Caro).
    Win,
    /// Only a run of exactly `win_length` wins (Standard, Renju).
    NoWin,
}

/// Pente-style capture configuration.
#[derive(Debug, Clone, Copy, PartialEq, Eq, Structural)]
pub struct Capture {
    /// Number of captured *pairs* that wins the game.
    pub pairs_to_win: u8,
}

/// The opening protocol governing the first moves of the game.
#[non_exhaustive]
#[derive(Debug, Clone, Copy, PartialEq, Eq, Structural)]
pub enum Opening {
    /// No restriction; plain alternating play from the first move.
    Free,
    /// Pro: black 1 at center, black 3 at least 3 lines from center.
    Pro,
    /// Long Pro: black 1 at center, black 3 at least 4 lines from center.
    LongPro,
    /// Swap: first player lays the opening three stones, second picks a color.
    Swap,
    /// Swap2: opening three, then swap / add-two-and-defer / take-black.
    Swap2,
    /// Renju forbidden-move rules with a free opening.
    FreeRenju,
    /// Yamaguchi: opening three + announced 5th-move count, swap, then the
    /// proposer offers that many 5th moves for the opponent to choose from.
    Yamaguchi,
}

/// A complete description of a gomoku variant.
#[non_exhaustive]
#[derive(Debug, Clone, Copy, PartialEq, Eq, Structural)]
pub struct RuleSet {
    /// Edge length of the (square) board, `5..=19`.
    pub board_size: u8,
    /// Stones in a row required to win.
    pub win_length: u8,
    /// Whether runs longer than `win_length` win.
    pub overline: Overline,
    /// Enforce Renju forbidden moves (double-three, double-four, overline) for Black.
    pub forbidden_black: bool,
    /// Caro: a winning run blocked by opponent stones at *both* ends does not win.
    pub caro_block_both_ends: bool,
    /// Pente capturing, if enabled.
    pub capture: Option<Capture>,
    /// Opening protocol.
    pub opening: Opening,
}

/// The first inconsistency of a configuration, in the order `validate`
/// checks them, or `None` for a valid one.
pub open spec fn rules_error(r: RuleSet) -> Option<RuleSetError> {
    if !(5 <= r.board_size <= MAX_SIZE) {
        Some(RuleSetError::BoardSize(r.board_size))
    } else if r.win_length < 2 || r.win_length > r.board_size {
        Some(RuleSetError::WinLength(r.win_length))
    } else if r.capture matches Some(c) && c.pairs_to_win == 0 {
        Some(RuleSetError::ZeroCapturePairs)
    } else {
        None
    }
}

/// The Freestyle preset: 15x15, five or more wins, no restrictions.
pub open spec fn freestyle_rules() -> RuleSet {
    RuleSet {
        board_size: 15,
        win_length: 5,
        overline: Overline::Win,
        forbidden_black: false,
        caro_block_both_ends: false,
        capture: None,
        opening: Opening::Free,
    }
}

impl RuleSet {
    /// Whether this configuration is internally consistent.
    pub open spec fn valid(self) -> bool {
        rules_error(self) is None
    }

    /// Freestyle gomoku: five *or more* in a row wins, no restrictions.
    pub fn freestyle() -> (r: RuleSet)
        ensures
            r == freestyle_rules(),
    {
        RuleSet {
            board_size: 15,
            win_length: 5,
            overline: Overline::Win,
            forbidden_black: false,
            caro_block_both_ends: false,
            capture: None,
            opening: Opening::Free,
        }
    }

    /// Standard gomoku: exactly five wins; an overline does not.
    pub fn standard() -> (r: RuleSet)
        ensures
            r == (RuleSet { overline: Overline::NoWin, ..freestyle_rules() }),
    {
        RuleSet { overline: Overline::NoWin, ..RuleSet::freestyle() }
    }

    /// Caro: five or more wins, but not if blocked by the opponent at both
    /// ends. Played on 15x15.
    pub fn caro() -> (r: RuleSet)
        ensures
            r == (RuleSet { overline: Overline::Win, caro_block_both_ends: true, ..freestyle_rules() }),
    {
        RuleSet { overline: Overline::Win, caro_block_both_ends: true, ..RuleSet::freestyle() }
    }

    /// Renju: Standard scoring plus Black's forbidden moves, with a free opening.
    pub fn renju() -> (r: RuleSet)
        ensures
            r == (RuleSet {
                overline: Overline::NoWin,
                forbidden_black: true,
                opening: Opening::FreeRenju,
                ..freestyle_rules()
            }),
    {
        RuleSet {
            overline: Overline::NoWin,
            forbidden_black: true,
            opening: Opening::FreeRenju,
            ..RuleSet::freestyle()
        }
    }

    /// Omok: exactly five wins (no overline) on a 19x19 board.
    pub fn omok() -> (r: RuleSet)
        ensures
            r == (RuleSet { board_size: 19, overline: Overline::NoWin, ..freestyle_rules() }),
    {
        RuleSet { board_size: 19, ..RuleSet::standard() }
    }

    /// Renju with the Yamaguchi balanced opening.
    pub fn renju_yamaguchi() -> (r: RuleSet)
        ensures
            r == (RuleSet {
                overline: Overline::NoWin,
                forbidden_black: true,
                opening: Opening::Yamaguchi,
                ..freestyle_rules()
            }),
    {
        RuleSet { opening: Opening::Yamaguchi, ..RuleSet::renju() }
    }

    /// Standard gomoku with the Swap opening.
    pub fn swap() -> (r: RuleSet)
        ensures
            r == (RuleSet { overline: Overline::NoWin, opening: Opening::Swap, ..freestyle_rules() }),
    {
        RuleSet { opening: Opening::Swap, ..RuleSet::standard() }
    }

    /// Standard gomoku with the Swap2 opening.
    pub fn swap2() -> (r: RuleSet)
        ensures
            r == (RuleSet { overline: Overline::NoWin, opening: Opening::Swap2, ..freestyle_rules() }),
    {
        RuleSet { opening: Opening::Swap2, ..RuleSet::standard() }
    }

    /// Standard gomoku with the Pro opening (Black 1 center, Black 3 at least
    /// 3 away).
    pub fn pro() -> (r: RuleSet)
        ensures
            r == (RuleSet { overline: Overline::NoWin, opening: Opening::Pro, ..freestyle_rules() }),
    {
        RuleSet { opening: Opening::Pro, ..RuleSet::standard() }
    }

    /// Standard gomoku with the Long Pro opening (Black 3 at least 4 away).
    pub fn long_pro() -> (r: RuleSet)
        ensures
            r == (RuleSet { overline: Overline::NoWin, opening: Opening::LongPro, ..freestyle_rules() }),
    {
        RuleSet { opening: Opening::LongPro, ..RuleSet::standard() }
    }

    /// Pente: five in a row *or* five captured pairs wins, on a 19x19 board.
    pub fn pente() -> (r: RuleSet)
        ensures
            r == (RuleSet {
                board_size: 19,
                capture: Some(Capture { pairs_to_win: 5 }),
                ..freestyle_rules()
            }),
    {
        RuleSet { board_size: 19, capture: Some(Capture { pairs_to_win: 5 }), ..RuleSet::freestyle() }
    }

    /// Check that the configuration is internally consistent: the board size
    /// is in `5..=19`, the win length in `2..=board_size`, and capturing, if
    /// enabled, needs at least one pair.
    pub fn validate(&self) -> (r: Result<(), RuleSetError>)
        ensures
            r == match rules_error(*self) {
                Some(e) => Err::<(), RuleSetError>(e),
                None => Ok(()),
            },
    {
        if !(5 <= self.board_size && self.board_size <= MAX_SIZE) {
            return Err(RuleSetError::BoardSize(self.board_size));
        }
        if self.win_length < 2 || self.win_length > self.board_size {
            return Err(RuleSetError::WinLength(self.win_length));
        }
        if let Some(c) = self.capture {
            if c.pairs_to_win == 0 {
                return Err(RuleSetError::ZeroCapturePairs);
            }
        }
        Ok(())
    }

    /// Return a copy of these rules with a different board size
    /// (`5 <= size <= 19`).
    pub fn with_board_size(self, size: u8) -> (r: RuleSet)
        requires
            5 <= size <= MAX_SIZE,
        ensures
            r == (RuleSet { board_size: size, ..self }),
    {
        let mut r = self;
        r.board_size = size;
        r
    }
}

/// Every preset is a valid configuration.
pub proof fn lemma_presets_valid()
    ensures
        freestyle_rules().valid(),
        (RuleSet { overline: Overline::NoWin, ..freestyle_rules() }).valid(),
        (RuleSet { overline: Overline::Win, caro_block_both_ends: true, ..freestyle_rules() }).valid(),
        (RuleSet {
            overline: Overline::NoWin,
            forbidden_black: true,
            opening: Opening::FreeRenju,
            ..freestyle_rules()
        }).valid(),
        (RuleSet { board_size: 19, overline: Overline::NoWin, ..freestyle_rules() }).valid(),
        (RuleSet {
            overline: Overline::NoWin,
            forbidden_black: true,
            opening: Opening::Yamaguchi,
            ..freestyle_rules()
        }).valid(),
        (RuleSet { overline: Overline::NoWin, opening: Opening::Swap, ..freestyle_rules() }).valid(),
        (RuleSet { overline: Overline::NoWin, opening: Opening::Swap2, ..freestyle_rules() }).valid(),
        (RuleSet { overline: Overline::NoWin, opening: Opening::Pro, ..freestyle_rules() }).valid(),
        (RuleSet { overline: Overline::NoWin, opening: Opening::LongPro, ..freestyle_rules() }).valid(),
        (RuleSet {
            board_size: 19,
            capture: Some(Capture { pairs_to_win: 5 }),
            ..freestyle_rules()
        }).valid(),
{
}

} // verus!
