//! The game: board state, turn order, move legality, history and openings.

use vstd::prelude::*;
use crate::board::{Board, BoardModel, lemma_at_set, lemma_board_ext, lemma_set_wf, point_at_index};
use crate::error::{MoveError, OpeningError, RuleSetError};
use crate::point::Point;
use crate::rules::capture::{after_capture, captured, resolve, lemma_captured_on_board, lemma_captured_upto, lemma_remove_all};
use crate::rules::opening::{ActionModel, Constraint, OpeningAction, Swap2Choice, constraint_allows};
use crate::rules::renju::{forbidden, forbidden_at};
use crate::rules::win::{is_win, wins};
use crate::rules::{Opening, RuleSet, rules_error};
use crate::stone::{Cell, Player, opponent_of};

verus! {

broadcast use {lemma_at_set, lemma_set_wf};

/// The current outcome of a game.
#[derive(Debug, Clone, Copy, PartialEq, Eq, Structural)]
pub enum Status {
    /// Play continues.
    InProgress,
    /// `player` has won.
    Win(Player),
    /// The board filled with no winner.
    Draw,
}

impl Status {
    /// Whether the game has finished.
    pub fn is_over(self) -> (r: bool)
        ensures
            r == (self != Status::InProgress),
    {
        match self {
            Status::InProgress => false,
            _ => true,
        }
    }
}

/// The model of one played move, retained so it can be undone.
pub struct MoveRecord {
    /// Where the stone was placed.
    pub point: Point,
    /// Who placed it.
    pub player: Player,
    /// Opponent stones the move removed (Pente captures).
    pub captured: Seq<Point>,
    /// The opening step before the move.
    pub step_before: u8,
}

/// A record of one played move, retained so it can be undone.
#[derive(Debug, Clone)]
struct PlayedMove {
    point: Point,
    player: Player,
    captured: Vec<Point>,
    opening_step_before: u8,
}

impl View for PlayedMove {
    type V = MoveRecord;

    closed spec fn view(&self) -> MoveRecord {
        MoveRecord {
            point: self.point,
            player: self.player,
            captured: self.captured@,
            step_before: self.opening_step_before,
        }
    }
}

/// Sentinel opening step meaning the opening is complete.
pub const OPENING_DONE: u8 = 255;

/// The result of a successful [`Game::play`].
#[derive(Debug, Clone, PartialEq, Eq)]
pub struct MoveOutcome {
    /// Game status after the move.
    pub status: Status,
    /// Opponent stones captured by the move (empty unless capturing is enabled).
    pub captured: Vec<Point>,
}

/// The mathematical model of a game.
pub struct GameModel {
    /// The rules in force.
    pub rules: RuleSet,
    /// The board.
    pub board: BoardModel,
    /// Whose turn it is.
    pub to_move: Player,
    /// The current status.
    pub status: Status,
    /// The moves played, oldest first.
    pub history: Seq<MoveRecord>,
    /// Pairs captured by Black.
    pub black_captures: int,
    /// Pairs captured by White.
    pub white_captures: int,
    /// Cursor into the opening protocol's step sequence.
    pub opening_step: u8,
    /// Yamaguchi: the announced number of 5th-move candidates.
    pub opening_count: u8,
    /// Yamaguchi: the offered 5th-move candidates.
    pub proposals: Seq<Point>,
    /// The color chosen by a swap-style decision, once made.
    pub color_choice: Option<Player>,
}

/// The pairs `p` captured over a history.
pub open spec fn pair_total(h: Seq<MoveRecord>, p: Player) -> int
    decreases h.len(),
{
    if h.len() == 0 {
        0
    } else {
        pair_total(h.drop_last(), p) + if h.last().player == p {
            h.last().captured.len() as int / 2
        } else {
            0int
        }
    }
}

/// The opening step after one more step, saturating at [`OPENING_DONE`].
pub open spec fn next_step(s: u8) -> u8 {
    if s == 255 {
        255
    } else {
        (s + 1) as u8
    }
}

/// Pro and Long Pro: Black on the center, White anywhere, then Black at
/// least `distance` from the center.
pub open spec fn pro_action(step: u8, distance: u8) -> ActionModel {
    if step == 0 {
        ActionModel::PlaceStone { color: Player::Black, constraint: Constraint::Center }
    } else if step == 1 {
        ActionModel::PlaceStone { color: Player::White, constraint: Constraint::Anywhere }
    } else if step == 2 {
        ActionModel::PlaceStone { color: Player::Black, constraint: Constraint::MinDistance(distance) }
    } else {
        ActionModel::NoAction
    }
}

/// A stone placement of `c` anywhere.
pub open spec fn place_anywhere(c: Player) -> ActionModel {
    ActionModel::PlaceStone { color: c, constraint: Constraint::Anywhere }
}

impl GameModel {
    /// The number of pairs captured by `p`.
    pub open spec fn captures_of(self, p: Player) -> int {
        match p {
            Player::Black => self.black_captures,
            Player::White => self.white_captures,
        }
    }

    /// The center of the board.
    pub open spec fn center(self) -> Point {
        Point { x: (self.board.size / 2) as u8, y: (self.board.size / 2) as u8 }
    }

    /// What the opening protocol expects next.
    pub open spec fn opening_action(self) -> ActionModel {
        let s = self.opening_step;
        match self.rules.opening {
            Opening::Free | Opening::FreeRenju => ActionModel::NoAction,
            Opening::Pro => pro_action(s, 3),
            Opening::LongPro => pro_action(s, 4),
            Opening::Swap => if s == 0 || s == 2 {
                place_anywhere(Player::Black)
            } else if s == 1 {
                place_anywhere(Player::White)
            } else if s == 3 {
                ActionModel::ChooseColor
            } else {
                ActionModel::NoAction
            },
            Opening::Swap2 => if s == 0 || s == 2 || s == 5 {
                place_anywhere(Player::Black)
            } else if s == 1 || s == 4 {
                place_anywhere(Player::White)
            } else if s == 3 {
                ActionModel::Swap2Decision
            } else if s == 6 {
                ActionModel::ChooseColor
            } else {
                ActionModel::NoAction
            },
            Opening::Yamaguchi => if s == 0 || s == 2 {
                place_anywhere(Player::Black)
            } else if s == 1 || s == 5 {
                place_anywhere(Player::White)
            } else if s == 3 {
                ActionModel::AnnounceCount
            } else if s == 4 {
                ActionModel::ChooseColor
            } else if s == 6 {
                ActionModel::ProposeFifths { count: self.opening_count }
            } else if s == 7 {
                ActionModel::SelectFifth { options: self.proposals }
            } else {
                ActionModel::NoAction
            },
        }
    }

    /// Why the current player may not play at `p`, ignoring opening
    /// sequencing: game over, off the board, occupied, or Renju-forbidden.
    pub open spec fn move_error(self, p: Point) -> Option<MoveError> {
        if self.status != Status::InProgress {
            Some(MoveError::GameOver)
        } else if !self.board.on_board(p.x as int, p.y as int) {
            Some(MoveError::OutOfBounds(p))
        } else if self.board.at(p.x as int, p.y as int) != Cell::Empty {
            Some(MoveError::Occupied(p))
        } else if self.rules.forbidden_black && self.to_move == Player::Black && forbidden_at(
            self.board,
            p,
            0,
        ) is Some {
            Some(MoveError::Forbidden(forbidden_at(self.board, p, 0)->0))
        } else {
            None
        }
    }

    /// Why the current player may not play at `p`, opening protocol included.
    pub open spec fn legality_error(self, p: Point) -> Option<MoveError> {
        match self.opening_action() {
            ActionModel::NoAction => self.move_error(p),
            ActionModel::PlaceStone { constraint, .. } => if !constraint_allows(
                constraint,
                p,
                self.center(),
            ) {
                Some(MoveError::Opening(OpeningError::PlacementRestricted))
            } else {
                self.move_error(p)
            },
            _ => Some(MoveError::Opening(OpeningError::DecisionRequired)),
        }
    }

    /// Whether the current player may legally play at `p`.
    pub open spec fn is_legal(self, p: Point) -> bool {
        self.legality_error(p) is None
    }

    /// The board once the current player's stone is on `p`.
    pub open spec fn placed(self, p: Point) -> BoardModel {
        self.board.set(p.x as int, p.y as int, Cell::Stone(self.to_move))
    }

    /// The stones a move at `p` captures.
    pub open spec fn captures_by(self, p: Point) -> Seq<Point> {
        if self.rules.capture is Some {
            captured(self.placed(p), p, self.to_move)
        } else {
            Seq::empty()
        }
    }

    /// The board after a move at `p`, captures resolved.
    pub open spec fn board_after(self, p: Point) -> BoardModel {
        if self.rules.capture is Some {
            after_capture(self.placed(p), p, self.to_move)
        } else {
            self.placed(p)
        }
    }

    /// The game after the current player plays at `p` (a legal move): the
    /// stone is placed, captures resolved and counted, the status updated,
    /// the move recorded and the turn passed.
    pub open spec fn after_play(self, p: Point) -> GameModel {
        let player = self.to_move;
        let taken = self.captures_by(p);
        let pairs = taken.len() as int / 2;
        let black = if player == Player::Black {
            self.black_captures + pairs
        } else {
            self.black_captures
        };
        let white = if player == Player::White {
            self.white_captures + pairs
        } else {
            self.white_captures
        };
        let mine = if player == Player::Black {
            black
        } else {
            white
        };
        let board = self.board_after(p);
        let capture_win = self.rules.capture matches Some(c) && mine >= c.pairs_to_win;
        let status = if wins(board, p.x as int, p.y as int, player, self.rules) || capture_win {
            Status::Win(player)
        } else if board.full() {
            Status::Draw
        } else {
            Status::InProgress
        };
        GameModel {
            board,
            status,
            history: self.history.push(
                MoveRecord { point: p, player, captured: taken, step_before: self.opening_step },
            ),
            black_captures: black,
            white_captures: white,
            to_move: opponent_of(player),
            opening_step: if self.opening_action() is PlaceStone {
                next_step(self.opening_step)
            } else {
                self.opening_step
            },
            ..self
        }
    }

    /// The game after undoing the most recent move, and the point undone.
    pub open spec fn after_undo(self) -> (GameModel, Option<Point>) {
        if self.history.len() == 0 {
            (self, None)
        } else {
            let last = self.history.last();
            let cleared = if self.board.on_board(last.point.x as int, last.point.y as int) {
                self.board.set(last.point.x as int, last.point.y as int, Cell::Empty)
            } else {
                self.board
            };
            let pairs = last.captured.len() as int / 2;
            (
                GameModel {
                    board: place_all(cleared, last.captured, opponent_of(last.player)),
                    status: Status::InProgress,
                    history: self.history.drop_last(),
                    black_captures: if last.player == Player::Black {
                        self.black_captures - pairs
                    } else {
                        self.black_captures
                    },
                    white_captures: if last.player == Player::White {
                        self.white_captures - pairs
                    } else {
                        self.white_captures
                    },
                    to_move: last.player,
                    opening_step: last.step_before,
                    ..self
                },
                Some(last.point),
            )
        }
    }

    /// The invariant every game keeps: valid rules, a board of the rules'
    /// size, capture counts that sum the recorded captures, recorded points on
    /// the board, and (with captures on) counts below the target before each
    /// recorded move and while play continues. Turns alternate from Black,
    /// each opening step is taken by the player it belongs to, offered fifth
    /// moves stay playable while the selection is pending, and without
    /// captures the board holds exactly the stones of the recorded moves.
    pub open spec fn wf(self) -> bool {
        &&& self.rules.valid()
        &&& self.board.wf()
        &&& self.board.size == self.rules.board_size
        &&& self.black_captures == pair_total(self.history, Player::Black)
        &&& self.white_captures == pair_total(self.history, Player::White)
        &&& forall|i: int| 0 <= i < self.history.len() ==> #[trigger] record_ok(self.board, self.rules, self.history[i])
        &&& self.to_move == turn_of(self.history.len() as int)
        &&& forall|i: int| 0 <= i < self.history.len() ==> (#[trigger] self.history[i]).player == turn_of(i)
        &&& turn_ok(self.rules.opening, self.opening_step, self.to_move)
        &&& selecting(self.rules.opening, self.opening_step) ==> forall|j: int|
            0 <= j < self.proposals.len() ==> self.move_error(#[trigger] self.proposals[j]) is None
        &&& self.rules.capture is None ==> {
            &&& distinct_points(self.history)
            &&& self.board.stones() == self.history.len()
            &&& forall|q: Point| self.board.on_board(q.x as int, q.y as int) ==> self.board.at(q.x as int, q.y as int)
                == #[trigger] history_cell(self.history, q)
        }
        &&& self.rules.capture matches Some(c) ==> {
            &&& forall|k: int|
                0 <= k < self.history.len() ==> pair_total(#[trigger] self.history.take(k), Player::Black)
                    < c.pairs_to_win && pair_total(self.history.take(k), Player::White) < c.pairs_to_win
            &&& self.status == Status::InProgress ==> self.black_captures < c.pairs_to_win
                && self.white_captures < c.pairs_to_win
        }
    }
}

/// The player to move after `n` moves: Black after an even number.
pub open spec fn turn_of(n: int) -> Player {
    if n % 2 == 0 {
        Player::Black
    } else {
        Player::White
    }
}

/// Whether `p` may be the player to move at step `s` of opening protocol `o`:
/// a placement step is taken by the color it places, and each decision step
/// by the player the protocol hands it to.
pub open spec fn turn_ok(o: Opening, s: u8, p: Player) -> bool {
    let black = match o {
        Opening::Pro | Opening::LongPro | Opening::Swap => s == 0 || s == 2,
        Opening::Swap2 => s == 0 || s == 2 || s == 5,
        Opening::Yamaguchi => s == 0 || s == 2 || s == 6 || s == 7,
        _ => false,
    };
    let white = match o {
        Opening::Pro | Opening::LongPro | Opening::Swap => s == 1,
        Opening::Swap2 => s == 1 || s == 3 || s == 4,
        Opening::Yamaguchi => s == 1 || s == 3 || s == 4 || s == 5,
        _ => false,
    };
    (black ==> p == Player::Black) && (white ==> p == Player::White)
}

/// Whether step `s` of protocol `o` is the Yamaguchi selection among the
/// offered fifth moves.
pub open spec fn selecting(o: Opening, s: u8) -> bool {
    o == Opening::Yamaguchi && s == 7
}

/// What a history alone says of point `q`: the stone of the latest move
/// there, or empty when no move was made there.
pub open spec fn history_cell(h: Seq<MoveRecord>, q: Point) -> Cell
    decreases h.len(),
{
    if h.len() == 0 {
        Cell::Empty
    } else if h.last().point == q {
        Cell::Stone(h.last().player)
    } else {
        history_cell(h.drop_last(), q)
    }
}

/// No two moves of a history were made on the same point.
pub open spec fn distinct_points(h: Seq<MoveRecord>) -> bool {
    forall|i: int, j: int| #![trigger h[i], h[j]] 0 <= i < j < h.len() ==> h[i].point != h[j].point
}

/// The cell a history gives a point after one more move.
pub proof fn lemma_history_cell_push(h: Seq<MoveRecord>, r: MoveRecord, q: Point)
    ensures
        history_cell(h.push(r), q) == if r.point == q {
            Cell::Stone(r.player)
        } else {
            history_cell(h, q)
        },
{
    assert(h.push(r).drop_last() =~= h);
}

/// A point some move was made on holds a stone in the history's view.
pub proof fn lemma_history_cell_hit(h: Seq<MoveRecord>, i: int, q: Point)
    requires
        0 <= i < h.len(),
        h[i].point == q,
    ensures
        history_cell(h, q) is Stone,
    decreases h.len(),
{
    if h.last().point != q {
        assert(h.drop_last()[i] == h[i]);
        lemma_history_cell_hit(h.drop_last(), i, q);
    }
}

/// A point that holds a stone in the history's view had a move made on it.
pub proof fn lemma_history_cell_miss(h: Seq<MoveRecord>, q: Point)
    requires
        history_cell(h, q) is Stone,
    ensures
        exists|k: int| 0 <= k < h.len() && h[k].point == q,
    decreases h.len(),
{
    if h.last().point != q {
        lemma_history_cell_miss(h.drop_last(), q);
        let k = choose|k: int| 0 <= k < h.drop_last().len() && h.drop_last()[k].point == q;
        assert(h[k] == h.drop_last()[k]);
    } else {
        assert(h[h.len() - 1].point == q);
    }
}

/// In a history without repeated points, a move's point holds that move's
/// stone.
pub proof fn lemma_history_cell_own(h: Seq<MoveRecord>, i: int)
    requires
        0 <= i < h.len(),
        distinct_points(h),
    ensures
        history_cell(h, h[i].point) == Cell::Stone(h[i].player),
    decreases h.len(),
{
    if i < h.len() - 1 {
        assert(h[i].point != h[h.len() - 1].point);
        let d = h.drop_last();
        assert(d[i] == h[i]);
        assert forall|a: int, b: int| #![trigger d[a], d[b]] 0 <= a < b < d.len() implies d[a].point != d[b].point by {
            assert(d[a] == h[a] && d[b] == h[b]);
        }
        lemma_history_cell_own(d, i);
    }
}

/// A recorded move lies on the board, and its captures are on the board, at
/// most eight pairs, and none without capturing rules. It was made at a step
/// its player could move at, and never during a fifth-move selection.
pub open spec fn record_ok(b: BoardModel, rules: RuleSet, r: MoveRecord) -> bool {
    &&& turn_ok(rules.opening, r.step_before, r.player)
    &&& !selecting(rules.opening, r.step_before)
    &&& b.on_board(r.point.x as int, r.point.y as int)
    &&& r.captured.len() <= 16
    &&& rules.capture is None ==> r.captured.len() == 0
    &&& forall|j: int| 0 <= j < r.captured.len() ==> b.on_board(#[trigger] r.captured[j].x as int, r.captured[j].y as int)
}

/// The board with `p`'s stones on every listed point, in order.
pub open spec fn place_all(b: BoardModel, pts: Seq<Point>, p: Player) -> BoardModel
    decreases pts.len(),
{
    if pts.len() == 0 {
        b
    } else {
        place_all(b, pts.drop_last(), p).set(pts.last().x as int, pts.last().y as int, Cell::Stone(p))
    }
}

/// The game at the start: an empty board, Black to move, nothing recorded.
pub open spec fn initial_game(rules: RuleSet) -> GameModel {
    GameModel {
        rules,
        board: BoardModel::empty(rules.board_size as int),
        to_move: Player::Black,
        status: Status::InProgress,
        history: Seq::empty(),
        black_captures: 0,
        white_captures: 0,
        opening_step: 0,
        opening_count: 0,
        proposals: Seq::empty(),
        color_choice: None,
    }
}

/// What a point holds after placing stones on a list of on-board points.
pub proof fn lemma_place_all(b: BoardModel, pts: Seq<Point>, p: Player)
    requires
        b.wf(),
        forall|i: int| 0 <= i < pts.len() ==> b.on_board(#[trigger] pts[i].x as int, pts[i].y as int),
    ensures
        place_all(b, pts, p).wf(),
        place_all(b, pts, p).size == b.size,
        forall|x: int, y: int| #[trigger] place_all(b, pts, p).at(x, y) == if pts.contains(
            Point { x: x as u8, y: y as u8 },
        ) && b.on_board(x, y) {
            Cell::Stone(p)
        } else {
            b.at(x, y)
        },
    decreases pts.len(),
{
    if pts.len() > 0 {
        let q = pts.drop_last();
        assert forall|i: int| 0 <= i < q.len() implies b.on_board(#[trigger] q[i].x as int, q[i].y as int) by {
            assert(q[i] == pts[i]);
        }
        lemma_place_all(b, q, p);
        assert(b.on_board(pts[pts.len() - 1].x as int, pts[pts.len() - 1].y as int));
        assert forall|x: int, y: int| #[trigger] place_all(b, pts, p).at(x, y) == if pts.contains(
            Point { x: x as u8, y: y as u8 },
        ) && b.on_board(x, y) {
            Cell::Stone(p)
        } else {
            b.at(x, y)
        } by {
            let pt = Point { x: x as u8, y: y as u8 };
            if pts.contains(pt) && b.on_board(x, y) {
                let i = choose|i: int| 0 <= i < pts.len() && pts[i] == pt;
                if i < pts.len() - 1 {
                    assert(q[i] == pt);
                }
            }
            if q.contains(pt) {
                let i = choose|i: int| 0 <= i < q.len() && q[i] == pt;
                assert(pts[i] == pt);
            }
        }
    }
}

/// The board restored by undoing a legal move is the board before it.
proof fn lemma_undo_board(g: GameModel, p: Point)
    requires
        g.wf(),
        g.legality_error(p) is None,
    ensures
        ({
            let b = g.board_after(p);
            place_all(b.set(p.x as int, p.y as int, Cell::Empty), g.captures_by(p), opponent_of(g.to_move))
                == g.board
        }),
        g.board_after(p).wf(),
        g.board_after(p).size == g.board.size,
{
    let player = g.to_move;
    let opp = opponent_of(player);
    let placed = g.placed(p);
    let taken = g.captures_by(p);
    let b = g.board_after(p);
    let cleared = b.set(p.x as int, p.y as int, Cell::Empty);
    if g.rules.capture is Some {
        lemma_captured_on_board(placed, p, player, 8);
        lemma_remove_all(placed, taken);
    }
    assert forall|i: int| 0 <= i < taken.len() implies cleared.on_board(#[trigger] taken[i].x as int, taken[i].y as int) by {
    }
    lemma_place_all(cleared, taken, opp);
    let r = place_all(cleared, taken, opp);
    assert forall|x: int, y: int| r.on_board(x, y) implies #[trigger] r.at(x, y) == g.board.at(x, y) by {
        let pt = Point { x: x as u8, y: y as u8 };
        if taken.contains(pt) {
            let i = choose|i: int| 0 <= i < taken.len() && taken[i] == pt;
            assert(placed.at(taken[i].x as int, taken[i].y as int) == Cell::Stone(opp));
        }
    }
    lemma_board_ext(r, g.board);
}

/// Undoing a legal move restores the game exactly as it was before the move,
/// and reports the move's point.
pub proof fn lemma_undo_after_play(g: GameModel, p: Point)
    requires
        g.wf(),
        g.legality_error(p) is None,
    ensures
        g.after_play(p).after_undo() == (g, Some(p)),
{
    lemma_undo_board(g, p);
    let g1 = g.after_play(p);
    let (g2, r) = g1.after_undo();
    assert(g1.history.last() == MoveRecord {
        point: p,
        player: g.to_move,
        captured: g.captures_by(p),
        step_before: g.opening_step,
    });
    assert(g1.history.drop_last() =~= g.history);
    assert(g2.board == g.board);
    assert(g2.history == g.history);
    assert(g2 == g);
}

/// Capture totals are sums of non-negative pair counts.
pub proof fn lemma_pair_total_nonneg(h: Seq<MoveRecord>, p: Player)
    ensures
        pair_total(h, p) >= 0,
    decreases h.len(),
{
    if h.len() > 0 {
        lemma_pair_total_nonneg(h.drop_last(), p);
    }
}

/// The total over a history extended by one record.
pub proof fn lemma_pair_total_push(h: Seq<MoveRecord>, r: MoveRecord, p: Player)
    ensures
        pair_total(h.push(r), p) == pair_total(h, p) + if r.player == p {
            r.captured.len() as int / 2
        } else {
            0int
        },
{
    assert(h.push(r).drop_last() =~= h);
}

/// A legal move keeps the game invariant.
pub proof fn lemma_play_wf(g: GameModel, p: Point)
    requires
        g.wf(),
        g.legality_error(p) is None,
    ensures
        g.after_play(p).wf(),
{
    lemma_undo_board(g, p);
    let g1 = g.after_play(p);
    let rec = MoveRecord {
        point: p,
        player: g.to_move,
        captured: g.captures_by(p),
        step_before: g.opening_step,
    };
    assert(g1.history == g.history.push(rec));
    lemma_pair_total_push(g.history, rec, Player::Black);
    lemma_pair_total_push(g.history, rec, Player::White);
    if g.rules.capture is Some {
        lemma_captured_upto(g.placed(p), p, g.to_move, 8);
        lemma_captured_on_board(g.placed(p), p, g.to_move, 8);
    }
    assert forall|i: int| 0 <= i < g1.history.len() implies #[trigger] record_ok(g1.board, g1.rules, g1.history[i]) by {
        if i < g.history.len() {
            assert(record_ok(g.board, g.rules, g.history[i]));
            assert(g1.history[i] == g.history[i]);
        }
    }
    if let Some(c) = g.rules.capture {
        assert forall|k: int| 0 <= k < g1.history.len() implies pair_total(
            #[trigger] g1.history.take(k),
            Player::Black,
        ) < c.pairs_to_win && pair_total(g1.history.take(k), Player::White) < c.pairs_to_win by {
            if k < g.history.len() {
                assert(g1.history.take(k) =~= g.history.take(k));
            } else {
                assert(g1.history.take(k) =~= g.history);
            }
        }
    }
    assert forall|i: int| 0 <= i < g1.history.len() implies (#[trigger] g1.history[i]).player == turn_of(i) by {
        if i < g.history.len() {
            assert(g1.history[i] == g.history[i]);
        }
    }
    if g.rules.capture is None {
        let b = g.board;
        let h = g.history;
        assert(b.at(p.x as int, p.y as int) == Cell::Empty);
        assert(b.at(p.x as int, p.y as int) == history_cell(h, p));
        assert forall|i: int, j: int| #![trigger g1.history[i], g1.history[j]] 0 <= i < j < g1.history.len()
            implies g1.history[i].point != g1.history[j].point by {
            assert(g1.history[i] == h[i]);
            if j == h.len() {
                if h[i].point == p {
                    lemma_history_cell_hit(h, i, p);
                }
            } else {
                assert(g1.history[j] == h[j]);
            }
        }
        crate::board::lemma_stones_set(b, p.x as int, p.y as int, Cell::Stone(g.to_move));
        assert forall|q: Point| g1.board.on_board(q.x as int, q.y as int) implies g1.board.at(
            q.x as int,
            q.y as int,
        ) == #[trigger] history_cell(g1.history, q) by {
            lemma_history_cell_push(h, rec, q);
            assert(b.at(q.x as int, q.y as int) == history_cell(h, q));
        }
    }
}

/// Undoing a move keeps the game invariant.
pub proof fn lemma_undo_wf(g: GameModel)
    requires
        g.wf(),
    ensures
        g.after_undo().0.wf(),
{
    if g.history.len() > 0 {
        let h = g.history;
        let last = h.last();
        assert(record_ok(g.board, g.rules, h[h.len() - 1]));
        let cleared = g.board.set(last.point.x as int, last.point.y as int, Cell::Empty);
        assert forall|i: int| 0 <= i < last.captured.len() implies cleared.on_board(
            #[trigger] last.captured[i].x as int,
            last.captured[i].y as int,
        ) by {}
        lemma_place_all(cleared, last.captured, opponent_of(last.player));
        let g1 = g.after_undo().0;
        assert(h.drop_last().push(last) =~= h);
        lemma_pair_total_push(h.drop_last(), last, Player::Black);
        lemma_pair_total_push(h.drop_last(), last, Player::White);
        assert forall|i: int| 0 <= i < g1.history.len() implies #[trigger] record_ok(g1.board, g1.rules, g1.history[i]) by {
            assert(record_ok(g.board, g.rules, g.history[i]));
        }
        assert(last.player == turn_of(h.len() - 1));
        assert forall|i: int| 0 <= i < g1.history.len() implies (#[trigger] g1.history[i]).player == turn_of(i) by {
            assert(g1.history[i] == h[i]);
        }
        if g.rules.capture is None {
            let d = h.drop_last();
            let b = g.board;
            assert(last.captured.len() == 0);
            assert(g1.board == cleared);
            assert forall|i: int, j: int| #![trigger d[i], d[j]] 0 <= i < j < d.len() implies d[i].point
                != d[j].point by {
                assert(d[i] == h[i] && d[j] == h[j]);
            }
            lemma_history_cell_own(h, h.len() - 1);
            assert(b.at(last.point.x as int, last.point.y as int) == history_cell(h, last.point));
            crate::board::lemma_stones_set(b, last.point.x as int, last.point.y as int, Cell::Empty);
            assert forall|q: Point| g1.board.on_board(q.x as int, q.y as int) implies g1.board.at(
                q.x as int,
                q.y as int,
            ) == #[trigger] history_cell(g1.history, q) by {
                assert(d.push(last) =~= h);
                lemma_history_cell_push(d, last, q);
                assert(b.at(q.x as int, q.y as int) == history_cell(h, q));
                if q == last.point {
                    if history_cell(d, q) is Stone {
                        lemma_history_cell_miss(d, q);
                        let k = choose|k: int| 0 <= k < d.len() && d[k].point == q;
                        assert(h[k] == d[k]);
                        assert(h[k].point != h[h.len() - 1].point);
                    }
                }
            }
        }
        if let Some(c) = g.rules.capture {
            assert(h.take(h.len() - 1) =~= h.drop_last());
            assert(pair_total(h.take(h.len() - 1), Player::Black) < c.pairs_to_win);
            assert forall|k: int| 0 <= k < g1.history.len() implies pair_total(
                #[trigger] g1.history.take(k),
                Player::Black,
            ) < c.pairs_to_win && pair_total(g1.history.take(k), Player::White) < c.pairs_to_win by {
                assert(g1.history.take(k) =~= h.take(k));
            }
        }
    }
}

/// The legal points among the first `n` points of the board in row-major order.
pub open spec fn legal_upto(g: GameModel, n: int) -> Seq<Point>
    decreases n,
{
    if n <= 0 {
        Seq::empty()
    } else {
        legal_upto(g, n - 1) + if g.is_legal(point_at_index(g.board.size, n - 1)) {
            seq![point_at_index(g.board.size, n - 1)]
        } else {
            Seq::empty()
        }
    }
}

/// A legal point is an empty point of the board, in a game still in
/// progress; for Black under forbidden-move rules it is not forbidden.
pub proof fn lemma_legal_on_board(g: GameModel, q: Point)
    requires
        g.is_legal(q),
    ensures
        g.board.on_board(q.x as int, q.y as int),
        g.board.at(q.x as int, q.y as int) == Cell::Empty,
        g.status == Status::InProgress,
        g.rules.forbidden_black && g.to_move == Player::Black ==> forbidden_at(g.board, q, 0) is None,
{
}

/// Forbidden-move rules never restrict White: White's moves are refused only
/// for being off the board, on a stone, after the game, or by the opening.
pub proof fn lemma_white_unrestricted(g: GameModel, q: Point)
    requires
        g.to_move == Player::White,
    ensures
        !(g.legality_error(q) matches Some(MoveError::Forbidden(_))),
{
}

/// The legal points among the first `n` row-major points are the legal
/// points with a position below `n`.
pub proof fn lemma_legal_upto_contains(g: GameModel, n: int, q: Point)
    ensures
        legal_upto(g, n).contains(q) <==> (g.is_legal(q) && exists|i: int|
            0 <= i < n && #[trigger] point_at_index(g.board.size, i) == q),
    decreases n,
{
    if n > 0 {
        lemma_legal_upto_contains(g, n - 1, q);
        let last = point_at_index(g.board.size, n - 1);
        let prev = legal_upto(g, n - 1);
        let tail = if g.is_legal(last) {
            seq![last]
        } else {
            Seq::empty()
        };
        if legal_upto(g, n).contains(q) {
            let k = choose|k: int| 0 <= k < legal_upto(g, n).len() && legal_upto(g, n)[k] == q;
            if k >= prev.len() {
                assert(tail[k - prev.len()] == q);
            } else {
                assert(prev[k] == q);
            }
        }
        if g.is_legal(q) && exists|i: int| 0 <= i < n && #[trigger] point_at_index(g.board.size, i) == q {
            let i = choose|i: int| 0 <= i < n && #[trigger] point_at_index(g.board.size, i) == q;
            if i == n - 1 {
                assert(legal_upto(g, n)[prev.len() as int] == q);
            } else {
                let k = choose|k: int| 0 <= k < prev.len() && prev[k] == q;
                assert(legal_upto(g, n)[k] == q);
            }
        }
    }
}

/// A point is among the legal moves exactly when the current player may
/// legally play it.
pub proof fn lemma_legal_moves_exact(g: GameModel, q: Point)
    requires
        g.wf(),
    ensures
        legal_upto(g, g.board.size * g.board.size).contains(q) <==> g.is_legal(q),
{
    let n = g.board.size;
    lemma_legal_upto_contains(g, n * n, q);
    if g.is_legal(q) {
        lemma_legal_on_board(g, q);
        let i = q.y * n + q.x;
        crate::board::lemma_index_bounds(n, q.x as int, q.y as int);
        crate::board::lemma_div_mod_of(n, q.x as int, q.y as int);
        assert(point_at_index(n, i) == q);
    }
}

/// A copy of a list of points.
fn copy_points(v: &Vec<Point>) -> (r: Vec<Point>)
    ensures
        r@ == v@,
{
    let mut r: Vec<Point> = Vec::new();
    let mut i: usize = 0;
    while i < v.len()
        invariant
            i <= v@.len(),
            r@ == v@.take(i as int),
        decreases v@.len() - i,
    {
        r.push(v[i]);
        i = i + 1;
        assert(r@ =~= v@.take(i as int));
    }
    assert(v@.take(i as int) =~= v@);
    r
}

/// Put `p`'s stones back on every listed on-board point, in order.
fn restore_stones(board: &mut Board, pts: &Vec<Point>, p: Player)
    requires
        old(board).wf(),
        forall|j: int| 0 <= j < pts@.len() ==> old(board)@.on_board(#[trigger] pts@[j].x as int, pts@[j].y as int),
    ensures
        final(board).wf(),
        final(board)@ == place_all(old(board)@, pts@, p),
{
    let ghost b0 = board@;
    let mut i: usize = 0;
    while i < pts.len()
        invariant
            board.wf(),
            b0.wf(),
            board@.size == b0.size,
            forall|j: int| 0 <= j < pts@.len() ==> b0.on_board(#[trigger] pts@[j].x as int, pts@[j].y as int),
            i <= pts@.len(),
            board@ == place_all(b0, pts@.take(i as int), p),
        decreases pts@.len() - i,
    {
        let c = pts[i];
        assert(b0.on_board(pts@[i as int].x as int, pts@[i as int].y as int));
        board.place(p, c);
        i = i + 1;
        proof {
            let t = pts@.take(i as int);
            assert(t.drop_last() =~= pts@.take(i - 1));
            assert(t.last() == c);
        }
    }
    proof {
        assert(pts@.take(i as int) =~= pts@);
    }
}

/// Whether `p` is among the first `n` points of `v`.
fn contains_point(v: &[Point], n: usize, p: Point) -> (r: bool)
    requires
        n <= v@.len(),
    ensures
        r == v@.take(n as int).contains(p),
{
    let mut i: usize = 0;
    while i < n
        invariant
            n <= v@.len(),
            i <= n,
            forall|j: int| 0 <= j < i ==> v@[j] != p,
        decreases n - i,
    {
        if v[i] == p {
            assert(v@.take(n as int)[i as int] == p);
            return true;
        }
        i = i + 1;
    }
    assert forall|j: int| 0 <= j < n implies v@.take(n as int)[j] != p by {}
    false
}

/// A single game of gomoku under a fixed [`RuleSet`].
#[derive(Clone, Debug)]
pub struct Game {
    rules: RuleSet,
    board: Board,
    to_move: Player,
    status: Status,
    history: Vec<PlayedMove>,
    black_captures: u16,
    white_captures: u16,
    opening_step: u8,
    opening_count: u8,
    opening_proposals: Vec<Point>,
    opening_color_choice: Option<Player>,
}

impl View for Game {
    type V = GameModel;

    closed spec fn view(&self) -> GameModel {
        GameModel {
            rules: self.rules,
            board: self.board@,
            to_move: self.to_move,
            status: self.status,
            history: self.history@.map_values(|m: PlayedMove| m@),
            black_captures: self.black_captures as int,
            white_captures: self.white_captures as int,
            opening_step: self.opening_step,
            opening_count: self.opening_count,
            proposals: self.opening_proposals@,
            color_choice: self.opening_color_choice,
        }
    }
}

/// The model of a game after an opening decision changes its opening fields.
pub open spec fn with_opening(g: GameModel, step: u8, count: u8, proposals: Seq<Point>, choice: Option<Player>) -> GameModel {
    GameModel { opening_step: step, opening_count: count, proposals, color_choice: choice, ..g }
}

/// The first rejected proposal at or after position `i`: a repeat of an
/// earlier point, or a point the current player may not play.
pub open spec fn proposal_error(g: GameModel, pts: Seq<Point>, i: int) -> Option<MoveError>
    decreases pts.len() - i,
{
    if i < 0 || i >= pts.len() {
        None
    } else if pts.take(i).contains(pts[i]) {
        Some(MoveError::Opening(OpeningError::DuplicateProposal))
    } else if g.move_error(pts[i]) is Some {
        g.move_error(pts[i])
    } else {
        proposal_error(g, pts, i + 1)
    }
}

impl Game {
    /// The game invariant holds.
    pub open spec fn wf(&self) -> bool {
        self@.wf()
    }

    /// Start a new game under `rules`, validating the configuration first.
    pub fn try_new(rules: RuleSet) -> (r: Result<Game, RuleSetError>)
        ensures
            match rules_error(rules) {
                Some(e) => r == Err::<Game, RuleSetError>(e),
                None => r matches Ok(g) && g.wf() && g@ == initial_game(rules),
            },
    {
        match rules.validate() {
            Err(e) => Err(e),
            Ok(()) => Ok(Game::new(rules)),
        }
    }

    /// Start a new game under valid `rules`. Black moves first.
    pub fn new(rules: RuleSet) -> (g: Game)
        requires
            rules.valid(),
        ensures
            g.wf(),
            g@ == initial_game(rules),
    {
        let g = Game {
            board: Board::new(rules.board_size),
            rules,
            to_move: Player::Black,
            status: Status::InProgress,
            history: Vec::new(),
            black_captures: 0,
            white_captures: 0,
            opening_step: 0,
            opening_count: 0,
            opening_proposals: Vec::new(),
            opening_color_choice: None,
        };
        assert(g@.history =~= Seq::<MoveRecord>::empty());
        assert(g@ == initial_game(rules));
        proof {
            lemma_initial_wf(rules);
        }
        g
    }

    /// The rules in force.
    pub fn rules(&self) -> (r: &RuleSet)
        ensures
            *r == self@.rules,
    {
        &self.rules
    }

    /// The board.
    pub fn board(&self) -> (b: &Board)
        requires
            self.wf(),
        ensures
            b@ == self@.board,
            b.wf(),
    {
        &self.board
    }

    /// Whose turn it is.
    pub fn to_move(&self) -> (p: Player)
        ensures
            p == self@.to_move,
    {
        self.to_move
    }

    /// Current status.
    pub fn status(&self) -> (s: Status)
        ensures
            s == self@.status,
    {
        self.status
    }

    /// Number of pairs `player` has captured (always 0 unless capturing is on).
    pub fn captures(&self, player: Player) -> (n: u16)
        ensures
            n == self@.captures_of(player),
    {
        match player {
            Player::Black => self.black_captures,
            Player::White => self.white_captures,
        }
    }

    /// The winner, if the game has been won.
    pub fn winner(&self) -> (w: Option<Player>)
        ensures
            w == match self@.status {
                Status::Win(p) => Some(p),
                _ => None::<Player>,
            },
    {
        match self.status {
            Status::Win(p) => Some(p),
            _ => None,
        }
    }

    /// Number of moves played so far.
    pub fn move_count(&self) -> (n: usize)
        ensures
            n == self@.history.len(),
    {
        self.history.len()
    }

    /// The points played so far, in order.
    pub fn moves(&self) -> (v: Vec<Point>)
        ensures
            v@.len() == self@.history.len(),
            forall|i: int| 0 <= i < v@.len() ==> #[trigger] v@[i] == self@.history[i].point,
    {
        let mut v: Vec<Point> = Vec::new();
        let mut i: usize = 0;
        while i < self.history.len()
            invariant
                i <= self.history@.len(),
                v@.len() == i,
                forall|j: int| 0 <= j < i ==> #[trigger] v@[j] == self@.history[j].point,
            decreases self.history@.len() - i,
        {
            v.push(self.history[i].point);
            i = i + 1;
        }
        v
    }

    /// Pro / Long Pro share a sequence differing only in the stone-3 distance.
    fn pro_action(&self, distance: u8) -> (r: OpeningAction)
        ensures
            r@ == pro_action(self@.opening_step, distance),
    {
        match self.opening_step {
            0 => OpeningAction::PlaceStone { color: Player::Black, constraint: Constraint::Center },
            1 => OpeningAction::PlaceStone { color: Player::White, constraint: Constraint::Anywhere },
            2 => OpeningAction::PlaceStone {
                color: Player::Black,
                constraint: Constraint::MinDistance(distance),
            },
            _ => OpeningAction::NoAction,
        }
    }

    /// What the active opening protocol expects next; [`OpeningAction::NoAction`]
    /// once the opening is over (or for free openings).
    pub fn opening_action(&self) -> (r: OpeningAction)
        ensures
            r@ == self@.opening_action(),
    {
        let place_black = OpeningAction::PlaceStone { color: Player::Black, constraint: Constraint::Anywhere };
        let place_white = OpeningAction::PlaceStone { color: Player::White, constraint: Constraint::Anywhere };
        let s = self.opening_step;
        match self.rules.opening {
            Opening::Free | Opening::FreeRenju => OpeningAction::NoAction,
            Opening::Pro => self.pro_action(3),
            Opening::LongPro => self.pro_action(4),
            Opening::Swap => {
                if s == 0 || s == 2 {
                    place_black
                } else if s == 1 {
                    place_white
                } else if s == 3 {
                    OpeningAction::ChooseColor
                } else {
                    OpeningAction::NoAction
                }
            },
            Opening::Swap2 => {
                if s == 0 || s == 2 || s == 5 {
                    place_black
                } else if s == 1 || s == 4 {
                    place_white
                } else if s == 3 {
                    OpeningAction::Swap2Decision
                } else if s == 6 {
                    OpeningAction::ChooseColor
                } else {
                    OpeningAction::NoAction
                }
            },
            Opening::Yamaguchi => {
                if s == 0 || s == 2 {
                    place_black
                } else if s == 1 || s == 5 {
                    place_white
                } else if s == 3 {
                    OpeningAction::AnnounceCount
                } else if s == 4 {
                    OpeningAction::ChooseColor
                } else if s == 6 {
                    OpeningAction::ProposeFifths { count: self.opening_count }
                } else if s == 7 {
                    OpeningAction::SelectFifth { options: copy_points(&self.opening_proposals) }
                } else {
                    OpeningAction::NoAction
                }
            },
        }
    }

    /// The color chosen by a swap-style decision, if one has been made.
    pub fn opening_color_choice(&self) -> (c: Option<Player>)
        ensures
            c == self@.color_choice,
    {
        self.opening_color_choice
    }

    /// Bounds / occupancy / Renju-forbidden check, ignoring opening sequencing.
    fn move_playable(&self, p: Point) -> (r: Result<(), MoveError>)
        requires
            self.wf(),
        ensures
            r == match self@.move_error(p) {
                Some(e) => Err::<(), MoveError>(e),
                None => Ok(()),
            },
    {
        if self.status.is_over() {
            return Err(MoveError::GameOver);
        }
        if !self.board.in_bounds(p) {
            return Err(MoveError::OutOfBounds(p));
        }
        if !self.board.is_empty(p) {
            return Err(MoveError::Occupied(p));
        }
        if self.rules.forbidden_black && self.to_move == Player::Black {
            if let Some(kind) = forbidden(&self.board, p) {
                return Err(MoveError::Forbidden(kind));
            }
        }
        Ok(())
    }

    /// Validate a move for the current player without changing the game,
    /// opening-protocol gating included.
    fn check_legal(&self, p: Point) -> (r: Result<(), MoveError>)
        requires
            self.wf(),
        ensures
            r == match self@.legality_error(p) {
                Some(e) => Err::<(), MoveError>(e),
                None => Ok(()),
            },
    {
        match self.opening_action() {
            OpeningAction::NoAction => {},
            OpeningAction::PlaceStone { constraint, .. } => {
                if !constraint.allows(p, self.board.center()) {
                    return Err(MoveError::Opening(OpeningError::PlacementRestricted));
                }
            },
            _ => return Err(MoveError::Opening(OpeningError::DecisionRequired)),
        }
        self.move_playable(p)
    }

    /// Whether the current player may legally play at `p`.
    pub fn is_legal(&self, p: Point) -> (r: bool)
        requires
            self.wf(),
        ensures
            r == self@.is_legal(p),
    {
        self.check_legal(p).is_ok()
    }

    /// All points the current player may legally play, in row-major order
    /// from the bottom-left. Empty when the game is over or an opening
    /// decision is pending; for Renju this excludes Black's forbidden points.
    pub fn legal_moves(&self) -> (v: Vec<Point>)
        requires
            self.wf(),
        ensures
            v@ == legal_upto(self@, self@.board.size * self@.board.size),
    {
        if self.status.is_over() {
            proof {
                lemma_no_legal_when_over(self@, self@.board.size * self@.board.size);
            }
            return Vec::new();
        }
        let pts = self.board.points();
        let mut v: Vec<Point> = Vec::new();
        let mut i: usize = 0;
        while i < pts.len()
            invariant
                self.wf(),
                pts@.len() == self@.board.size * self@.board.size,
                forall|j: int| 0 <= j < pts@.len() ==> #[trigger] pts@[j] == point_at_index(self@.board.size, j),
                i <= pts@.len(),
                v@ == legal_upto(self@, i as int),
            decreases pts@.len() - i,
        {
            let p = pts[i];
            if self.is_legal(p) {
                v.push(p);
            }
            i = i + 1;
            assert(v@ =~= legal_upto(self@, i as int));
        }
        v
    }

    /// Play a stone for the current player at `p`.
    ///
    /// On success the stone is placed, captures (if any) are resolved, the
    /// game status is updated, and the turn passes to the opponent. On error
    /// the game is unchanged.
    pub fn play(&mut self, p: Point) -> (r: Result<MoveOutcome, MoveError>)
        requires
            old(self).wf(),
        ensures
            final(self).wf(),
            match old(self)@.legality_error(p) {
                Some(e) => r == Err::<MoveOutcome, MoveError>(e) && final(self)@ == old(self)@,
                None => r matches Ok(out) && final(self)@ == old(self)@.after_play(p)
                    && out.captured@ == old(self)@.captures_by(p) && out.status == final(self)@.status,
            },
    {
        match self.check_legal(p) {
            Err(e) => return Err(e),
            Ok(()) => {},
        }
        let ghost g = self@;
        proof {
            lemma_play_wf(g, p);
            lemma_undo_board(g, p);
        }
        let was_opening_place = match self.opening_action() {
            OpeningAction::PlaceStone { .. } => true,
            _ => false,
        };
        let opening_step_before = self.opening_step;
        let player = self.to_move;
        self.board.place(player, p);
        let captured = if self.rules.capture.is_some() {
            resolve(&mut self.board, p, player)
        } else {
            Vec::new()
        };
        proof {
            if g.rules.capture is Some {
                lemma_captured_upto(g.placed(p), p, player, 8);
            }
            lemma_pair_total_nonneg(g.history, player);
        }
        let pairs: u16 = (captured.len() / 2) as u16;
        let mine: u16 = match player {
            Player::Black => {
                self.black_captures = self.black_captures + pairs;
                self.black_captures
            },
            Player::White => {
                self.white_captures = self.white_captures + pairs;
                self.white_captures
            },
        };
        let capture_win = match self.rules.capture {
            Some(c) => mine >= c.pairs_to_win as u16,
            None => false,
        };
        self.status = if is_win(&self.board, p, player, &self.rules) || capture_win {
            Status::Win(player)
        } else if self.board.is_full() {
            Status::Draw
        } else {
            Status::InProgress
        };
        let record = PlayedMove {
            point: p,
            player,
            captured: copy_points(&captured),
            opening_step_before,
        };
        self.history.push(record);
        self.to_move = player.opponent();
        if was_opening_place {
            self.opening_step = self.opening_step.saturating_add(1);
        }
        proof {
            assert(self@.history =~= g.history.push(record@));
            assert(self@ == g.after_play(p));
        }
        Ok(MoveOutcome { status: self.status, captured })
    }

    /// Undo the most recent move, restoring any captured stones and the turn.
    /// Returns the point that was undone, or `None` if no moves had been made.
    pub fn undo(&mut self) -> (r: Option<Point>)
        requires
            old(self).wf(),
        ensures
            final(self).wf(),
            (final(self)@, r) == old(self)@.after_undo(),
    {
        let ghost g = self@;
        proof {
            lemma_undo_wf(g);
        }
        let last = match self.history.pop() {
            Some(m) => m,
            None => {
                return None;
            },
        };
        proof {
            assert(g.history.last() == last@);
            assert(record_ok(g.board, g.rules, g.history[g.history.len() - 1]));
            lemma_pair_total_push(g.history.drop_last(), last@, last.player);
            assert(g.history.drop_last().push(last@) =~= g.history);
            lemma_pair_total_nonneg(g.history.drop_last(), last.player);
        }
        self.board.clear(last.point);
        let opp = last.player.opponent();
        proof {
            assert(last@.captured == last.captured@);
        }
        restore_stones(&mut self.board, &last.captured, opp);
        let pairs: u16 = (last.captured.len() / 2) as u16;
        proof {
            assert(pairs == last@.captured.len() as int / 2);
            assert(g.captures_of(last.player) == pair_total(g.history, last.player));
            assert(pair_total(g.history, last.player) == pair_total(g.history.drop_last(), last.player) + pairs);
        }
        match last.player {
            Player::Black => self.black_captures = self.black_captures - pairs,
            Player::White => self.white_captures = self.white_captures - pairs,
        }
        self.opening_step = last.opening_step_before;
        self.to_move = last.player;
        self.status = Status::InProgress;
        proof {
            assert(self@.history.len() == g.history.drop_last().len());
            assert forall|k: int| 0 <= k < self@.history.len() implies self@.history[k] == g.history.drop_last()[k] by {
                assert(self.history@[k] == old(self).history@[k]);
            }
            assert(self@.history =~= g.history.drop_last());
            assert(self@ == g.after_undo().0);
        }
        Some(last.point)
    }

    /// Choose which color to continue as, for a swap-style opening decision.
    pub fn choose_color(&mut self, color: Player) -> (r: Result<(), MoveError>)
        requires
            old(self).wf(),
        ensures
            final(self).wf(),
            if old(self)@.opening_action() is ChooseColor {
                r == Ok::<(), MoveError>(()) && final(self)@ == with_opening(
                    old(self)@,
                    next_step(old(self)@.opening_step),
                    old(self)@.opening_count,
                    old(self)@.proposals,
                    Some(color),
                )
            } else {
                r == Err::<(), MoveError>(MoveError::Opening(OpeningError::UnexpectedColorChoice))
                    && final(self)@ == old(self)@
            },
    {
        match self.opening_action() {
            OpeningAction::ChooseColor => {},
            _ => return Err(MoveError::Opening(OpeningError::UnexpectedColorChoice)),
        }
        self.opening_color_choice = Some(color);
        self.opening_step = self.opening_step.saturating_add(1);
        Ok(())
    }

    /// Make the Swap2 three-way decision.
    pub fn swap2_decision(&mut self, choice: Swap2Choice) -> (r: Result<(), MoveError>)
        requires
            old(self).wf(),
        ensures
            final(self).wf(),
            if old(self)@.opening_action() is Swap2Decision {
                r == Ok::<(), MoveError>(()) && final(self)@ == match choice {
                    Swap2Choice::PlayWhite => with_opening(
                        old(self)@,
                        OPENING_DONE,
                        old(self)@.opening_count,
                        old(self)@.proposals,
                        Some(Player::White),
                    ),
                    Swap2Choice::SwapToBlack => with_opening(
                        old(self)@,
                        OPENING_DONE,
                        old(self)@.opening_count,
                        old(self)@.proposals,
                        Some(Player::Black),
                    ),
                    Swap2Choice::PlaceTwoMore => with_opening(
                        old(self)@,
                        4,
                        old(self)@.opening_count,
                        old(self)@.proposals,
                        old(self)@.color_choice,
                    ),
                }
            } else {
                r == Err::<(), MoveError>(MoveError::Opening(OpeningError::UnexpectedSwap2Decision))
                    && final(self)@ == old(self)@
            },
    {
        match self.opening_action() {
            OpeningAction::Swap2Decision => {},
            _ => return Err(MoveError::Opening(OpeningError::UnexpectedSwap2Decision)),
        }
        match choice {
            Swap2Choice::PlayWhite => {
                self.opening_color_choice = Some(Player::White);
                self.opening_step = OPENING_DONE;
            },
            Swap2Choice::SwapToBlack => {
                self.opening_color_choice = Some(Player::Black);
                self.opening_step = OPENING_DONE;
            },
            Swap2Choice::PlaceTwoMore => self.opening_step = 4,
        }
        Ok(())
    }

    /// Yamaguchi: announce how many candidate 5th moves Black will offer.
    pub fn announce_fifth_count(&mut self, count: u8) -> (r: Result<(), MoveError>)
        requires
            old(self).wf(),
        ensures
            final(self).wf(),
            if !(old(self)@.opening_action() is AnnounceCount) {
                r == Err::<(), MoveError>(MoveError::Opening(OpeningError::UnexpectedAnnouncement))
                    && final(self)@ == old(self)@
            } else if count == 0 {
                r == Err::<(), MoveError>(MoveError::Opening(OpeningError::ZeroCount)) && final(self)@
                    == old(self)@
            } else {
                r == Ok::<(), MoveError>(()) && final(self)@ == with_opening(
                    old(self)@,
                    next_step(old(self)@.opening_step),
                    count,
                    old(self)@.proposals,
                    old(self)@.color_choice,
                )
            },
    {
        match self.opening_action() {
            OpeningAction::AnnounceCount => {},
            _ => return Err(MoveError::Opening(OpeningError::UnexpectedAnnouncement)),
        }
        if count == 0 {
            return Err(MoveError::Opening(OpeningError::ZeroCount));
        }
        self.opening_count = count;
        self.opening_step = self.opening_step.saturating_add(1);
        Ok(())
    }

    /// Yamaguchi: offer the announced number of candidate 5th moves. Each
    /// must be a distinct, currently playable move.
    pub fn propose_fifths(&mut self, points: &[Point]) -> (r: Result<(), MoveError>)
        requires
            old(self).wf(),
        ensures
            final(self).wf(),
            match old(self)@.opening_action() {
                ActionModel::ProposeFifths { count } => if points@.len() != count {
                    r == Err::<(), MoveError>(MoveError::Opening(OpeningError::WrongProposalCount))
                        && final(self)@ == old(self)@
                } else {
                    match proposal_error(old(self)@, points@, 0) {
                        Some(e) => r == Err::<(), MoveError>(e) && final(self)@ == old(self)@,
                        None => r == Ok::<(), MoveError>(()) && final(self)@ == with_opening(
                            old(self)@,
                            next_step(old(self)@.opening_step),
                            old(self)@.opening_count,
                            points@,
                            old(self)@.color_choice,
                        ),
                    }
                },
                _ => r == Err::<(), MoveError>(MoveError::Opening(OpeningError::UnexpectedProposal))
                    && final(self)@ == old(self)@,
            },
    {
        let count = match self.opening_action() {
            OpeningAction::ProposeFifths { count } => count,
            _ => return Err(MoveError::Opening(OpeningError::UnexpectedProposal)),
        };
        if points.len() != count as usize {
            return Err(MoveError::Opening(OpeningError::WrongProposalCount));
        }
        let ghost g = self@;
        let mut i: usize = 0;
        while i < points.len()
            invariant
                self.wf(),
                self@ == g,
                g == old(self)@,
                g.opening_action() == (ActionModel::ProposeFifths { count }),
                points@.len() == count,
                i <= points@.len(),
                proposal_error(g, points@, 0) == proposal_error(g, points@, i as int),
            decreases points@.len() - i,
        {
            let p = points[i];
            if contains_point(points, i, p) {
                return Err(MoveError::Opening(OpeningError::DuplicateProposal));
            }
            match self.move_playable(p) {
                Err(e) => return Err(e),
                Ok(()) => {},
            }
            i = i + 1;
        }
        let mut v: Vec<Point> = Vec::new();
        let mut j: usize = 0;
        while j < points.len()
            invariant
                j <= points@.len(),
                v@ == points@.take(j as int),
            decreases points@.len() - j,
        {
            v.push(points[j]);
            j = j + 1;
            assert(v@ =~= points@.take(j as int));
        }
        assert(points@.take(j as int) =~= points@);
        proof {
            lemma_proposals_playable(g, points@, 0);
        }
        self.opening_proposals = v;
        self.opening_step = self.opening_step.saturating_add(1);
        Ok(())
    }

    /// Yamaguchi: select one of the offered 5th moves and play it, ending
    /// the opening.
    pub fn choose_fifth(&mut self, p: Point) -> (r: Result<MoveOutcome, MoveError>)
        requires
            old(self).wf(),
        ensures
            final(self).wf(),
            match old(self)@.opening_action() {
                ActionModel::SelectFifth { options } => if !options.contains(p) {
                    r == Err::<MoveOutcome, MoveError>(MoveError::Opening(OpeningError::NotProposed))
                        && final(self)@ == old(self)@
                } else {
                    let g = with_opening(
                        old(self)@,
                        OPENING_DONE,
                        old(self)@.opening_count,
                        Seq::empty(),
                        old(self)@.color_choice,
                    );
                    &&& g.legality_error(p) is None
                    &&& r matches Ok(out) && final(self)@ == g.after_play(p) && out.captured@
                        == g.captures_by(p) && out.status == final(self)@.status
                },
                _ => r == Err::<MoveOutcome, MoveError>(MoveError::Opening(OpeningError::UnexpectedSelection))
                    && final(self)@ == old(self)@,
            },
    {
        let options = match self.opening_action() {
            OpeningAction::SelectFifth { options } => options,
            _ => return Err(MoveError::Opening(OpeningError::UnexpectedSelection)),
        };
        if !contains_point(options.as_slice(), options.len(), p) {
            proof {
                assert(options@.take(options@.len() as int) =~= options@);
            }
            return Err(MoveError::Opening(OpeningError::NotProposed));
        }
        proof {
            assert(options@.take(options@.len() as int) =~= options@);
            let k = choose|k: int| 0 <= k < options@.len() && options@[k] == p;
            assert(self@.move_error(self@.proposals[k]) is None);
        }
        self.opening_step = OPENING_DONE;
        self.opening_proposals.clear();
        self.play(p)
    }
}

/// The game at the start is well formed under valid rules.
pub proof fn lemma_initial_wf(rules: RuleSet)
    requires
        rules.valid(),
    ensures
        initial_game(rules).wf(),
{
    let g = initial_game(rules);
    let n = rules.board_size as int;
    crate::board::lemma_square_bound(n);
    crate::board::lemma_count_empty(g.board.cells);
    assert forall|q: Point| g.board.on_board(q.x as int, q.y as int) implies g.board.at(q.x as int, q.y as int)
        == #[trigger] history_cell(g.history, q) by {
        crate::board::lemma_index_bounds(n, q.x as int, q.y as int);
    }
}

/// A proposal list without errors holds only points the current player may
/// play.
pub proof fn lemma_proposals_playable(g: GameModel, pts: Seq<Point>, i: int)
    requires
        0 <= i,
        proposal_error(g, pts, i) is None,
    ensures
        forall|j: int| i <= j < pts.len() ==> g.move_error(#[trigger] pts[j]) is None,
    decreases pts.len() - i,
{
    if i < pts.len() {
        lemma_proposals_playable(g, pts, i + 1);
    }
}

/// Turns alternate from Black: after an even number of moves Black is to
/// move, and every recorded move was made by the player whose turn it was.
pub proof fn lemma_turn_parity(g: GameModel)
    requires
        g.wf(),
    ensures
        g.to_move == turn_of(g.history.len() as int),
        forall|i: int| 0 <= i < g.history.len() ==> (#[trigger] g.history[i]).player == turn_of(i),
{
}

/// An opening placement is always of the color of the player to move, and
/// the free openings never expect anything.
pub proof fn lemma_placement_color(g: GameModel)
    requires
        g.wf(),
    ensures
        g.opening_action() matches ActionModel::PlaceStone { color, .. } ==> color == g.to_move,
        (g.rules.opening == Opening::Free || g.rules.opening == Opening::FreeRenju) ==> g.opening_action()
            == ActionModel::NoAction,
{
}

/// Without captures the board holds exactly the stones of the recorded moves:
/// as many stones as moves, each move's point holding the stone of the player
/// whose turn it was, and every other point empty.
pub proof fn lemma_board_matches_history(g: GameModel)
    requires
        g.wf(),
        g.rules.capture is None,
    ensures
        g.board.stones() == g.history.len(),
        forall|i: int| 0 <= i < g.history.len() ==> g.board.at(
            (#[trigger] g.history[i]).point.x as int,
            g.history[i].point.y as int,
        ) == Cell::Stone(turn_of(i)),
        forall|q: Point| g.board.on_board(q.x as int, q.y as int) && (forall|i: int| 0 <= i < g.history.len()
            ==> (#[trigger] g.history[i]).point != q) ==> g.board.at(q.x as int, q.y as int) == Cell::Empty,
{
    assert forall|i: int| 0 <= i < g.history.len() implies g.board.at(
        (#[trigger] g.history[i]).point.x as int,
        g.history[i].point.y as int,
    ) == Cell::Stone(turn_of(i)) by {
        assert(record_ok(g.board, g.rules, g.history[i]));
        lemma_history_cell_own(g.history, i);
        assert(g.board.at(g.history[i].point.x as int, g.history[i].point.y as int) == history_cell(
            g.history,
            g.history[i].point,
        ));
    }
    assert forall|q: Point| g.board.on_board(q.x as int, q.y as int) && (forall|i: int| 0 <= i < g.history.len()
        ==> (#[trigger] g.history[i]).point != q) implies g.board.at(q.x as int, q.y as int) == Cell::Empty by {
        assert(g.board.at(q.x as int, q.y as int) == history_cell(g.history, q));
        if history_cell(g.history, q) is Stone {
            lemma_history_cell_miss(g.history, q);
            let k = choose|k: int| 0 <= k < g.history.len() && g.history[k].point == q;
            assert(g.history[k].point != q);
        }
    }
}

/// When the game is over, or an opening decision other than a placement is
/// pending, no point is legal and the list of legal moves is empty.
pub proof fn lemma_no_legal_when_over(g: GameModel, n: int)
    requires
        g.status != Status::InProgress || !(g.opening_action() is NoAction
            || g.opening_action() is PlaceStone),
    ensures
        legal_upto(g, n) == Seq::<Point>::empty(),
    decreases n,
{
    if n > 0 {
        lemma_no_legal_when_over(g, n - 1);
        assert(!g.is_legal(point_at_index(g.board.size, n - 1)));
        assert(legal_upto(g, n) =~= Seq::<Point>::empty());
    }
}

} // verus!
