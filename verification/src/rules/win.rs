//! Win detection by scanning the four axes through the last placed stone.
//!
//! Because only the most recent stone can complete a new line, a move can be
//! tested by walking outward along each axis counting same-color stones.

use vstd::prelude::*;
use crate::board::{Board, BoardModel};
use crate::point::{Point, MAX_SIZE};
use crate::rules::{Overline, RuleSet};
use crate::stone::{Cell, Player};

verus! {

/// Whether `(x, y)` lies in the coordinate space `0..MAX_SIZE` that
/// [`Point::offset`] stays within.
pub open spec fn in_space(x: int, y: int) -> bool {
    0 <= x < MAX_SIZE && 0 <= y < MAX_SIZE
}

/// How many steps of sign `d` fit from `x` before leaving the coordinate space.
pub open spec fn room(x: int, d: int) -> nat {
    if d > 0 && x < MAX_SIZE {
        (MAX_SIZE - x) as nat
    } else if d < 0 && x >= 0 {
        (x + 1) as nat
    } else {
        0
    }
}

/// The number of consecutive stones of `p` met walking from `(x, y)` (not
/// counted) in steps of `(dx, dy)`.
pub open spec fn ray(b: BoardModel, x: int, y: int, dx: int, dy: int, p: Player) -> nat
    decreases room(x, dx) + room(y, dy),
{
    let nx = x + dx;
    let ny = y + dy;
    if (dx == 0 && dy == 0) || !in_space(nx, ny) || b.at(nx, ny) != Cell::Stone(p) {
        0
    } else {
        1 + ray(b, nx, ny, dx, dy, p)
    }
}

/// The cell just past the run counted by [`ray`]; a point outside the
/// coordinate space reads as empty.
pub open spec fn ray_end(b: BoardModel, x: int, y: int, dx: int, dy: int, p: Player) -> Cell
    decreases room(x, dx) + room(y, dy),
{
    let nx = x + dx;
    let ny = y + dy;
    if (dx == 0 && dy == 0) || !in_space(nx, ny) {
        Cell::Empty
    } else if b.at(nx, ny) != Cell::Stone(p) {
        b.at(nx, ny)
    } else {
        ray_end(b, nx, ny, dx, dy, p)
    }
}

/// Whether a cell holds a stone of the other color than `p`.
pub open spec fn is_opponent_stone(c: Cell, p: Player) -> bool {
    c matches Cell::Stone(q) && q != p
}

/// Length of the run of `p`'s stones through `(x, y)` along `(dx, dy)`,
/// counting `(x, y)` itself.
pub open spec fn run_len(b: BoardModel, x: int, y: int, dx: int, dy: int, p: Player) -> nat {
    1 + ray(b, x, y, dx, dy, p) + ray(b, x, y, -dx, -dy, p)
}

/// How many ends of that run are bounded by an opponent stone (the board
/// edge is no block).
pub open spec fn run_blocked(b: BoardModel, x: int, y: int, dx: int, dy: int, p: Player) -> nat {
    (if is_opponent_stone(ray_end(b, x, y, dx, dy, p), p) {
        1nat
    } else {
        0nat
    }) + (if is_opponent_stone(ray_end(b, x, y, -dx, -dy, p), p) {
        1nat
    } else {
        0nat
    })
}

/// The four line orientations: horizontal, vertical and the two diagonals.
pub open spec fn axis_of(k: int) -> (int, int) {
    if k == 0 {
        (1, 0)
    } else if k == 1 {
        (0, 1)
    } else if k == 2 {
        (1, 1)
    } else {
        (-1, 1)
    }
}

/// Whether the run along axis `k` through `(x, y)` wins for `player`: the
/// run has exactly the win length, or, where longer runs win, at least that
/// length and (under Caro) not blocked at both ends. Both players are scored
/// alike; under Renju Black's long rows are forbidden moves besides.
pub open spec fn axis_wins(b: BoardModel, x: int, y: int, player: Player, rules: RuleSet, k: int) -> bool {
    let (dx, dy) = axis_of(k);
    let len = run_len(b, x, y, dx, dy, player);
    match rules.overline {
        Overline::NoWin => len == rules.win_length,
        Overline::Win => len >= rules.win_length && !(rules.caro_block_both_ends && run_blocked(
            b,
            x,
            y,
            dx,
            dy,
            player,
        ) >= 2),
    }
}

/// Whether `player`'s stone at `(x, y)` completes a winning line under `rules`.
pub open spec fn wins(b: BoardModel, x: int, y: int, player: Player, rules: RuleSet) -> bool {
    exists|k: int| 0 <= k < 4 && #[trigger] axis_wins(b, x, y, player, rules, k)
}

/// The direction of axis `k` (`k < 4`).
pub fn axis(k: usize) -> (r: (i8, i8))
    requires
        k < 4,
    ensures
        r.0 as int == axis_of(k as int).0,
        r.1 as int == axis_of(k as int).1,
{
    if k == 0 {
        (1, 0)
    } else if k == 1 {
        (0, 1)
    } else if k == 2 {
        (1, 1)
    } else {
        (-1, 1)
    }
}

/// The contiguous same-color run through a point along one axis.
pub struct LineRun {
    /// Length of the run, including the stone at the origin point.
    pub len: u8,
    /// How many of the two ends are bounded by an opponent stone (0, 1, or 2).
    pub blocked_ends: u8,
}

/// Walk from `p` in steps of `(dx, dy)`: the number of `player`'s stones met
/// before anything else, and whether the walk ended on an opponent stone.
fn walk(board: &Board, p: Point, player: Player, dx: i8, dy: i8) -> (r: (u8, bool))
    requires
        board.wf(),
        -1 <= dx <= 1,
        -1 <= dy <= 1,
        dx != 0 || dy != 0,
        in_space(p.x as int, p.y as int),
    ensures
        r.0 == ray(board@, p.x as int, p.y as int, dx as int, dy as int, player),
        r.1 == is_opponent_stone(
            ray_end(board@, p.x as int, p.y as int, dx as int, dy as int, player),
            player,
        ),
        r.0 < MAX_SIZE,
{
    let ghost b = board@;
    let mut q = p;
    let mut n: u8 = 0;
    loop
        invariant
            board.wf(),
            b == board@,
            -1 <= dx <= 1,
            -1 <= dy <= 1,
            dx != 0 || dy != 0,
            in_space(q.x as int, q.y as int),
            in_space(p.x as int, p.y as int),
            n + ray(b, q.x as int, q.y as int, dx as int, dy as int, player) == ray(
                b,
                p.x as int,
                p.y as int,
                dx as int,
                dy as int,
                player,
            ),
            ray_end(b, q.x as int, q.y as int, dx as int, dy as int, player) == ray_end(
                b,
                p.x as int,
                p.y as int,
                dx as int,
                dy as int,
                player,
            ),
            dx != 0 ==> n + room(q.x as int, dx as int) == room(p.x as int, dx as int),
            dy != 0 ==> n + room(q.y as int, dy as int) == room(p.y as int, dy as int),
            n < MAX_SIZE,
        decreases room(q.x as int, dx as int) + room(q.y as int, dy as int),
    {
        match q.offset(dx, dy) {
            Some(next) => {
                match board.get(next) {
                    Cell::Stone(c) => {
                        if c == player {
                            assert(dx != 0 ==> room(next.x as int, dx as int) >= 1);
                            assert(dy != 0 ==> room(next.y as int, dy as int) >= 1);
                            assert(room(p.x as int, dx as int) <= MAX_SIZE);
                            assert(room(p.y as int, dy as int) <= MAX_SIZE);
                            n = n + 1;
                            q = next;
                        } else {
                            return (n, true);
                        }
                    },
                    Cell::Empty => {
                        return (n, false);
                    },
                }
            },
            None => {
                return (n, false);
            },
        }
    }
}

/// Measure the run of `player`'s stones through `p` along `axis`.
pub fn run_through(board: &Board, p: Point, player: Player, axis: (i8, i8)) -> (r: LineRun)
    requires
        board.wf(),
        -1 <= axis.0 <= 1,
        -1 <= axis.1 <= 1,
        axis.0 != 0 || axis.1 != 0,
        in_space(p.x as int, p.y as int),
    ensures
        r.len == run_len(board@, p.x as int, p.y as int, axis.0 as int, axis.1 as int, player),
        r.blocked_ends == run_blocked(
            board@,
            p.x as int,
            p.y as int,
            axis.0 as int,
            axis.1 as int,
            player,
        ),
{
    let (dx, dy) = axis;
    let (fwd, fwd_blocked) = walk(board, p, player, dx, dy);
    let (back, back_blocked) = walk(board, p, player, -dx, -dy);
    let blocked: u8 = (if fwd_blocked {
        1u8
    } else {
        0u8
    }) + (if back_blocked {
        1u8
    } else {
        0u8
    });
    LineRun { len: 1 + fwd + back, blocked_ends: blocked }
}

/// Whether placing `player` at `p` (already on the board) wins under `rules`.
pub fn is_win(board: &Board, p: Point, player: Player, rules: &RuleSet) -> (r: bool)
    requires
        board.wf(),
        board@.on_board(p.x as int, p.y as int),
    ensures
        r == wins(board@, p.x as int, p.y as int, player, *rules),
{
    let overline = rules.overline;
    let mut k: usize = 0;
    while k < 4
        invariant
            board.wf(),
            board@.on_board(p.x as int, p.y as int),
            overline == rules.overline,
            k <= 4,
            forall|j: int| 0 <= j < k ==> !#[trigger] axis_wins(board@, p.x as int, p.y as int, player, *rules, j),
        decreases 4 - k,
    {
        let run = run_through(board, p, player, axis(k));
        let won = match overline {
            Overline::NoWin => run.len == rules.win_length,
            Overline::Win => {
                run.len >= rules.win_length && !(rules.caro_block_both_ends && run.blocked_ends >= 2)
            },
        };
        if won {
            assert(axis_wins(board@, p.x as int, p.y as int, player, *rules, k as int));
            return true;
        }
        k = k + 1;
    }
    false
}

} // verus!
