//! Renju forbidden-move detection for Black.
//!
//! Black may not play a move that creates a double-three (two open threes), a
//! double-four (two fours), or an overline (six or more in a row), *unless*
//! the same move also makes a five, which wins outright and is always allowed.
//! White is never restricted.
//!
//! Detection follows the standard recursive definition: an open three only
//! counts if the move that would turn it into a straight four is itself a
//! legal (non-forbidden) move for Black, so the classification recurses into
//! itself when examining threes. Recursion is bounded by [`MAX_DEPTH`].
//!
//! Fours and threes are counted per direction (a straight four therefore
//! counts once).

use vstd::prelude::*;
use crate::board::{Board, BoardModel, lemma_at_set, lemma_set_same, lemma_set_twice, lemma_set_wf};
use crate::error::ForbiddenKind;
use crate::point::Point;
use crate::rules::win::{axis, axis_of};
use crate::stone::{Cell, Player};

verus! {

broadcast use {lemma_at_set, lemma_set_wf};

/// Maximum depth of the three-legality recursion.
pub const MAX_DEPTH: u8 = 6;

/// State of a cell along a line, relative to Black.
#[derive(PartialEq, Eq, Clone, Copy, Debug, Structural)]
pub enum LineCell {
    /// Holds a Black stone.
    Own,
    /// Holds a White stone.
    Opp,
    /// Unoccupied and on the board.
    Empty,
    /// Off the board.
    Edge,
}

/// `d * s` for a direction component `d` in `{-1, 0, 1}`.
pub open spec fn scale(d: int, s: int) -> int {
    if d == 1 {
        s
    } else if d == -1 {
        -s
    } else {
        0
    }
}

/// The point `k` steps from `m` along `d`, as coordinates.
pub open spec fn step_x(m: Point, d: (int, int), k: int) -> int {
    m.x + scale(d.0, k)
}

/// The point `k` steps from `m` along `d`, as coordinates.
pub open spec fn step_y(m: Point, d: (int, int), k: int) -> int {
    m.y + scale(d.1, k)
}

/// The point `k` steps from `m` along `d`.
pub open spec fn step_point(m: Point, d: (int, int), k: int) -> Point {
    Point { x: step_x(m, d, k) as u8, y: step_y(m, d, k) as u8 }
}

/// The board with a Black stone at `p`.
pub open spec fn with_black(b: BoardModel, p: Point) -> BoardModel {
    b.set(p.x as int, p.y as int, Cell::Stone(Player::Black))
}

/// The cell `k` steps from `m` along `d`, relative to Black.
pub open spec fn line_cell(b: BoardModel, m: Point, d: (int, int), k: int) -> LineCell {
    let x = step_x(m, d, k);
    let y = step_y(m, d, k);
    if !b.on_board(x, y) {
        LineCell::Edge
    } else {
        match b.at(x, y) {
            Cell::Empty => LineCell::Empty,
            Cell::Stone(Player::Black) => LineCell::Own,
            Cell::Stone(Player::White) => LineCell::Opp,
        }
    }
}

/// Consecutive Black stones from step `k` onward (forward).
pub open spec fn fwd_run(b: BoardModel, m: Point, d: (int, int), k: int) -> nat
    decreases 20 - k,
{
    if k >= 20 || line_cell(b, m, d, k) != LineCell::Own {
        0
    } else {
        1 + fwd_run(b, m, d, k + 1)
    }
}

/// Consecutive Black stones from step `-k` backward.
pub open spec fn bwd_run(b: BoardModel, m: Point, d: (int, int), k: int) -> nat
    decreases 20 - k,
{
    if k >= 20 || line_cell(b, m, d, -k) != LineCell::Own {
        0
    } else {
        1 + bwd_run(b, m, d, k + 1)
    }
}

/// Length of the contiguous Black run through `m` along `d`.
pub open spec fn contig_len(b: BoardModel, m: Point, d: (int, int)) -> nat {
    fwd_run(b, m, d, 1) + bwd_run(b, m, d, 1) + 1
}

/// The cell just past the forward end of that run.
pub open spec fn contig_front(b: BoardModel, m: Point, d: (int, int)) -> LineCell {
    line_cell(b, m, d, 1 + fwd_run(b, m, d, 1) as int)
}

/// The cell just past the backward end of that run.
pub open spec fn contig_back(b: BoardModel, m: Point, d: (int, int)) -> LineCell {
    line_cell(b, m, d, -(1 + bwd_run(b, m, d, 1) as int))
}

/// Whether the Black stone at `m` makes an exact five along some axis.
pub open spec fn makes_five(b: BoardModel, m: Point) -> bool {
    exists|a: int| 0 <= a < 4 && contig_len(b, m, #[trigger] axis_of(a)) == 5
}

/// Whether the Black stone at `m` makes a run of six or more along some axis.
pub open spec fn makes_overline(b: BoardModel, m: Point) -> bool {
    exists|a: int| 0 <= a < 4 && contig_len(b, m, #[trigger] axis_of(a)) >= 6
}

/// Whether the first `j` cells of the window starting at step `s` hold no
/// White stone and no edge.
pub open spec fn window_clear(b: BoardModel, m: Point, d: (int, int), s: int, j: int) -> bool {
    forall|i: int|
        0 <= i < j ==> #[trigger] line_cell(b, m, d, s + i) == LineCell::Own || line_cell(b, m, d, s + i)
            == LineCell::Empty
}

/// The number of Black stones among the first `j` cells of the window at `s`.
pub open spec fn window_own(b: BoardModel, m: Point, d: (int, int), s: int, j: int) -> nat
    decreases j,
{
    if j <= 0 {
        0
    } else {
        window_own(b, m, d, s, j - 1) + if line_cell(b, m, d, s + j - 1) == LineCell::Own {
            1nat
        } else {
            0nat
        }
    }
}

/// The step of the last empty cell among the first `j` cells of the window at `s`.
pub open spec fn window_gap(b: BoardModel, m: Point, d: (int, int), s: int, j: int) -> Option<int>
    decreases j,
{
    if j <= 0 {
        None
    } else if line_cell(b, m, d, s + j - 1) == LineCell::Empty {
        Some(s + j - 1)
    } else {
        window_gap(b, m, d, s, j - 1)
    }
}

/// Whether the five cells at steps `s..s + 5` form a four: four Black
/// stones and one empty cell that, filled, makes an exact five.
pub open spec fn four_window(b: BoardModel, m: Point, d: (int, int), s: int) -> bool {
    &&& window_clear(b, m, d, s, 5)
    &&& window_own(b, m, d, s, 5) == 4
    &&& window_gap(b, m, d, s, 5) matches Some(g) && {
        let f = step_point(m, d, g);
        contig_len(with_black(b, f), f, d) == 5
    }
}

/// Whether Black has a four along `d` through `m`: one move from an exact five.
pub open spec fn has_four(b: BoardModel, m: Point, d: (int, int)) -> bool {
    exists|s: int| -4 <= s <= 0 && #[trigger] four_window(b, m, d, s)
}

/// The recursion budget left at `depth`.
pub open spec fn budget(depth: int) -> int {
    if depth <= MAX_DEPTH {
        MAX_DEPTH - depth
    } else {
        0
    }
}

/// Whether filling the empty cell `k` steps from `m` along `d` makes a
/// straight four through `m` (four in a row, both ends empty) by a move that
/// is itself allowed for Black.
pub open spec fn three_at(b: BoardModel, m: Point, d: (int, int), depth: int, k: int) -> bool
    decreases budget(depth), 0int, 0int,
{
    &&& k != 0
    &&& line_cell(b, m, d, k) == LineCell::Empty
    &&& {
        let f = step_point(m, d, k);
        let b2 = with_black(b, f);
        &&& contig_len(b2, m, d) == 4
        &&& contig_front(b2, m, d) == LineCell::Empty
        &&& contig_back(b2, m, d) == LineCell::Empty
        &&& (depth >= MAX_DEPTH || forbidden_at(b, f, depth + 1) is None)
    }
}

/// Whether some step from `k` to 4 gives [`three_at`].
pub open spec fn three_scan(b: BoardModel, m: Point, d: (int, int), depth: int, k: int) -> bool
    decreases budget(depth), 0int, 5 - k,
{
    if k > 4 {
        false
    } else {
        three_at(b, m, d, depth, k) || three_scan(b, m, d, depth, k + 1)
    }
}

/// Whether Black has a live open three along `d` through `m`.
pub open spec fn has_open_three(b: BoardModel, m: Point, d: (int, int), depth: int) -> bool
    decreases budget(depth), 0int, 10int,
{
    three_scan(b, m, d, depth, -4)
}

/// The number of axes along which Black has a four.
pub open spec fn four_count(b: BoardModel, m: Point) -> int {
    (if has_four(b, m, axis_of(0)) { 1int } else { 0int }) + (if has_four(b, m, axis_of(1)) {
        1int
    } else {
        0int
    }) + (if has_four(b, m, axis_of(2)) { 1int } else { 0int }) + (if has_four(b, m, axis_of(3)) {
        1int
    } else {
        0int
    })
}

/// Whether axis `a` carries a live open three that is not also a four.
pub open spec fn axis_three(b: BoardModel, m: Point, depth: int, a: int) -> bool
    decreases budget(depth), 0int, 11int,
{
    !has_four(b, m, axis_of(a)) && has_open_three(b, m, axis_of(a), depth)
}

/// The number of axes carrying a live open three that is not also a four.
pub open spec fn three_count(b: BoardModel, m: Point, depth: int) -> int
    decreases budget(depth), 0int, 12int,
{
    (if axis_three(b, m, depth, 0) { 1int } else { 0int }) + (if axis_three(b, m, depth, 1) {
        1int
    } else {
        0int
    }) + (if axis_three(b, m, depth, 2) { 1int } else { 0int }) + (if axis_three(b, m, depth, 3) {
        1int
    } else {
        0int
    })
}

/// The verdict on the Black stone at `m` (already on `b`): a five is always
/// allowed; otherwise an overline, two fours, or two live threes are forbidden.
pub open spec fn classify(b: BoardModel, m: Point, depth: int) -> Option<ForbiddenKind>
    decreases budget(depth), 1int, 0int,
{
    if makes_five(b, m) {
        None
    } else if makes_overline(b, m) {
        Some(ForbiddenKind::Overline)
    } else if four_count(b, m) >= 2 {
        Some(ForbiddenKind::DoubleFour)
    } else if three_count(b, m, depth) >= 2 {
        Some(ForbiddenKind::DoubleThree)
    } else {
        None
    }
}

/// The verdict on Black playing at `m` on `b` (which need not hold `m`).
pub open spec fn forbidden_at(b: BoardModel, m: Point, depth: int) -> Option<ForbiddenKind>
    decreases budget(depth), 2int, 0int,
{
    classify(with_black(b, m), m, depth)
}

/// `(dx, dy)` is one of the four axes.
pub open spec fn is_axis(d: (int, int)) -> bool {
    exists|a: int| 0 <= a < 4 && d == #[trigger] axis_of(a)
}

/// Multiplying by a direction component is [`scale`].
proof fn lemma_scale(d: int, s: int)
    by (nonlinear_arith)
    requires
        -1 <= d <= 1,
    ensures
        d * s == scale(d, s),
{
}

/// A Black stone along a line lies at most 18 steps from an on-board point.
proof fn lemma_own_near(b: BoardModel, m: Point, d: (int, int), k: int)
    requires
        b.wf(),
        b.on_board(m.x as int, m.y as int),
        is_axis(d),
        line_cell(b, m, d, k) == LineCell::Own,
    ensures
        -18 <= k <= 18,
{
}

/// The axis directions are unit steps.
proof fn lemma_axis(a: int)
    requires
        0 <= a < 4,
    ensures
        is_axis(axis_of(a)),
        -1 <= axis_of(a).0 <= 1,
        -1 <= axis_of(a).1 <= 1,
        axis_of(a).0 != 0 || axis_of(a).1 != 0,
{
}

/// Read the cell `step` cells from `from` along `dir`.
fn cell_at(board: &Board, from: Point, dir: (i8, i8), step: i8) -> (r: LineCell)
    requires
        board.wf(),
        -1 <= dir.0 <= 1,
        -1 <= dir.1 <= 1,
        -20 <= step <= 20,
    ensures
        r == line_cell(board@, from, (dir.0 as int, dir.1 as int), step as int),
{
    proof {
        lemma_scale(dir.0 as int, step as int);
        lemma_scale(dir.1 as int, step as int);
    }
    match from.offset(dir.0 * step, dir.1 * step) {
        Some(q) => {
            if board.in_bounds(q) {
                match board.get(q) {
                    Cell::Empty => LineCell::Empty,
                    Cell::Stone(Player::Black) => LineCell::Own,
                    Cell::Stone(Player::White) => LineCell::Opp,
                }
            } else {
                LineCell::Edge
            }
        },
        None => LineCell::Edge,
    }
}

/// The contiguous run of Black stones through `m` along `dir`, together with
/// the state of the cell just past each end.
fn contiguous(board: &Board, m: Point, dir: (i8, i8)) -> (r: (u32, LineCell, LineCell))
    requires
        board.wf(),
        board@.on_board(m.x as int, m.y as int),
        is_axis((dir.0 as int, dir.1 as int)),
    ensures
        r.0 == contig_len(board@, m, (dir.0 as int, dir.1 as int)),
        r.1 == contig_front(board@, m, (dir.0 as int, dir.1 as int)),
        r.2 == contig_back(board@, m, (dir.0 as int, dir.1 as int)),
{
    let ghost b = board@;
    let ghost d = (dir.0 as int, dir.1 as int);
    let mut forward: i8 = 1;
    while cell_at(board, m, dir, forward) == LineCell::Own
        invariant
            board.wf(),
            b == board@,
            d == (dir.0 as int, dir.1 as int),
            is_axis(d),
            -1 <= dir.0 <= 1,
            -1 <= dir.1 <= 1,
            b.on_board(m.x as int, m.y as int),
            1 <= forward <= 19,
            fwd_run(b, m, d, 1) == (forward - 1) + fwd_run(b, m, d, forward as int),
        decreases 20 - forward,
    {
        proof {
            lemma_own_near(b, m, d, forward as int);
        }
        forward = forward + 1;
    }
    let mut backward: i8 = 1;
    while cell_at(board, m, dir, -backward) == LineCell::Own
        invariant
            board.wf(),
            b == board@,
            d == (dir.0 as int, dir.1 as int),
            is_axis(d),
            -1 <= dir.0 <= 1,
            -1 <= dir.1 <= 1,
            b.on_board(m.x as int, m.y as int),
            1 <= backward <= 19,
            bwd_run(b, m, d, 1) == (backward - 1) + bwd_run(b, m, d, backward as int),
        decreases 20 - backward,
    {
        proof {
            lemma_own_near(b, m, d, -backward as int);
        }
        backward = backward + 1;
    }
    let len: u32 = (forward as u32 - 1) + (backward as u32 - 1) + 1;
    (len, cell_at(board, m, dir, forward), cell_at(board, m, dir, -backward))
}

/// Whether the just-placed Black stone at `m` makes an exact five anywhere.
fn makes_five_at(board: &Board, m: Point) -> (r: bool)
    requires
        board.wf(),
        board@.on_board(m.x as int, m.y as int),
    ensures
        r == makes_five(board@, m),
{
    let mut a: usize = 0;
    while a < 4
        invariant
            board.wf(),
            board@.on_board(m.x as int, m.y as int),
            a <= 4,
            forall|i: int| 0 <= i < a ==> contig_len(board@, m, #[trigger] axis_of(i)) != 5,
        decreases 4 - a,
    {
        proof {
            lemma_axis(a as int);
        }
        if contiguous(board, m, axis(a)).0 == 5 {
            return true;
        }
        a = a + 1;
    }
    false
}

/// Whether the just-placed Black stone at `m` makes a run of six or more.
fn makes_overline_at(board: &Board, m: Point) -> (r: bool)
    requires
        board.wf(),
        board@.on_board(m.x as int, m.y as int),
    ensures
        r == makes_overline(board@, m),
{
    let mut a: usize = 0;
    while a < 4
        invariant
            board.wf(),
            board@.on_board(m.x as int, m.y as int),
            a <= 4,
            forall|i: int| 0 <= i < a ==> contig_len(board@, m, #[trigger] axis_of(i)) < 6,
        decreases 4 - a,
    {
        proof {
            lemma_axis(a as int);
        }
        if contiguous(board, m, axis(a)).0 >= 6 {
            return true;
        }
        a = a + 1;
    }
    false
}

/// A clear window with four Black stones has an empty cell.
proof fn lemma_gap_some(b: BoardModel, m: Point, d: (int, int), s: int, j: int)
    requires
        0 <= j,
        window_clear(b, m, d, s, j),
        window_gap(b, m, d, s, j) is None,
    ensures
        window_own(b, m, d, s, j) == j,
    decreases j,
{
    if j > 0 {
        assert(line_cell(b, m, d, s + (j - 1)) == LineCell::Own || line_cell(b, m, d, s + (j - 1))
            == LineCell::Empty);
        lemma_gap_some(b, m, d, s, j - 1);
    }
}

/// Whether Black has a four along `dir` through `m` (one move from an exact
/// five). Temporarily places and removes a completing stone, leaving `board`
/// unchanged on return.
fn has_four_at(board: &mut Board, m: Point, dir: (i8, i8)) -> (r: bool)
    requires
        old(board).wf(),
        old(board)@.on_board(m.x as int, m.y as int),
        is_axis((dir.0 as int, dir.1 as int)),
    ensures
        final(board)@ == old(board)@,
        final(board).wf(),
        r == has_four(old(board)@, m, (dir.0 as int, dir.1 as int)),
{
    let ghost b = board@;
    let ghost d = (dir.0 as int, dir.1 as int);
    let mut s: i8 = -4;
    while s <= 0
        invariant
            board.wf(),
            b == board@,
            b == old(board)@,
            d == (dir.0 as int, dir.1 as int),
            is_axis(d),
            -1 <= dir.0 <= 1,
            -1 <= dir.1 <= 1,
            b.on_board(m.x as int, m.y as int),
            -4 <= s <= 1,
            forall|t: int| -4 <= t < s ==> !#[trigger] four_window(b, m, d, t),
        decreases 1 - s,
    {
        let mut own: u32 = 0;
        let mut gap: Option<i8> = None;
        let mut dead = false;
        let mut j: i8 = 0;
        while j < 5 && !dead
            invariant
                board.wf(),
                b == board@,
                -1 <= dir.0 <= 1,
                -1 <= dir.1 <= 1,
                d == (dir.0 as int, dir.1 as int),
                -4 <= s <= 0,
                0 <= j <= 5,
                own <= j,
                !dead ==> window_clear(b, m, d, s as int, j as int),
                !dead ==> own == window_own(b, m, d, s as int, j as int),
                !dead ==> match window_gap(b, m, d, s as int, j as int) {
                    Some(g) => gap == Some(g as i8) && s <= g <= s + 4,
                    None => gap is None,
                },
                dead ==> !window_clear(b, m, d, s as int, 5),
            decreases 5 - j, if dead { 0int } else { 1int },
        {
            let c = cell_at(board, m, dir, s + j);
            match c {
                LineCell::Own => own = own + 1,
                LineCell::Empty => gap = Some(s + j),
                _ => {
                    dead = true;
                    proof {
                        assert(!(line_cell(b, m, d, s + j) == LineCell::Own || line_cell(b, m, d, s + j)
                            == LineCell::Empty));
                    }
                },
            }
            if !dead {
                j = j + 1;
            }
        }
        if !dead && own == 4 {
            proof {
                if gap is None {
                    lemma_gap_some(b, m, d, s as int, 5);
                }
            }
            let fill_offset = gap.unwrap();
            proof {
                assert(line_cell(b, m, d, fill_offset as int) == LineCell::Empty) by {
                    let g = fill_offset as int;
                    assert(window_clear(b, m, d, s as int, 5));
                    lemma_gap_is_empty(b, m, d, s as int, 5);
                }
                lemma_scale(dir.0 as int, fill_offset as int);
                lemma_scale(dir.1 as int, fill_offset as int);
            }
            let fill = m.offset(dir.0 * fill_offset, dir.1 * fill_offset).unwrap();
            proof {
                assert(fill == step_point(m, d, fill_offset as int));
                assert(b.at(fill.x as int, fill.y as int) == Cell::Empty);
                lemma_set_same(b, fill.x as int, fill.y as int);
                lemma_set_twice(b, fill.x as int, fill.y as int, Cell::Stone(Player::Black), Cell::Empty);
            }
            board.place(Player::Black, fill);
            let five = contiguous(board, fill, dir).0 == 5;
            board.clear(fill);
            if five {
                assert(four_window(b, m, d, s as int));
                return true;
            }
            assert(!four_window(b, m, d, s as int));
        } else {
            assert(!four_window(b, m, d, s as int));
        }
        s = s + 1;
    }
    false
}

/// The last empty cell of a window is empty.
proof fn lemma_gap_is_empty(b: BoardModel, m: Point, d: (int, int), s: int, j: int)
    ensures
        window_gap(b, m, d, s, j) matches Some(g) ==> line_cell(b, m, d, g) == LineCell::Empty && s <= g
            < s + j,
    decreases j,
{
    if j > 0 {
        lemma_gap_is_empty(b, m, d, s, j - 1);
    }
}

/// Whether Black has a *live* open three along `dir` through `m`: some empty
/// point on the line turns it into a straight four, and that point is itself
/// a legal move for Black. `board` is left unchanged on return.
fn has_open_three_at(board: &mut Board, m: Point, dir: (i8, i8), depth: u8) -> (r: bool)
    requires
        old(board).wf(),
        old(board)@.on_board(m.x as int, m.y as int),
        is_axis((dir.0 as int, dir.1 as int)),
        depth <= MAX_DEPTH,
    ensures
        final(board)@ == old(board)@,
        final(board).wf(),
        r == has_open_three(old(board)@, m, (dir.0 as int, dir.1 as int), depth as int),
    decreases budget(depth as int), 0int,
{
    let ghost b = board@;
    let ghost d = (dir.0 as int, dir.1 as int);
    let mut k: i8 = -4;
    while k <= 4
        invariant
            board.wf(),
            b == board@,
            b == old(board)@,
            d == (dir.0 as int, dir.1 as int),
            is_axis(d),
            -1 <= dir.0 <= 1,
            -1 <= dir.1 <= 1,
            b.on_board(m.x as int, m.y as int),
            depth <= MAX_DEPTH,
            -4 <= k <= 5,
            three_scan(b, m, d, depth as int, -4) == three_scan(b, m, d, depth as int, k as int),
        decreases 5 - k,
    {
        if k == 0 || cell_at(board, m, dir, k) != LineCell::Empty {
            assert(!three_at(b, m, d, depth as int, k as int));
            k = k + 1;
            continue;
        }
        proof {
            lemma_scale(dir.0 as int, k as int);
            lemma_scale(dir.1 as int, k as int);
        }
        let fill = m.offset(dir.0 * k, dir.1 * k).unwrap();
        proof {
            assert(fill == step_point(m, d, k as int));
            assert(b.at(fill.x as int, fill.y as int) == Cell::Empty);
            lemma_set_same(b, fill.x as int, fill.y as int);
            lemma_set_twice(b, fill.x as int, fill.y as int, Cell::Stone(Player::Black), Cell::Empty);
        }
        board.place(Player::Black, fill);
        let (len, front, back) = contiguous(board, m, dir);
        board.clear(fill);
        if len == 4 && front == LineCell::Empty && back == LineCell::Empty {
            if depth >= MAX_DEPTH {
                assert(three_at(b, m, d, depth as int, k as int));
                return true;
            }
            let verdict = forbidden_at_depth(board, fill, depth + 1);
            proof {
                assert(b.set(fill.x as int, fill.y as int, Cell::Empty) == b);
            }
            if verdict.is_none() {
                assert(three_at(b, m, d, depth as int, k as int));
                return true;
            }
        }
        assert(!three_at(b, m, d, depth as int, k as int));
        k = k + 1;
    }
    false
}

/// 1 if Black has a four along axis `a`, else 0.
fn four_flag(board: &mut Board, m: Point, a: usize) -> (r: u32)
    requires
        old(board).wf(),
        old(board)@.on_board(m.x as int, m.y as int),
        a < 4,
    ensures
        final(board)@ == old(board)@,
        final(board).wf(),
        r == if has_four(old(board)@, m, axis_of(a as int)) {
            1u32
        } else {
            0u32
        },
{
    proof {
        lemma_axis(a as int);
    }
    if has_four_at(board, m, axis(a)) {
        1
    } else {
        0
    }
}

/// 1 if axis `a` carries a live open three that is not also a four, else 0.
fn three_flag(board: &mut Board, m: Point, a: usize, depth: u8) -> (r: u32)
    requires
        old(board).wf(),
        old(board)@.on_board(m.x as int, m.y as int),
        a < 4,
        depth <= MAX_DEPTH,
    ensures
        final(board)@ == old(board)@,
        final(board).wf(),
        r == if axis_three(old(board)@, m, depth as int, a as int) {
            1u32
        } else {
            0u32
        },
    decreases budget(depth as int), 1int,
{
    proof {
        lemma_axis(a as int);
    }
    if !has_four_at(board, m, axis(a)) && has_open_three_at(board, m, axis(a), depth) {
        1
    } else {
        0
    }
}

/// Classify a Black move at `m`, which is already on `board`.
fn classify_at(board: &mut Board, m: Point, depth: u8) -> (r: Option<ForbiddenKind>)
    requires
        old(board).wf(),
        old(board)@.on_board(m.x as int, m.y as int),
        depth <= MAX_DEPTH,
    ensures
        final(board)@ == old(board)@,
        final(board).wf(),
        r == classify(old(board)@, m, depth as int),
    decreases budget(depth as int), 2int,
{
    if makes_five_at(board, m) {
        return None;
    }
    if makes_overline_at(board, m) {
        return Some(ForbiddenKind::Overline);
    }
    let fours = four_flag(board, m, 0) + four_flag(board, m, 1) + four_flag(board, m, 2) + four_flag(
        board,
        m,
        3,
    );
    if fours >= 2 {
        return Some(ForbiddenKind::DoubleFour);
    }
    let threes = three_flag(board, m, 0, depth) + three_flag(board, m, 1, depth) + three_flag(
        board,
        m,
        2,
        depth,
    ) + three_flag(board, m, 3, depth);
    if threes >= 2 {
        return Some(ForbiddenKind::DoubleThree);
    }
    None
}

/// Would Black playing at `m` be forbidden? Places `m`, classifies it, then
/// empties `m` again.
fn forbidden_at_depth(board: &mut Board, m: Point, depth: u8) -> (r: Option<ForbiddenKind>)
    requires
        old(board).wf(),
        old(board)@.on_board(m.x as int, m.y as int),
        depth <= MAX_DEPTH,
    ensures
        final(board)@ == old(board)@.set(m.x as int, m.y as int, Cell::Empty),
        final(board).wf(),
        r == forbidden_at(old(board)@, m, depth as int),
    decreases budget(depth as int), 3int,
{
    let ghost b = board@;
    board.place(Player::Black, m);
    let verdict = classify_at(board, m, depth);
    board.clear(m);
    proof {
        lemma_set_twice(b, m.x as int, m.y as int, Cell::Stone(Player::Black), Cell::Empty);
    }
    verdict
}

/// Whether a Black stone sits one or two steps from `m` along some axis,
/// close enough to take part in a forbidden shape.
pub open spec fn black_near(b: BoardModel, m: Point) -> bool {
    exists|a: int, k: int|
        0 <= a < 4 && (k == -2 || k == -1 || k == 1 || k == 2) && #[trigger] line_cell(b, m, axis_of(a), k)
            == LineCell::Own
}

/// Leaving the coordinate space one step out means leaving it two steps out.
proof fn lemma_offset_monotone(m: Point, dx: int, dy: int)
    requires
        -1 <= dx <= 1,
        -1 <= dy <= 1,
        0 <= m.x < 19,
        0 <= m.y < 19,
        !(0 <= m.x + dx < 19 && 0 <= m.y + dy < 19),
    ensures
        !(0 <= m.x + 2 * dx < 19 && 0 <= m.y + 2 * dy < 19),
{
}

/// Whether any Black stone sits within two steps of `m` along some axis. A
/// move that fails this check cannot be forbidden (see
/// [`lemma_far_move_allowed`]), so [`forbidden`] skips classifying it.
fn black_in_range(board: &Board, m: Point) -> (r: bool)
    requires
        board.wf(),
        board@.on_board(m.x as int, m.y as int),
    ensures
        r == black_near(board@, m),
{
    let mut a: usize = 0;
    while a < 4
        invariant
            board.wf(),
            board@.on_board(m.x as int, m.y as int),
            a <= 4,
            forall|i: int, k: int|
                0 <= i < a && (k == -2 || k == -1 || k == 1 || k == 2) ==> #[trigger] line_cell(
                    board@,
                    m,
                    axis_of(i),
                    k,
                ) != LineCell::Own,
        decreases 4 - a,
    {
        let (dx, dy) = axis(a);
        let ghost d = axis_of(a as int);
        proof {
            lemma_axis(a as int);
        }
        let mut sign: i8 = 1;
        let mut round: u8 = 0;
        while round < 2
            invariant
                board.wf(),
                board@.on_board(m.x as int, m.y as int),
                a < 4,
                d == axis_of(a as int),
                dx as int == d.0,
                dy as int == d.1,
                -1 <= dx <= 1,
                -1 <= dy <= 1,
                round <= 2,
                round == 0 ==> sign == 1,
                round == 1 ==> sign == -1,
                round >= 1 ==> line_cell(board@, m, d, 1) != LineCell::Own && line_cell(board@, m, d, 2)
                    != LineCell::Own,
                round >= 2 ==> line_cell(board@, m, d, -1) != LineCell::Own && line_cell(board@, m, d, -2)
                    != LineCell::Own,
            decreases 2 - round,
        {
            let mut k: i8 = 1;
            while k <= 2
                invariant
                    board.wf(),
                    board@.on_board(m.x as int, m.y as int),
                    d == axis_of(a as int),
                    dx as int == d.0,
                    dy as int == d.1,
                    -1 <= dx <= 1,
                    -1 <= dy <= 1,
                    sign == 1 || sign == -1,
                    a < 4,
                    1 <= k <= 3,
                    k >= 2 ==> line_cell(board@, m, d, sign * 1) != LineCell::Own,
                    k >= 3 ==> line_cell(board@, m, d, sign * 2) != LineCell::Own,
                ensures
                    line_cell(board@, m, d, sign * 1) != LineCell::Own,
                    line_cell(board@, m, d, sign * 2) != LineCell::Own,
                decreases 3 - k,
            {
                proof {
                    lemma_scale(dx as int, (sign * k) as int);
                    lemma_scale(dy as int, (sign * k) as int);
                }
                match m.offset(dx * sign * k, dy * sign * k) {
                    Some(q) => {
                        if board.get(q).is(Player::Black) {
                            proof {
                                assert(line_cell(board@, m, d, sign * k) == LineCell::Own);
                                assert(sign * k == 1 || sign * k == 2 || sign * k == -1 || sign * k == -2);
                                assert(line_cell(board@, m, axis_of(a as int), sign * k) == LineCell::Own);
                                assert(black_near(board@, m));
                            }
                            return true;
                        }
                    },
                    None => {
                        proof {
                            assert(line_cell(board@, m, d, sign * k) != LineCell::Own);
                            if k == 1 {
                                lemma_scale(dx as int, (sign * 2) as int);
                                lemma_scale(dy as int, (sign * 2) as int);
                                lemma_offset_monotone(m, dx * sign, dy * sign);
                                assert(line_cell(board@, m, d, sign * 2) != LineCell::Own);
                            }
                        }
                        break;
                    },
                }
                k = k + 1;
            }
            sign = -1;
            round = round + 1;
        }
        a = a + 1;
    }
    false
}

/// Steps `j` and `k` along an axis land on distinct points when `j != k`.
proof fn lemma_steps_distinct(m: Point, d: (int, int), j: int, k: int)
    requires
        is_axis(d),
        j != k,
    ensures
        step_x(m, d, j) != step_x(m, d, k) || step_y(m, d, j) != step_y(m, d, k),
{
}

/// Placing a Black stone `k` steps along the line changes only that step.
proof fn lemma_line_cell_place(b: BoardModel, m: Point, d: (int, int), k: int, j: int)
    requires
        b.wf(),
        is_axis(d),
        b.on_board(step_x(m, d, k), step_y(m, d, k)),
    ensures
        line_cell(with_black(b, step_point(m, d, k)), m, d, j) == if j == k {
            LineCell::Own
        } else {
            line_cell(b, m, d, j)
        },
{
    if j != k {
        lemma_steps_distinct(m, d, j, k);
    }
}

/// No three is live when no step of `k..=4` gives one.
proof fn lemma_scan_false(b: BoardModel, m: Point, d: (int, int), depth: int, k: int)
    requires
        forall|j: int| k <= j <= 4 ==> !#[trigger] three_at(b, m, d, depth, j),
    ensures
        !three_scan(b, m, d, depth, k),
    decreases 5 - k,
{
    if k <= 4 {
        assert(!three_at(b, m, d, depth, k));
        lemma_scan_false(b, m, d, depth, k + 1);
    }
}

/// The cells next to a new Black stone at `m` that has no Black stone within
/// two steps.
proof fn lemma_far_cells(b: BoardModel, m: Point, a: int)
    requires
        b.wf(),
        b.on_board(m.x as int, m.y as int),
        !black_near(b, m),
        0 <= a < 4,
    ensures
        line_cell(with_black(b, m), m, axis_of(a), 0) == LineCell::Own,
        line_cell(with_black(b, m), m, axis_of(a), 1) != LineCell::Own,
        line_cell(with_black(b, m), m, axis_of(a), 2) != LineCell::Own,
        line_cell(with_black(b, m), m, axis_of(a), -1) != LineCell::Own,
        line_cell(with_black(b, m), m, axis_of(a), -2) != LineCell::Own,
{
    let d = axis_of(a);
    lemma_axis(a);
    assert(step_point(m, d, 0) == m);
    lemma_line_cell_place(b, m, d, 0, 0);
    lemma_line_cell_place(b, m, d, 0, 1);
    lemma_line_cell_place(b, m, d, 0, 2);
    lemma_line_cell_place(b, m, d, 0, -1);
    lemma_line_cell_place(b, m, d, 0, -2);
    assert(line_cell(b, m, axis_of(a), 1) != LineCell::Own);
    assert(line_cell(b, m, axis_of(a), 2) != LineCell::Own);
    assert(line_cell(b, m, axis_of(a), -1) != LineCell::Own);
    assert(line_cell(b, m, axis_of(a), -2) != LineCell::Own);
}

/// A window around a Black stone with no other Black stone within two steps
/// holds at most three Black stones.
proof fn lemma_far_no_four(b1: BoardModel, m: Point, d: (int, int))
    requires
        line_cell(b1, m, d, 1) != LineCell::Own,
        line_cell(b1, m, d, 2) != LineCell::Own,
        line_cell(b1, m, d, -1) != LineCell::Own,
        line_cell(b1, m, d, -2) != LineCell::Own,
    ensures
        !has_four(b1, m, d),
{
    assert forall|s: int| -4 <= s <= 0 implies !#[trigger] four_window(b1, m, d, s) by {
        reveal_with_fuel(window_own, 6);
        assert(window_own(b1, m, d, s, 5) != 4);
    }
}

/// Filling one empty cell next to such a stone gives a run of at most two.
proof fn lemma_far_no_three(b1: BoardModel, m: Point, d: (int, int))
    requires
        b1.wf(),
        is_axis(d),
        line_cell(b1, m, d, 1) != LineCell::Own,
        line_cell(b1, m, d, 2) != LineCell::Own,
        line_cell(b1, m, d, -1) != LineCell::Own,
        line_cell(b1, m, d, -2) != LineCell::Own,
    ensures
        !has_open_three(b1, m, d, 0),
{
    assert forall|k: int| -4 <= k <= 4 implies !#[trigger] three_at(b1, m, d, 0, k) by {
        if k != 0 && line_cell(b1, m, d, k) == LineCell::Empty {
            lemma_far_fill(b1, m, d, k);
        }
    }
    lemma_scan_false(b1, m, d, 0, -4);
}

/// The run through `m` after filling step `k` is at most two long.
proof fn lemma_far_fill(b1: BoardModel, m: Point, d: (int, int), k: int)
    requires
        b1.wf(),
        is_axis(d),
        k != 0,
        line_cell(b1, m, d, k) == LineCell::Empty,
        line_cell(b1, m, d, 1) != LineCell::Own,
        line_cell(b1, m, d, 2) != LineCell::Own,
        line_cell(b1, m, d, -1) != LineCell::Own,
        line_cell(b1, m, d, -2) != LineCell::Own,
    ensures
        contig_len(with_black(b1, step_point(m, d, k)), m, d) <= 3,
{
    let b2 = with_black(b1, step_point(m, d, k));
    lemma_line_cell_place(b1, m, d, k, 1);
    lemma_line_cell_place(b1, m, d, k, 2);
    lemma_line_cell_place(b1, m, d, k, -1);
    lemma_line_cell_place(b1, m, d, k, -2);
    assert(fwd_run(b2, m, d, 1) <= 1) by {
        if line_cell(b2, m, d, 1) == LineCell::Own {
            assert(fwd_run(b2, m, d, 2) == 0);
        }
    }
    assert(bwd_run(b2, m, d, 1) <= 1) by {
        if line_cell(b2, m, d, -1) == LineCell::Own {
            assert(bwd_run(b2, m, d, 2) == 0);
        }
    }
}

/// With no Black stone within two steps, the new Black stone at `m` forms no
/// run, no four and no three along axis `a`.
proof fn lemma_far_axis(b: BoardModel, m: Point, a: int)
    requires
        b.wf(),
        b.on_board(m.x as int, m.y as int),
        !black_near(b, m),
        0 <= a < 4,
    ensures
        contig_len(with_black(b, m), m, axis_of(a)) == 1,
        !has_four(with_black(b, m), m, axis_of(a)),
        !has_open_three(with_black(b, m), m, axis_of(a), 0),
{
    lemma_axis(a);
    lemma_far_cells(b, m, a);
    lemma_far_no_four(with_black(b, m), m, axis_of(a));
    lemma_far_no_three(with_black(b, m), m, axis_of(a));
}

/// A move with no Black stone within two steps along any axis is never
/// forbidden: the range check in [`forbidden`] never changes the verdict.
pub proof fn lemma_far_move_allowed(b: BoardModel, m: Point)
    requires
        b.wf(),
        b.on_board(m.x as int, m.y as int),
        !black_near(b, m),
    ensures
        forbidden_at(b, m, 0) is None,
{
    let b1 = with_black(b, m);
    lemma_far_axis(b, m, 0);
    lemma_far_axis(b, m, 1);
    lemma_far_axis(b, m, 2);
    lemma_far_axis(b, m, 3);
    assert(!makes_five(b1, m));
    assert(!makes_overline(b1, m));
    assert(four_count(b1, m) == 0);
    assert(three_count(b1, m, 0) == 0);
}

/// A move that makes an exact five is never forbidden, whatever other shapes
/// it makes.
pub proof fn lemma_five_allowed(b: BoardModel, m: Point, depth: int)
    requires
        makes_five(with_black(b, m), m),
    ensures
        forbidden_at(b, m, depth) is None,
{
}

/// Whether Black playing at `m` is a Renju forbidden move, on the position
/// `board` (without `m`). A cheap range check settles the common case, a
/// point with no Black stone close enough to form any shape; otherwise the
/// board is copied once into a scratch position on which every hypothetical
/// stone is placed and removed.
pub fn forbidden(board: &Board, m: Point) -> (r: Option<ForbiddenKind>)
    requires
        board.wf(),
        board@.on_board(m.x as int, m.y as int),
    ensures
        r == forbidden_at(board@, m, 0),
{
    if !black_in_range(board, m) {
        proof {
            lemma_far_move_allowed(board@, m);
        }
        return None;
    }
    let mut scratch = board.duplicate();
    forbidden_at_depth(&mut scratch, m, 0)
}


/// An axis along which the move makes a four never adds to the count of
/// live threes, at any depth of the analysis.
pub proof fn lemma_four_axis_not_three(b1: BoardModel, m: Point, depth: int, a: int)
    requires
        has_four(b1, m, axis_of(a)),
    ensures
        !axis_three(b1, m, depth, a),
{
}

/// A four-three is allowed: a Black move that makes neither a five nor a long
/// row, makes a four along exactly one axis, and has a live three along at
/// most one of the other axes, is not forbidden, whether or not the axis of
/// the four also looks like a three.
pub proof fn lemma_four_three_allowed(b: BoardModel, m: Point, a4: int)
    requires
        0 <= a4 < 4,
        !makes_five(with_black(b, m), m),
        !makes_overline(with_black(b, m), m),
        has_four(with_black(b, m), m, axis_of(a4)),
        forall|a: int| 0 <= a < 4 && a != a4 ==> !has_four(with_black(b, m), m, #[trigger] axis_of(a)),
        forall|a: int, c: int|
            0 <= a < c < 4 && a != a4 && c != a4 ==> !(has_open_three(
                with_black(b, m),
                m,
                #[trigger] axis_of(a),
                0,
            ) && has_open_three(with_black(b, m), m, #[trigger] axis_of(c), 0)),
    ensures
        forbidden_at(b, m, 0) is None,
{
    let b1 = with_black(b, m);
    assert(!has_four(b1, m, axis_of(0)) || a4 == 0);
    assert(!has_four(b1, m, axis_of(1)) || a4 == 1);
    assert(!has_four(b1, m, axis_of(2)) || a4 == 2);
    assert(!has_four(b1, m, axis_of(3)) || a4 == 3);
    lemma_four_axis_not_three(b1, m, 0, a4);
    assert(three_count(b1, m, 0) <= 1);
    assert(four_count(b1, m) == 1);
}

/// What each verdict requires of the move: a forbidden move makes no five; a
/// double-four has fours along two different axes; a double-three has, along
/// two different axes, a live three on an axis that holds no four.
pub proof fn lemma_verdict_reasons(b: BoardModel, m: Point)
    ensures
        forbidden_at(b, m, 0) is Some ==> !makes_five(with_black(b, m), m),
        forbidden_at(b, m, 0) == Some(ForbiddenKind::Overline) ==> makes_overline(with_black(b, m), m),
        forbidden_at(b, m, 0) == Some(ForbiddenKind::DoubleFour) ==> exists|a: int, c: int|
            0 <= a < c < 4 && has_four(with_black(b, m), m, #[trigger] axis_of(a)) && has_four(
                with_black(b, m),
                m,
                #[trigger] axis_of(c),
            ),
        forbidden_at(b, m, 0) == Some(ForbiddenKind::DoubleThree) ==> exists|a: int, c: int|
            0 <= a < c < 4 && !has_four(with_black(b, m), m, #[trigger] axis_of(a)) && has_open_three(
                with_black(b, m),
                m,
                axis_of(a),
                0,
            ) && !has_four(with_black(b, m), m, #[trigger] axis_of(c)) && has_open_three(
                with_black(b, m),
                m,
                axis_of(c),
                0,
            ),
{
    let b1 = with_black(b, m);
    if forbidden_at(b, m, 0) == Some(ForbiddenKind::DoubleFour) {
        let h0 = has_four(b1, m, axis_of(0));
        let h1 = has_four(b1, m, axis_of(1));
        let h2 = has_four(b1, m, axis_of(2));
        let h3 = has_four(b1, m, axis_of(3));
        if h0 && h1 {
            assert(has_four(b1, m, axis_of(0)) && has_four(b1, m, axis_of(1)));
        } else if h0 && h2 {
            assert(has_four(b1, m, axis_of(0)) && has_four(b1, m, axis_of(2)));
        } else if h0 && h3 {
            assert(has_four(b1, m, axis_of(0)) && has_four(b1, m, axis_of(3)));
        } else if h1 && h2 {
            assert(has_four(b1, m, axis_of(1)) && has_four(b1, m, axis_of(2)));
        } else if h1 && h3 {
            assert(has_four(b1, m, axis_of(1)) && has_four(b1, m, axis_of(3)));
        } else {
            assert(has_four(b1, m, axis_of(2)) && has_four(b1, m, axis_of(3)));
        }
    }
    if forbidden_at(b, m, 0) == Some(ForbiddenKind::DoubleThree) {
        let t0 = axis_three(b1, m, 0, 0);
        let t1 = axis_three(b1, m, 0, 1);
        let t2 = axis_three(b1, m, 0, 2);
        let t3 = axis_three(b1, m, 0, 3);
        assert(three_count(b1, m, 0) >= 2);
        if t0 && t1 {
            assert(axis_of(0) == axis_of(0) && axis_of(1) == axis_of(1));
        } else if t0 && t2 {
            assert(axis_of(0) == axis_of(0) && axis_of(2) == axis_of(2));
        } else if t0 && t3 {
            assert(axis_of(0) == axis_of(0) && axis_of(3) == axis_of(3));
        } else if t1 && t2 {
            assert(axis_of(1) == axis_of(1) && axis_of(2) == axis_of(2));
        } else if t1 && t3 {
            assert(axis_of(1) == axis_of(1) && axis_of(3) == axis_of(3));
        } else {
            assert(axis_of(2) == axis_of(2) && axis_of(3) == axis_of(3));
        }
    }
}

} // verus!
