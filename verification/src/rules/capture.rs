//! Pente-style custodial captures.
//!
//! When a player places a stone that brackets exactly two of the opponent's
//! stones against another of their own (the pattern `self opp opp self` along
//! any of the eight directions), the two bracketed stones are captured
//! (removed). Only the flanking move captures.

use vstd::prelude::*;
use crate::board::{Board, BoardModel, lemma_at_set, lemma_set_wf};
use crate::point::Point;
use crate::rules::win::in_space;
use crate::stone::{Cell, Player, opponent_of};

verus! {

broadcast use {lemma_at_set, lemma_set_wf};

/// The eight directions a capture can occur along, in the order they are
/// examined.
pub open spec fn dir_of(k: int) -> (int, int) {
    if k == 0 {
        (1, 0)
    } else if k == 1 {
        (-1, 0)
    } else if k == 2 {
        (0, 1)
    } else if k == 3 {
        (0, -1)
    } else if k == 4 {
        (1, 1)
    } else if k == 5 {
        (-1, -1)
    } else if k == 6 {
        (1, -1)
    } else {
        (-1, 1)
    }
}

/// The point `a` steps from `m` along direction `k`.
pub open spec fn along(m: Point, k: int, a: int) -> Point {
    Point { x: (m.x + a * dir_of(k).0) as u8, y: (m.y + a * dir_of(k).1) as u8 }
}

/// Whether the points one, two and three steps from `m` along direction `k`
/// lie in the coordinate space.
pub open spec fn ray_in_space(m: Point, k: int) -> bool {
    &&& in_space(m.x + dir_of(k).0, m.y + dir_of(k).1)
    &&& in_space(m.x + 2 * dir_of(k).0, m.y + 2 * dir_of(k).1)
    &&& in_space(m.x + 3 * dir_of(k).0, m.y + 3 * dir_of(k).1)
}

/// Whether `player`'s stone at `m` brackets an opponent pair along direction `k`.
pub open spec fn brackets(b: BoardModel, m: Point, player: Player, k: int) -> bool {
    &&& ray_in_space(m, k)
    &&& b.at(m.x + dir_of(k).0, m.y + dir_of(k).1) == Cell::Stone(opponent_of(player))
    &&& b.at(m.x + 2 * dir_of(k).0, m.y + 2 * dir_of(k).1) == Cell::Stone(opponent_of(player))
    &&& b.at(m.x + 3 * dir_of(k).0, m.y + 3 * dir_of(k).1) == Cell::Stone(player)
}

/// The stones captured along the first `k` directions, pair by pair.
pub open spec fn captured_upto(b: BoardModel, m: Point, player: Player, k: nat) -> Seq<Point>
    decreases k,
{
    if k == 0 {
        Seq::empty()
    } else {
        captured_upto(b, m, player, (k - 1) as nat) + if brackets(b, m, player, k - 1) {
            seq![along(m, k - 1, 1), along(m, k - 1, 2)]
        } else {
            Seq::empty()
        }
    }
}

/// The stones that `player`'s move at `m` captures on board `b`.
pub open spec fn captured(b: BoardModel, m: Point, player: Player) -> Seq<Point> {
    captured_upto(b, m, player, 8)
}

/// The board after removing the stones captured by the move at `m`.
pub open spec fn after_capture(b: BoardModel, m: Point, player: Player) -> BoardModel {
    remove_all(b, captured(b, m, player))
}

/// The board with every listed point emptied.
pub open spec fn remove_all(b: BoardModel, pts: Seq<Point>) -> BoardModel
    decreases pts.len(),
{
    if pts.len() == 0 {
        b
    } else {
        remove_all(b, pts.drop_last()).set(pts.last().x as int, pts.last().y as int, Cell::Empty)
    }
}

/// What a point holds after emptying a list of on-board points.
pub proof fn lemma_remove_all(b: BoardModel, pts: Seq<Point>)
    requires
        b.wf(),
        forall|i: int| 0 <= i < pts.len() ==> b.on_board(#[trigger] pts[i].x as int, pts[i].y as int),
    ensures
        remove_all(b, pts).wf(),
        remove_all(b, pts).size == b.size,
        forall|x: int, y: int| #[trigger] remove_all(b, pts).at(x, y) == if pts.contains(
            Point { x: x as u8, y: y as u8 },
        ) && b.on_board(x, y) {
            Cell::Empty
        } else {
            b.at(x, y)
        },
    decreases pts.len(),
{
    if pts.len() > 0 {
        let q = pts.drop_last();
        assert forall|i: int| 0 <= i < q.len() implies b.on_board(#[trigger] q[i].x as int, q[i].y as int) by {
            assert(q[i] == pts[i]);
        }
        lemma_remove_all(b, q);
        let last = pts.last();
        assert(b.on_board(pts[pts.len() - 1].x as int, pts[pts.len() - 1].y as int));
        assert forall|x: int, y: int| #[trigger] remove_all(b, pts).at(x, y) == if pts.contains(
            Point { x: x as u8, y: y as u8 },
        ) && b.on_board(x, y) {
            Cell::Empty
        } else {
            b.at(x, y)
        } by {
            let pt = Point { x: x as u8, y: y as u8 };
            if pts.contains(pt) && b.on_board(x, y) {
                let i = choose|i: int| 0 <= i < pts.len() && pts[i] == pt;
                if i < pts.len() - 1 {
                    assert(q[i] == pt);
                }
            }
            if q.contains(pt) {
                let i = choose|i: int| 0 <= i < q.len() && q[i] == pt;
                assert(pts[i] == pt);
            }
        }
    }
}

/// Which stones the first `k` directions capture: exactly the pairs of the
/// directions along which the move brackets the opponent.
pub proof fn lemma_captured_upto(b: BoardModel, m: Point, player: Player, k: nat)
    requires
        k <= 8,
    ensures
        captured_upto(b, m, player, k).len() % 2 == 0,
        captured_upto(b, m, player, k).len() <= 2 * k,
        forall|pt: Point|
            captured_upto(b, m, player, k).contains(pt) <==> exists|j: int, a: int|
                0 <= j < k && 1 <= a <= 2 && brackets(b, m, player, j) && pt == #[trigger] along(m, j, a),
    decreases k,
{
    if k > 0 {
        lemma_captured_upto(b, m, player, (k - 1) as nat);
        let prev = captured_upto(b, m, player, (k - 1) as nat);
        let cur = captured_upto(b, m, player, k);
        assert forall|pt: Point| cur.contains(pt) <==> exists|j: int, a: int|
            0 <= j < k && 1 <= a <= 2 && brackets(b, m, player, j) && pt == #[trigger] along(m, j, a) by {
            if cur.contains(pt) {
                let i = choose|i: int| 0 <= i < cur.len() && cur[i] == pt;
                if i < prev.len() {
                    assert(prev[i] == pt);
                    assert(prev.contains(pt));
                } else if i == prev.len() {
                    assert(pt == along(m, k - 1, 1));
                } else {
                    assert(pt == along(m, k - 1, 2));
                }
            }
            if exists|j: int, a: int|
                0 <= j < k && 1 <= a <= 2 && brackets(b, m, player, j) && pt == #[trigger] along(m, j, a) {
                let (j, a) = choose|j: int, a: int|
                    0 <= j < k && 1 <= a <= 2 && brackets(b, m, player, j) && pt == #[trigger] along(m, j, a);
                if j < k - 1 {
                    assert(prev.contains(pt));
                    let i = choose|i: int| 0 <= i < prev.len() && prev[i] == pt;
                    assert(cur[i] == pt);
                } else if a == 1 {
                    assert(cur[prev.len() as int] == pt);
                } else {
                    assert(cur[prev.len() as int + 1] == pt);
                }
            }
        }
    }
}

/// The pair points of one direction and the three points ahead along a later
/// direction are distinct, when all lie in the coordinate space.
pub proof fn lemma_rays_disjoint(m: Point, j: int, k: int, a: int, c: int)
    requires
        0 <= j < k < 8,
        1 <= a <= 2,
        1 <= c <= 3,
        ray_in_space(m, j),
        ray_in_space(m, k),
    ensures
        along(m, j, a) != along(m, k, c),
{
    let (djx, djy) = dir_of(j);
    let (dkx, dky) = dir_of(k);
    if a == 1 {
        assert(along(m, j, a) == Point { x: (m.x + djx) as u8, y: (m.y + djy) as u8 });
    } else {
        assert(along(m, j, a) == Point { x: (m.x + 2 * djx) as u8, y: (m.y + 2 * djy) as u8 });
    }
    if c == 1 {
        assert(along(m, k, c) == Point { x: (m.x + dkx) as u8, y: (m.y + dky) as u8 });
    } else if c == 2 {
        assert(along(m, k, c) == Point { x: (m.x + 2 * dkx) as u8, y: (m.y + 2 * dky) as u8 });
    } else {
        assert(along(m, k, c) == Point { x: (m.x + 3 * dkx) as u8, y: (m.y + 3 * dky) as u8 });
    }
}

/// Direction `k` of the eight, as steps.
fn dir(k: usize) -> (r: (i8, i8))
    requires
        k < 8,
    ensures
        r.0 as int == dir_of(k as int).0,
        r.1 as int == dir_of(k as int).1,
{
    if k == 0 {
        (1, 0)
    } else if k == 1 {
        (-1, 0)
    } else if k == 2 {
        (0, 1)
    } else if k == 3 {
        (0, -1)
    } else if k == 4 {
        (1, 1)
    } else if k == 5 {
        (-1, -1)
    } else if k == 6 {
        (1, -1)
    } else {
        (-1, 1)
    }
}

/// Emptying two more points extends the list of emptied points.
pub proof fn lemma_remove_all_push2(b: BoardModel, pts: Seq<Point>, p1: Point, p2: Point)
    ensures
        remove_all(b, pts.push(p1).push(p2)) == remove_all(b, pts).set(p1.x as int, p1.y as int, Cell::Empty).set(
            p2.x as int,
            p2.y as int,
            Cell::Empty,
        ),
{
    let s1 = pts.push(p1);
    let s2 = s1.push(p2);
    assert(s2.drop_last() =~= s1);
    assert(s1.drop_last() =~= pts);
    assert(s2.last() == p2);
    assert(s1.last() == p1);
    assert(remove_all(b, s1) == remove_all(b, pts).set(p1.x as int, p1.y as int, Cell::Empty));
    assert(remove_all(b, s2) == remove_all(b, s1).set(p2.x as int, p2.y as int, Cell::Empty));
}

/// The captures along earlier directions leave the cells examined along
/// direction `k` untouched.
pub proof fn lemma_brackets_unaffected(b: BoardModel, m: Point, player: Player, k: int)
    requires
        b.wf(),
        b.on_board(m.x as int, m.y as int),
        0 <= k < 8,
    ensures
        ray_in_space(m, k) ==> {
            let cur = remove_all(b, captured_upto(b, m, player, k as nat));
            &&& cur.at(m.x + dir_of(k).0, m.y + dir_of(k).1) == b.at(m.x + dir_of(k).0, m.y + dir_of(k).1)
            &&& cur.at(m.x + 2 * dir_of(k).0, m.y + 2 * dir_of(k).1) == b.at(
                m.x + 2 * dir_of(k).0,
                m.y + 2 * dir_of(k).1,
            )
            &&& cur.at(m.x + 3 * dir_of(k).0, m.y + 3 * dir_of(k).1) == b.at(
                m.x + 3 * dir_of(k).0,
                m.y + 3 * dir_of(k).1,
            )
        },
{
    if ray_in_space(m, k) {
        let pts = captured_upto(b, m, player, k as nat);
        lemma_captured_upto(b, m, player, k as nat);
        lemma_captured_on_board(b, m, player, k as nat);
        lemma_remove_all(b, pts);
        assert forall|c: int| 1 <= c <= 3 implies !pts.contains(#[trigger] along(m, k, c)) by {
            if pts.contains(along(m, k, c)) {
                let (j, a) = choose|j: int, a: int|
                    0 <= j < k && 1 <= a <= 2 && brackets(b, m, player, j) && along(m, k, c)
                        == #[trigger] along(m, j, a);
                lemma_rays_disjoint(m, j, k, a, c);
            }
        }
        let (dx, dy) = dir_of(k);
        assert(along(m, k, 1) == Point { x: (m.x + dx) as u8, y: (m.y + dy) as u8 });
        assert(along(m, k, 2) == Point { x: (m.x + 2 * dx) as u8, y: (m.y + 2 * dy) as u8 });
        assert(along(m, k, 3) == Point { x: (m.x + 3 * dx) as u8, y: (m.y + 3 * dy) as u8 });
        assert(remove_all(b, pts).at(m.x + dx, m.y + dy) == b.at(m.x + dx, m.y + dy));
        assert(remove_all(b, pts).at(m.x + 2 * dx, m.y + 2 * dy) == b.at(m.x + 2 * dx, m.y + 2 * dy));
        assert(remove_all(b, pts).at(m.x + 3 * dx, m.y + 3 * dy) == b.at(m.x + 3 * dx, m.y + 3 * dy));
    }
}

/// Captured stones are opponent stones on the board.
pub proof fn lemma_captured_on_board(b: BoardModel, m: Point, player: Player, k: nat)
    requires
        b.wf(),
        k <= 8,
    ensures
        forall|i: int|
            0 <= i < captured_upto(b, m, player, k).len() ==> b.on_board(
                #[trigger] captured_upto(b, m, player, k)[i].x as int,
                captured_upto(b, m, player, k)[i].y as int,
            ) && b.at(captured_upto(b, m, player, k)[i].x as int, captured_upto(b, m, player, k)[i].y as int)
                == Cell::Stone(opponent_of(player)),
    decreases k,
{
    if k > 0 {
        lemma_captured_on_board(b, m, player, (k - 1) as nat);
        let prev = captured_upto(b, m, player, (k - 1) as nat);
        let cur = captured_upto(b, m, player, k);
        let j = k - 1;
        let (dx, dy) = dir_of(j);
        assert(along(m, j, 1) == Point { x: (m.x + dx) as u8, y: (m.y + dy) as u8 });
        assert(along(m, j, 2) == Point { x: (m.x + 2 * dx) as u8, y: (m.y + 2 * dy) as u8 });
        assert forall|i: int| 0 <= i < cur.len() implies b.on_board(#[trigger] cur[i].x as int, cur[i].y as int)
            && b.at(cur[i].x as int, cur[i].y as int) == Cell::Stone(opponent_of(player)) by {
            if i < prev.len() {
                assert(cur[i] == prev[i]);
            }
        }
    }
}

/// Remove the pair bracketed along direction `k`, if any, returning it.
fn capture_along(board: &mut Board, m: Point, player: Player, k: usize) -> (r: Option<(Point, Point)>)
    requires
        old(board).wf(),
        k < 8,
    ensures
        final(board).wf(),
        ray_in_space(m, k as int) && {
            let b = old(board)@;
            let (dx, dy) = dir_of(k as int);
            &&& b.at(m.x + dx, m.y + dy) == Cell::Stone(opponent_of(player))
            &&& b.at(m.x + 2 * dx, m.y + 2 * dy) == Cell::Stone(opponent_of(player))
            &&& b.at(m.x + 3 * dx, m.y + 3 * dy) == Cell::Stone(player)
        } ==> r == Some((along(m, k as int, 1), along(m, k as int, 2))) && final(board)@ == old(board)@.set(
            along(m, k as int, 1).x as int,
            along(m, k as int, 1).y as int,
            Cell::Empty,
        ).set(along(m, k as int, 2).x as int, along(m, k as int, 2).y as int, Cell::Empty),
        !(ray_in_space(m, k as int) && {
            let b = old(board)@;
            let (dx, dy) = dir_of(k as int);
            &&& b.at(m.x + dx, m.y + dy) == Cell::Stone(opponent_of(player))
            &&& b.at(m.x + 2 * dx, m.y + 2 * dy) == Cell::Stone(opponent_of(player))
            &&& b.at(m.x + 3 * dx, m.y + 3 * dy) == Cell::Stone(player)
        }) ==> r is None && final(board)@ == old(board)@,
{
    let (dx, dy) = dir(k);
    let opp = player.opponent();
    let o1 = m.offset(dx, dy);
    let o2 = m.offset(dx * 2, dy * 2);
    let o3 = m.offset(dx * 3, dy * 3);
    if let (Some(p1), Some(p2), Some(p3)) = (o1, o2, o3) {
        if board.get(p1).is(opp) && board.get(p2).is(opp) && board.get(p3).is(player) {
            board.clear(p1);
            board.clear(p2);
            return Some((p1, p2));
        }
    }
    None
}

/// Resolve captures triggered by `player` placing at `m` (already on the
/// board). Removes the captured stones and returns them, in pairs, in the
/// order of the directions examined.
pub fn resolve(board: &mut Board, m: Point, player: Player) -> (r: Vec<Point>)
    requires
        old(board).wf(),
        old(board)@.on_board(m.x as int, m.y as int),
    ensures
        final(board).wf(),
        r@ == captured(old(board)@, m, player),
        final(board)@ == after_capture(old(board)@, m, player),
        r@.len() % 2 == 0,
        forall|i: int|
            0 <= i < r@.len() ==> old(board)@.on_board(#[trigger] r@[i].x as int, r@[i].y as int)
                && old(board)@.at(r@[i].x as int, r@[i].y as int) == Cell::Stone(opponent_of(player)),
{
    let ghost b0 = board@;
    let mut captured_pts: Vec<Point> = Vec::new();
    let mut k: usize = 0;
    while k < 8
        invariant
            board.wf(),
            b0.wf(),
            b0.on_board(m.x as int, m.y as int),
            k <= 8,
            captured_pts@ == captured_upto(b0, m, player, k as nat),
            board@ == remove_all(b0, captured_pts@),
        decreases 8 - k,
    {
        proof {
            lemma_brackets_unaffected(b0, m, player, k as int);
        }
        let ghost before = captured_pts@;
        if let Some((p1, p2)) = capture_along(board, m, player, k) {
            captured_pts.push(p1);
            captured_pts.push(p2);
            proof {
                lemma_remove_all_push2(b0, before, p1, p2);
            }
        }
        proof {
            assert(captured_pts@ =~= captured_upto(b0, m, player, (k + 1) as nat));
        }
        k = k + 1;
    }
    proof {
        lemma_captured_upto(b0, m, player, 8);
        lemma_captured_on_board(b0, m, player, 8);
    }
    captured_pts
}


/// The point `a` steps from `m` along `(dx, dy)`.
pub open spec fn step_from(m: Point, dx: int, dy: int, a: int) -> Point {
    Point { x: (m.x + a * dx) as u8, y: (m.y + a * dy) as u8 }
}

/// Whether `(dx, dy)` is one of the eight directions to a neighbouring point.
pub open spec fn is_direction(dx: int, dy: int) -> bool {
    -1 <= dx <= 1 && -1 <= dy <= 1 && !(dx == 0 && dy == 0)
}

/// Whether `player`'s stone at `m` flanks an opponent pair along `(dx, dy)`:
/// the next two points that way hold opponent stones and the third holds a
/// stone of `player`.
pub open spec fn flanks(b: BoardModel, m: Point, player: Player, dx: int, dy: int) -> bool {
    &&& b.at(m.x + dx, m.y + dy) == Cell::Stone(opponent_of(player))
    &&& b.at(m.x + 2 * dx, m.y + 2 * dy) == Cell::Stone(opponent_of(player))
    &&& b.at(m.x + 3 * dx, m.y + 3 * dy) == Cell::Stone(player)
}

/// The direction index of a direction.
proof fn lemma_dir_index(dx: int, dy: int) -> (k: int)
    requires
        is_direction(dx, dy),
    ensures
        0 <= k < 8,
        dir_of(k) == (dx, dy),
{
    if dx == 1 && dy == 0 {
        0
    } else if dx == -1 && dy == 0 {
        1
    } else if dx == 0 && dy == 1 {
        2
    } else if dx == 0 && dy == -1 {
        3
    } else if dx == 1 && dy == 1 {
        4
    } else if dx == -1 && dy == -1 {
        5
    } else if dx == 1 && dy == -1 {
        6
    } else {
        7
    }
}

/// Every flanked pair is captured, along any of the eight directions,
/// diagonals included: both of its points are among the captured stones and
/// are empty once captures are resolved.
pub proof fn lemma_flanked_pair_captured(b: BoardModel, m: Point, player: Player, dx: int, dy: int)
    requires
        b.wf(),
        is_direction(dx, dy),
        flanks(b, m, player, dx, dy),
    ensures
        captured(b, m, player).contains(step_from(m, dx, dy, 1)),
        captured(b, m, player).contains(step_from(m, dx, dy, 2)),
        after_capture(b, m, player).at(m.x + dx, m.y + dy) == Cell::Empty,
        after_capture(b, m, player).at(m.x + 2 * dx, m.y + 2 * dy) == Cell::Empty,
{
    let k = lemma_dir_index(dx, dy);
    assert(b.on_board(m.x + dx, m.y + dy));
    assert(b.on_board(m.x + 2 * dx, m.y + 2 * dy));
    assert(b.on_board(m.x + 3 * dx, m.y + 3 * dy));
    assert(brackets(b, m, player, k));
    assert(along(m, k, 1) == step_from(m, dx, dy, 1));
    assert(along(m, k, 2) == step_from(m, dx, dy, 2));
    lemma_captured_upto(b, m, player, 8);
    lemma_captured_on_board(b, m, player, 8);
    let c = captured(b, m, player);
    assert forall|i: int| 0 <= i < c.len() implies b.on_board(#[trigger] c[i].x as int, c[i].y as int) by {
    }
    lemma_remove_all(b, c);
    assert(after_capture(b, m, player).at(m.x + dx, m.y + dy) == Cell::Empty);
    assert(after_capture(b, m, player).at(m.x + 2 * dx, m.y + 2 * dy) == Cell::Empty);
}

/// Nothing but flanked pairs is captured: every captured stone is the first
/// or second point of a pair that the move flanks along some direction, and
/// every other point keeps its contents.
pub proof fn lemma_only_flanked_pairs_captured(b: BoardModel, m: Point, player: Player)
    requires
        b.wf(),
    ensures
        forall|pt: Point| #[trigger] captured(b, m, player).contains(pt) ==> exists|dx: int, dy: int, a: int|
            is_direction(dx, dy) && 1 <= a <= 2 && flanks(b, m, player, dx, dy) && pt == #[trigger] step_from(
                m,
                dx,
                dy,
                a,
            ),
        forall|x: int, y: int| !captured(b, m, player).contains(Point { x: x as u8, y: y as u8 }) ==> #[trigger] after_capture(
            b,
            m,
            player,
        ).at(x, y) == b.at(x, y),
{
    lemma_captured_upto(b, m, player, 8);
    lemma_captured_on_board(b, m, player, 8);
    let c = captured(b, m, player);
    assert forall|pt: Point| #[trigger] c.contains(pt) implies exists|dx: int, dy: int, a: int|
        is_direction(dx, dy) && 1 <= a <= 2 && flanks(b, m, player, dx, dy) && pt == #[trigger] step_from(
            m,
            dx,
            dy,
            a,
        ) by {
        let (j, a) = choose|j: int, a: int|
            0 <= j < 8 && 1 <= a <= 2 && brackets(b, m, player, j) && pt == #[trigger] along(m, j, a);
        let (dx, dy) = dir_of(j);
        assert(along(m, j, a) == step_from(m, dx, dy, a));
        assert(flanks(b, m, player, dx, dy));
    }
    assert forall|i: int| 0 <= i < c.len() implies b.on_board(#[trigger] c[i].x as int, c[i].y as int) by {
    }
    lemma_remove_all(b, c);
}

} // verus!
