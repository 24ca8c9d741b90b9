//! The board: a square grid of cells with access, placement and rendering.

use vstd::prelude::*;
use crate::point::{Point, MAX_SIZE};
use crate::stone::{Cell, Player, cell_glyph};
use crate::text::{decimal, push_char, push_decimal};

verus! {

/// The mathematical model of a board: its edge length and its cells in
/// row-major order, the cell of `(x, y)` at index `y * size + x`.
pub struct BoardModel {
    /// Edge length.
    pub size: int,
    /// The cells, row by row from the bottom-left.
    pub cells: Seq<Cell>,
}

/// The number of stones in a sequence of cells.
pub open spec fn count_stones(cells: Seq<Cell>) -> nat
    decreases cells.len(),
{
    if cells.len() == 0 {
        0
    } else {
        count_stones(cells.drop_last()) + if cells.last() == Cell::Empty {
            0nat
        } else {
            1nat
        }
    }
}

impl BoardModel {
    /// A board of a supported size holding one cell per intersection.
    pub open spec fn wf(self) -> bool {
        5 <= self.size <= MAX_SIZE && self.cells.len() == self.size * self.size
    }

    /// Whether `(x, y)` is an intersection of this board.
    pub open spec fn on_board(self, x: int, y: int) -> bool {
        0 <= x < self.size && 0 <= y < self.size
    }

    /// The position of `(x, y)` in `cells`.
    pub open spec fn idx(self, x: int, y: int) -> int {
        y * self.size + x
    }

    /// The contents of `(x, y)`; points off the board read as empty.
    pub open spec fn at(self, x: int, y: int) -> Cell {
        if self.on_board(x, y) {
            self.cells[self.idx(x, y)]
        } else {
            Cell::Empty
        }
    }

    /// The board with `(x, y)` holding `c`.
    pub open spec fn set(self, x: int, y: int, c: Cell) -> BoardModel {
        BoardModel { size: self.size, cells: self.cells.update(self.idx(x, y), c) }
    }

    /// The number of stones on the board.
    pub open spec fn stones(self) -> nat {
        count_stones(self.cells)
    }

    /// Whether every intersection holds a stone.
    pub open spec fn full(self) -> bool {
        forall|x: int, y: int| self.on_board(x, y) ==> #[trigger] self.at(x, y) != Cell::Empty
    }

    /// The empty board of the given size.
    pub open spec fn empty(size: int) -> BoardModel {
        BoardModel { size, cells: Seq::new((size * size) as nat, |i: int| Cell::Empty) }
    }
}

/// The point at row-major position `i` on a board of edge `size`.
pub open spec fn point_at_index(size: int, i: int) -> Point {
    Point { x: (i % size) as u8, y: (i / size) as u8 }
}

/// Row-major positions of on-board points lie within the board.
pub proof fn lemma_index_bounds(size: int, x: int, y: int)
    by (nonlinear_arith)
    requires
        1 <= size,
        0 <= x < size,
        0 <= y < size,
    ensures
        0 <= y * size + x < size * size,
{
    assert(y * size <= (size - 1) * size);
}

/// The square of an edge of at most `MAX_SIZE` is at most 361.
pub proof fn lemma_square_bound(size: int)
    by (nonlinear_arith)
    requires
        0 <= size <= MAX_SIZE,
    ensures
        0 <= size * size <= 361,
{
}

/// Distinct on-board points have distinct row-major positions.
pub proof fn lemma_index_injective(size: int, x1: int, y1: int, x2: int, y2: int)
    by (nonlinear_arith)
    requires
        1 <= size,
        0 <= x1 < size,
        0 <= y1 < size,
        0 <= x2 < size,
        0 <= y2 < size,
        y1 * size + x1 == y2 * size + x2,
    ensures
        x1 == x2,
        y1 == y2,
{
    if y1 < y2 {
        assert(y1 * size + size <= y2 * size);
    } else if y2 < y1 {
        assert(y2 * size + size <= y1 * size);
    }
}

/// Every position within the board is the row-major position of a point.
pub proof fn lemma_index_decompose(size: int, i: int)
    by (nonlinear_arith)
    requires
        1 <= size,
        0 <= i < size * size,
    ensures
        0 <= i % size < size,
        0 <= i / size < size,
        i == (i / size) * size + i % size,
{
}

/// Reading a point after setting a cell.
pub broadcast proof fn lemma_at_set(b: BoardModel, x: int, y: int, c: Cell, x2: int, y2: int)
    requires
        b.wf(),
        b.on_board(x, y),
    ensures
        #[trigger] b.set(x, y, c).at(x2, y2) == if x2 == x && y2 == y {
            c
        } else {
            b.at(x2, y2)
        },
{
    lemma_index_bounds(b.size, x, y);
    if b.on_board(x2, y2) {
        lemma_index_bounds(b.size, x2, y2);
        if b.idx(x2, y2) == b.idx(x, y) {
            lemma_index_injective(b.size, x, y, x2, y2);
        }
    }
}

/// Setting an on-board cell keeps the board well formed.
pub broadcast proof fn lemma_set_wf(b: BoardModel, x: int, y: int, c: Cell)
    requires
        b.wf(),
        b.on_board(x, y),
    ensures
        #[trigger] b.set(x, y, c).wf(),
{
    lemma_index_bounds(b.size, x, y);
}

/// Setting a cell to what it already holds changes nothing.
pub proof fn lemma_set_same(b: BoardModel, x: int, y: int)
    requires
        b.wf(),
        b.on_board(x, y),
    ensures
        b.set(x, y, b.at(x, y)) == b,
{
    lemma_index_bounds(b.size, x, y);
    assert(b.set(x, y, b.at(x, y)).cells =~= b.cells);
}

/// Setting one cell twice keeps only the second value.
pub proof fn lemma_set_twice(b: BoardModel, x: int, y: int, c1: Cell, c2: Cell)
    requires
        b.wf(),
        b.on_board(x, y),
    ensures
        b.set(x, y, c1).set(x, y, c2) == b.set(x, y, c2),
{
    lemma_index_bounds(b.size, x, y);
    assert(b.set(x, y, c1).set(x, y, c2).cells =~= b.set(x, y, c2).cells);
}

/// Two well-formed boards of one size that agree on every point are equal.
pub proof fn lemma_board_ext(a: BoardModel, b: BoardModel)
    requires
        a.wf(),
        b.wf(),
        a.size == b.size,
        forall|x: int, y: int| a.on_board(x, y) ==> #[trigger] a.at(x, y) == b.at(x, y),
    ensures
        a == b,
{
    assert forall|i: int| 0 <= i < a.cells.len() implies a.cells[i] == b.cells[i] by {
        lemma_index_decompose(a.size, i);
        let x = i % a.size;
        let y = i / a.size;
        assert(a.at(x, y) == b.at(x, y));
    }
    assert(a.cells =~= b.cells);
}

/// A sequence holds at most one stone per cell, and holds exactly one per cell
/// only when no cell is empty.
pub proof fn lemma_count_stones(cells: Seq<Cell>)
    ensures
        count_stones(cells) <= cells.len(),
        count_stones(cells) == cells.len() <==> forall|i: int|
            0 <= i < cells.len() ==> #[trigger] cells[i] != Cell::Empty,
    decreases cells.len(),
{
    if cells.len() > 0 {
        lemma_count_stones(cells.drop_last());
        if count_stones(cells) == cells.len() {
            assert forall|i: int| 0 <= i < cells.len() implies #[trigger] cells[i] != Cell::Empty by {
                if i < cells.len() - 1 {
                    assert(cells.drop_last()[i] == cells[i]);
                }
            }
        }
        if forall|i: int| 0 <= i < cells.len() ==> #[trigger] cells[i] != Cell::Empty {
            assert forall|i: int| 0 <= i < cells.drop_last().len() implies #[trigger] cells.drop_last()[i]
                != Cell::Empty by {
                assert(cells.drop_last()[i] == cells[i]);
            }
        }
    }
}

/// A sequence of empty cells holds no stone.
pub proof fn lemma_count_empty(cells: Seq<Cell>)
    requires
        forall|i: int| 0 <= i < cells.len() ==> #[trigger] cells[i] == Cell::Empty,
    ensures
        count_stones(cells) == 0,
    decreases cells.len(),
{
    if cells.len() > 0 {
        assert forall|i: int| 0 <= i < cells.drop_last().len() implies #[trigger] cells.drop_last()[i]
            == Cell::Empty by {
            assert(cells.drop_last()[i] == cells[i]);
        }
        lemma_count_empty(cells.drop_last());
    }
}

/// Changing one cell changes the stone count by what leaves and what enters.
pub proof fn lemma_count_update(cells: Seq<Cell>, i: int, c: Cell)
    requires
        0 <= i < cells.len(),
    ensures
        count_stones(cells.update(i, c)) + (if cells[i] == Cell::Empty { 0int } else { 1int })
            == count_stones(cells) + (if c == Cell::Empty { 0int } else { 1int }),
    decreases cells.len(),
{
    let u = cells.update(i, c);
    if i == cells.len() - 1 {
        assert(u.drop_last() =~= cells.drop_last());
    } else {
        lemma_count_update(cells.drop_last(), i, c);
        assert(u.drop_last() =~= cells.drop_last().update(i, c));
    }
}

/// Setting an on-board cell changes the stone count by what leaves and what
/// enters.
pub proof fn lemma_stones_set(b: BoardModel, x: int, y: int, c: Cell)
    requires
        b.wf(),
        b.on_board(x, y),
    ensures
        b.set(x, y, c).stones() + (if b.at(x, y) == Cell::Empty { 0int } else { 1int })
            == b.stones() + (if c == Cell::Empty { 0int } else { 1int }),
{
    lemma_index_bounds(b.size, x, y);
    lemma_count_update(b.cells, b.idx(x, y), c);
}

/// The number of occupied points among the first `n` points of the board in
/// the row-major order that [`Board::points`] lists them in.
pub open spec fn occupied_upto(b: BoardModel, n: int) -> nat
    decreases n,
{
    if n <= 0 {
        0
    } else {
        occupied_upto(b, n - 1) + if b.at(
            point_at_index(b.size, n - 1).x as int,
            point_at_index(b.size, n - 1).y as int,
        ) == Cell::Empty {
            0nat
        } else {
            1nat
        }
    }
}

/// The stones among the first `n` cells are the occupied points among the
/// first `n` points.
proof fn lemma_occupied_prefix(b: BoardModel, n: int)
    requires
        b.wf(),
        0 <= n <= b.size * b.size,
    ensures
        count_stones(b.cells.take(n)) == occupied_upto(b, n),
    decreases n,
{
    if n > 0 {
        lemma_occupied_prefix(b, n - 1);
        assert(b.cells.take(n).drop_last() =~= b.cells.take(n - 1));
        let i = n - 1;
        lemma_index_decompose(b.size, i);
        let p = point_at_index(b.size, i);
        assert(p.x as int == i % b.size && p.y as int == i / b.size);
        assert(b.at(p.x as int, p.y as int) == b.cells[i]);
    }
}

/// The stone count is the number of occupied points found by walking every
/// point of the board.
pub proof fn lemma_stones_by_points(b: BoardModel)
    requires
        b.wf(),
    ensures
        b.stones() == occupied_upto(b, b.size * b.size),
{
    lemma_occupied_prefix(b, b.size * b.size);
    assert(b.cells.take(b.size * b.size) =~= b.cells);
}

/// A gomoku board of configurable square size (`5..=19`). Cells are stored
/// row by row from the bottom-left, the cell of `(x, y)` at `y * size + x`.
#[derive(Clone, PartialEq, Eq, Debug)]
pub struct Board {
    size: u8,
    cells: Vec<Cell>,
}

impl View for Board {
    type V = BoardModel;

    closed spec fn view(&self) -> BoardModel {
        BoardModel { size: self.size as int, cells: self.cells@ }
    }
}

impl Board {
    /// The board holds one cell per intersection of a supported size.
    pub open spec fn wf(&self) -> bool {
        self@.wf()
    }

    /// Create an empty `size x size` board (`5 <= size <= 19`).
    pub fn new(size: u8) -> (b: Board)
        requires
            5 <= size <= MAX_SIZE,
        ensures
            b.wf(),
            b@ == BoardModel::empty(size as int),
    {
        proof {
            lemma_square_bound(size as int);
        }
        let n: usize = size as usize * size as usize;
        let mut cells: Vec<Cell> = Vec::new();
        let mut i: usize = 0;
        while i < n
            invariant
                i <= n,
                cells@ == Seq::new(i as nat, |j: int| Cell::Empty),
            decreases n - i,
        {
            cells.push(Cell::Empty);
            i = i + 1;
            assert(cells@ =~= Seq::new(i as nat, |j: int| Cell::Empty));
        }
        let b = Board { size, cells };
        assert(b@ =~= BoardModel::empty(size as int));
        b
    }

    /// The edge length of the board.
    pub fn size(&self) -> (s: u8)
        ensures
            s == self@.size,
    {
        self.size
    }

    /// Whether the point lies on the board.
    pub fn in_bounds(&self, p: Point) -> (r: bool)
        ensures
            r == self@.on_board(p.x as int, p.y as int),
    {
        p.x < self.size && p.y < self.size
    }

    /// Position of an on-board point in the cell vector.
    fn index(&self, p: Point) -> (i: usize)
        requires
            self.wf(),
            self@.on_board(p.x as int, p.y as int),
        ensures
            i == self@.idx(p.x as int, p.y as int),
            i < self.cells@.len(),
    {
        proof {
            lemma_index_bounds(self.size as int, p.x as int, p.y as int);
            lemma_square_bound(self.size as int);
        }
        p.y as usize * self.size as usize + p.x as usize
    }

    /// Contents of a cell. Off-board points read as [`Cell::Empty`].
    pub fn get(&self, p: Point) -> (c: Cell)
        requires
            self.wf(),
        ensures
            c == self@.at(p.x as int, p.y as int),
    {
        if !self.in_bounds(p) {
            return Cell::Empty;
        }
        let i = self.index(p);
        self.cells[i]
    }

    /// Whether the point is unoccupied (off-board points count as empty).
    pub fn is_empty(&self, p: Point) -> (r: bool)
        requires
            self.wf(),
        ensures
            r == (self@.at(p.x as int, p.y as int) == Cell::Empty),
    {
        self.get(p).is_empty()
    }

    /// Place a stone on an on-board point, overwriting whatever was there.
    pub fn place(&mut self, player: Player, at: Point)
        requires
            old(self).wf(),
            old(self)@.on_board(at.x as int, at.y as int),
        ensures
            final(self).wf(),
            final(self)@ == old(self)@.set(at.x as int, at.y as int, Cell::Stone(player)),
    {
        let i = self.index(at);
        self.cells.set(i, Cell::Stone(player));
    }

    /// Remove any stone at the point, leaving it empty. A no-op off-board.
    pub fn clear(&mut self, at: Point)
        requires
            old(self).wf(),
        ensures
            final(self).wf(),
            final(self)@ == if old(self)@.on_board(at.x as int, at.y as int) {
                old(self)@.set(at.x as int, at.y as int, Cell::Empty)
            } else {
                old(self)@
            },
    {
        if !self.in_bounds(at) {
            return;
        }
        let i = self.index(at);
        self.cells.set(i, Cell::Empty);
    }

    /// Total number of stones on the board.
    pub fn stone_count(&self) -> (n: u32)
        requires
            self.wf(),
        ensures
            n == self@.stones(),
    {
        let len = self.cells.len();
        proof {
            lemma_square_bound(self@.size);
        }
        let mut n: u32 = 0;
        let mut i: usize = 0;
        while i < len
            invariant
                len == self.cells@.len(),
                len <= 361,
                i <= len,
                n == count_stones(self.cells@.take(i as int)),
            decreases len - i,
        {
            let ghost pre = self.cells@.take(i as int);
            proof {
                lemma_count_stones(pre);
                assert(self.cells@.take(i + 1).drop_last() =~= pre);
            }
            if !self.cells[i].is_empty() {
                n = n + 1;
            }
            i = i + 1;
        }
        assert(self.cells@.take(len as int) =~= self.cells@);
        n
    }

    /// Whether every intersection is occupied (used for draw detection).
    pub fn is_full(&self) -> (r: bool)
        requires
            self.wf(),
        ensures
            r == self@.full(),
    {
        let n = self.stone_count();
        proof {
            lemma_square_bound(self@.size);
        }
        let m: u32 = self.size as u32 * self.size as u32;
        proof {
            let b = self@;
            lemma_count_stones(b.cells);
            if b.full() {
                assert forall|i: int| 0 <= i < b.cells.len() implies #[trigger] b.cells[i]
                    != Cell::Empty by {
                    lemma_index_decompose(b.size, i);
                    assert(b.at(i % b.size, i / b.size) != Cell::Empty);
                }
            }
            if n == m {
                assert forall|x: int, y: int| b.on_board(x, y) implies #[trigger] b.at(x, y)
                    != Cell::Empty by {
                    lemma_index_bounds(b.size, x, y);
                    assert(b.cells[b.idx(x, y)] != Cell::Empty);
                }
            }
        }
        n == m
    }

    /// Every point on the board, row by row from the bottom-left.
    pub fn points(&self) -> (v: Vec<Point>)
        requires
            self.wf(),
        ensures
            v@.len() == self@.size * self@.size,
            forall|i: int| 0 <= i < v@.len() ==> #[trigger] v@[i] == point_at_index(self@.size, i),
    {
        let size = self.size;
        let mut v: Vec<Point> = Vec::new();
        let mut y: u8 = 0;
        while y < size
            invariant
                size == self@.size,
                5 <= size <= MAX_SIZE,
                y <= size,
                v@.len() == y * size,
                forall|i: int| 0 <= i < v@.len() ==> #[trigger] v@[i] == point_at_index(size as int, i),
            decreases size - y,
        {
            let mut x: u8 = 0;
            while x < size
                invariant
                    size == self@.size,
                    5 <= size <= MAX_SIZE,
                    y < size,
                    x <= size,
                    v@.len() == y * size + x,
                    forall|i: int| 0 <= i < v@.len() ==> #[trigger] v@[i] == point_at_index(size as int, i),
                decreases size - x,
            {
                proof {
                    lemma_index_bounds(size as int, x as int, y as int);
                    lemma_div_mod_of(size as int, x as int, y as int);
                }
                v.push(Point::new(x, y));
                x = x + 1;
            }
            y = y + 1;
            assert(v@.len() == y * size) by (nonlinear_arith)
                requires v@.len() == (y - 1) * size + size;
        }
        v
    }

    /// The center intersection (rounding down on even sizes).
    pub fn center(&self) -> (p: Point)
        ensures
            p == (Point { x: (self@.size / 2) as u8, y: (self@.size / 2) as u8 }),
    {
        Point::new(self.size / 2, self.size / 2)
    }

    /// A copy of this board.
    pub fn duplicate(&self) -> (b: Board)
        ensures
            b@ == self@,
    {
        let mut cells: Vec<Cell> = Vec::new();
        let mut i: usize = 0;
        while i < self.cells.len()
            invariant
                i <= self.cells@.len(),
                cells@ == self.cells@.take(i as int),
            decreases self.cells@.len() - i,
        {
            cells.push(self.cells[i]);
            i = i + 1;
            assert(cells@ =~= self.cells@.take(i as int));
        }
        assert(self.cells@.take(i as int) =~= self.cells@);
        Board { size: self.size, cells }
    }
}

/// The row label of a rendered board: the 1-based row number right-aligned
/// in two columns.
pub open spec fn row_label(n: nat) -> Seq<char> {
    if n < 10 {
        seq![' '] + decimal(n)
    } else {
        decimal(n)
    }
}

/// The cells of row `y`, each glyph followed by a space.
pub open spec fn row_cells(b: BoardModel, y: int) -> Seq<char> {
    Seq::new((2 * b.size) as nat, |i: int| if i % 2 == 0 { cell_glyph(b.at(i / 2, y)) } else { ' ' })
}

/// One rendered row: its label, a space, its cells and a line break.
pub open spec fn row_line(b: BoardModel, y: int) -> Seq<char> {
    row_label((y + 1) as nat) + seq![' '] + row_cells(b, y) + seq!['\n']
}

/// The first `k` rendered rows, from the top row down.
pub open spec fn row_lines(b: BoardModel, k: int) -> Seq<char>
    decreases k,
{
    if k <= 0 {
        Seq::empty()
    } else {
        row_lines(b, k - 1) + row_line(b, b.size - k)
    }
}

/// The column letters under a rendered board, each followed by a space.
pub open spec fn column_letters(size: int) -> Seq<char> {
    Seq::new(
        (2 * size) as nat,
        |i: int| if i % 2 == 0 { ((i / 2 + 'a' as int) as u32) as char } else { ' ' },
    )
}

/// The text rendering of a board: rows top (highest `y`) to bottom, each
/// labelled with its 1-based number, then a line of column letters.
pub open spec fn board_text(b: BoardModel) -> Seq<char> {
    row_lines(b, b.size) + seq![' ', ' ', ' '] + column_letters(b.size)
}

impl Board {
    /// Render the board as text, top row first, each row labelled with its
    /// 1-based number and each cell shown by its glyph, with the column
    /// letters underneath.
    pub fn to_string(&self) -> (s: String)
        requires
            self.wf(),
        ensures
            s@ == board_text(self@),
    {
        let size = self.size;
        let ghost b = self@;
        let mut s = String::new();
        let mut k: u8 = 0;
        while k < size
            invariant
                b == self@,
                self.wf(),
                size == b.size,
                k <= size,
                s@ == row_lines(b, k as int),
            decreases size - k,
        {
            let y: u8 = size - 1 - k;
            let ghost before = s@;
            if y < 9 {
                push_char(&mut s, ' ');
            }
            push_decimal(&mut s, y as u32 + 1);
            push_char(&mut s, ' ');
            let ghost start = s@;
            assert(start =~= before + row_label((y + 1) as nat) + seq![' ']);
            let mut x: u8 = 0;
            while x < size
                invariant
                    b == self@,
                    self.wf(),
                    size == b.size,
                    y < size,
                    x <= size,
                    s@ == start + row_cells(b, y as int).take(2 * x),
                decreases size - x,
            {
                let c = self.get(Point::new(x, y)).glyph();
                push_char(&mut s, c);
                push_char(&mut s, ' ');
                proof {
                    let cells = row_cells(b, y as int);
                    assert(cells[2 * x] == c);
                    assert(cells[2 * x + 1] == ' ');
                }
                x = x + 1;
                assert(s@ =~= start + row_cells(b, y as int).take(2 * x));
            }
            push_char(&mut s, '\n');
            assert(row_cells(b, y as int).take(2 * size) =~= row_cells(b, y as int));
            assert(s@ =~= before + row_line(b, y as int));
            k = k + 1;
        }
        s.append("   ");
        proof {
            reveal_strlit("   ");
        }
        let ghost lines = s@;
        assert(lines =~= row_lines(b, size as int) + seq![' ', ' ', ' ']);
        let mut x: u8 = 0;
        while x < size
            invariant
                size == self@.size,
                5 <= size <= MAX_SIZE,
                x <= size,
                s@ == lines + column_letters(size as int).take(2 * x),
            decreases size - x,
        {
            let c: char = (97u8 + x) as char;
            push_char(&mut s, c);
            push_char(&mut s, ' ');
            proof {
                let letters = column_letters(size as int);
                assert(letters[2 * x] == c);
                assert(letters[2 * x + 1] == ' ');
            }
            x = x + 1;
            assert(s@ =~= lines + column_letters(size as int).take(2 * x));
        }
        assert(column_letters(size as int).take(2 * size) =~= column_letters(size as int));
        assert(s@ =~= board_text(b));
        s
    }
}

/// The row-major position of `(x, y)` determines the point.
pub proof fn lemma_div_mod_of(size: int, x: int, y: int)
    by (nonlinear_arith)
    requires
        1 <= size,
        0 <= x < size,
        0 <= y < size,
    ensures
        (y * size + x) % size == x,
        (y * size + x) / size == y,
{
}

} // verus!
