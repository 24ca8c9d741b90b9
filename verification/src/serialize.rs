//! Serialization without outside dependencies: a FEN-like board snapshot and
//! a replayable move list, each with its parser and the laws that tie the two
//! directions together.

use vstd::prelude::*;
use crate::board::{Board, BoardModel, lemma_board_ext, lemma_div_mod_of};
use crate::error::MoveError;
use crate::game::{Game, GameModel, MoveRecord, initial_game, lemma_initial_wf, lemma_play_wf};
use crate::point::{Point, MAX_SIZE, parse_point, point_text, lemma_point_text_round_trip};
use crate::rules::RuleSet;
use crate::stone::{Cell, Player, cell_glyph};
use crate::text::{
    chars_of, decimal, find_char, find_from, has_char, is_digit,
    is_ws, join, lemma_decimal, lemma_find_from, lemma_split_join, lemma_trim_identity,
    lemma_words_join, no_ws, parse_unsigned, parse_unsigned_from, push_char, push_decimal,
    split_chars, split_on, split_words, string_of, sub_chars, trim, trim_chars, views, words,
};

verus! {

broadcast use crate::board::lemma_at_set;

/// Failure parsing a board FEN string, returned by [`Board::from_fen`].
#[non_exhaustive]
#[derive(Debug, Clone, PartialEq, Eq, Structural)]
pub enum FenError {
    /// Missing the `size:` prefix, or the size is out of range.
    BadSize,
    /// A cell character other than `.`, `X`, or `O`.
    BadChar(char),
    /// The row count or a row's length does not match the declared size.
    BadShape,
}

/// Failure replaying a move list, returned by [`Game::from_move_list`].
#[non_exhaustive]
#[derive(Debug, Clone, PartialEq, Eq)]
pub enum MoveListError {
    /// A token that is not a valid coordinate (e.g. `"h8"`).
    BadCoordinate(String),
    /// A coordinate that was rejected during replay.
    Illegal(MoveError),
}

impl FenError {
    /// The human-readable description of the error.
    pub open spec fn message(self) -> Seq<char> {
        match self {
            FenError::BadSize => "missing or invalid board size"@,
            FenError::BadChar(c) => "invalid cell character '"@ + seq![c] + "'"@,
            FenError::BadShape => "row count or length does not match the board size"@,
        }
    }

    /// The human-readable description, e.g. `"invalid cell character 'Q'"`.
    pub fn to_string(&self) -> (s: String)
        ensures
            s@ == self.message(),
    {
        let mut s = String::new();
        match self {
            FenError::BadSize => s.append("missing or invalid board size"),
            FenError::BadChar(c) => {
                s.append("invalid cell character '");
                push_char(&mut s, *c);
                s.append("'");
            },
            FenError::BadShape => s.append("row count or length does not match the board size"),
        }
        s
    }
}

impl MoveListError {
    /// Whether the carried move error can be described.
    pub open spec fn printable(self) -> bool {
        match self {
            MoveListError::Illegal(e) => e.printable(),
            _ => true,
        }
    }

    /// The human-readable description of the error.
    pub open spec fn message(self) -> Seq<char> {
        match self {
            MoveListError::BadCoordinate(t) => "invalid coordinate '"@ + t@ + "'"@,
            MoveListError::Illegal(e) => "illegal move during replay: "@ + e.message(),
        }
    }

    /// The human-readable description, e.g. `"invalid coordinate '??'"`.
    pub fn to_string(&self) -> (s: String)
        requires
            self.printable(),
        ensures
            s@ == self.message(),
    {
        let mut s = String::new();
        match self {
            MoveListError::BadCoordinate(t) => {
                s.append("invalid coordinate '");
                s.append(t.as_str());
                s.append("'");
            },
            MoveListError::Illegal(e) => {
                s.append("illegal move during replay: ");
                let t = e.to_string();
                s.append(t.as_str());
            },
        }
        s
    }
}

/// Row `y` of a board as FEN cell characters, left to right.
pub open spec fn fen_row(b: BoardModel, y: int) -> Seq<char> {
    Seq::new(b.size as nat, |x: int| cell_glyph(b.at(x, y)))
}

/// The rows of a board as FEN text, top row first.
pub open spec fn fen_rows(b: BoardModel) -> Seq<Seq<char>> {
    Seq::new(b.size as nat, |k: int| fen_row(b, b.size - 1 - k))
}

/// The FEN text of a board: `"<size>:<row>/<row>/..."`, top row first, cells
/// `.` (empty), `X` (Black), `O` (White).
pub open spec fn fen_text(b: BoardModel) -> Seq<char> {
    decimal(b.size as nat) + seq![':'] + join(fen_rows(b), '/')
}

/// Whether `c` is one of the FEN cell characters.
pub open spec fn is_glyph(c: char) -> bool {
    c == '.' || c == 'X' || c == 'O'
}

/// The cell a FEN cell character stands for.
pub open spec fn glyph_cell(c: char) -> Cell {
    if c == 'X' {
        Cell::Stone(Player::Black)
    } else if c == 'O' {
        Cell::Stone(Player::White)
    } else {
        Cell::Empty
    }
}

/// The first position at or after `j` holding a character that is no cell
/// character, or the row's length when there is none.
pub open spec fn first_bad(row: Seq<char>, j: int) -> int
    decreases row.len() - j,
{
    if j < 0 || j >= row.len() {
        row.len() as int
    } else if !is_glyph(row[j]) {
        j
    } else {
        first_bad(row, j + 1)
    }
}

/// What is wrong with one FEN row: its length, else its first bad character.
pub open spec fn row_error(row: Seq<char>, size: int) -> Option<FenError> {
    if row.len() != size {
        Some(FenError::BadShape)
    } else if first_bad(row, 0) < row.len() {
        Some(FenError::BadChar(row[first_bad(row, 0)]))
    } else {
        None
    }
}

/// The error of the first faulty row at or after row `i`.
pub open spec fn rows_error(rows: Seq<Seq<char>>, size: int, i: int) -> Option<FenError>
    decreases rows.len() - i,
{
    if i < 0 || i >= rows.len() {
        None
    } else if row_error(rows[i], size) is Some {
        row_error(rows[i], size)
    } else {
        rows_error(rows, size, i + 1)
    }
}

/// The board described by FEN rows (top row first) of the given size.
pub open spec fn fen_board(rows: Seq<Seq<char>>, size: int) -> BoardModel {
    BoardModel {
        size,
        cells: Seq::new(
            (size * size) as nat,
            |i: int| glyph_cell(rows[size - 1 - i / size][i % size]),
        ),
    }
}

/// What [`Board::from_fen`] makes of a text: the size before the first `:`
/// (trimmed, an integer in `5..=19`), then `/`-separated rows, as many as the
/// size, each of that many cell characters.
pub open spec fn fen_parse(s: Seq<char>) -> Result<BoardModel, FenError> {
    let k = find_from(s, ':', 0);
    if k >= s.len() {
        Err(FenError::BadSize)
    } else {
        match parse_unsigned(trim(s.take(k)), 255) {
            None => Err(FenError::BadSize),
            Some(n) => if n < 5 || n > MAX_SIZE {
                Err(FenError::BadSize)
            } else {
                let rows = split_on(s.skip(k + 1), '/');
                if rows.len() != n {
                    Err(FenError::BadShape)
                } else {
                    match rows_error(rows, n as int, 0) {
                        Some(e) => Err(e),
                        None => Ok(fen_board(rows, n as int)),
                    }
                }
            },
        }
    }
}

/// The move-list text of a history: the points in algebraic notation,
/// separated by single spaces.
pub open spec fn move_list_text(h: Seq<MoveRecord>) -> Seq<char> {
    join(h.map_values(|r: MoveRecord| point_text(r.point)), ' ')
}

/// The points of a history, oldest first.
pub open spec fn history_points(h: Seq<MoveRecord>) -> Seq<Point> {
    h.map_values(|r: MoveRecord| r.point)
}

/// How replaying a list of tokens ends.
pub enum ReplayModel {
    /// Every token was played; the resulting game.
    Replayed(GameModel),
    /// The first token that is not a coordinate.
    BadToken(Seq<char>),
    /// The rejection of the first coordinate that could not be played.
    Rejected(MoveError),
}

/// Replaying tokens on a game: each token is parsed as a coordinate and played,
/// stopping at the first one that does not parse or is not legal.
pub open spec fn replay(g: GameModel, toks: Seq<Seq<char>>) -> ReplayModel
    decreases toks.len(),
{
    if toks.len() == 0 {
        ReplayModel::Replayed(g)
    } else {
        match parse_point(toks[0]) {
            None => ReplayModel::BadToken(toks[0]),
            Some(p) => match g.legality_error(p) {
                Some(e) => ReplayModel::Rejected(e),
                None => replay(g.after_play(p), toks.skip(1)),
            },
        }
    }
}

/// Playing points in order, or `None` when one of them is not legal.
pub open spec fn play_all(g: GameModel, pts: Seq<Point>) -> Option<GameModel>
    decreases pts.len(),
{
    if pts.len() == 0 {
        Some(g)
    } else if g.legality_error(pts[0]) is Some {
        None
    } else {
        play_all(g.after_play(pts[0]), pts.skip(1))
    }
}

/// Reading a FEN character row into the board, for every row.
fn fill_board(rows: &Vec<Vec<char>>, size: u8) -> (r: Result<Board, FenError>)
    requires
        5 <= size <= MAX_SIZE,
        rows@.len() == size,
    ensures
        match rows_error(views(rows@), size as int, 0) {
            Some(e) => r == Err::<Board, FenError>(e),
            None => r matches Ok(b) && b.wf() && b@ == fen_board(views(rows@), size as int),
        },
{
    let ghost rs = views(rows@);
    let ghost n = size as int;
    let mut board = Board::new(size);
    assert forall|px: int, py: int| board@.on_board(px, py) implies #[trigger] board@.at(px, py)
        == Cell::Empty by {
        crate::board::lemma_index_bounds(n, px, py);
    }
    let mut ri: usize = 0;
    while ri < rows.len()
        invariant
            5 <= size <= MAX_SIZE,
            rows@.len() == size,
            rs == views(rows@),
            n == size,
            ri <= rows@.len(),
            board.wf(),
            board@.size == n,
            rows_error(rs, n, 0) == rows_error(rs, n, ri as int),
            forall|px: int, py: int|
                board@.on_board(px, py) ==> #[trigger] board@.at(px, py) == if n - 1 - py < ri {
                    glyph_cell(rs[n - 1 - py][px])
                } else {
                    Cell::Empty
                },
        decreases rows@.len() - ri,
    {
        let row = &rows[ri];
        assert(rs[ri as int] == row@);
        if row.len() != size as usize {
            return Err(FenError::BadShape);
        }
        let y: u8 = size - 1 - ri as u8;
        let mut x: usize = 0;
        while x < row.len()
            invariant
                5 <= size <= MAX_SIZE,
                rows@.len() == size,
                rs == views(rows@),
                n == size,
                ri < rows@.len(),
                row@ == rs[ri as int],
                row@.len() == size,
                y == n - 1 - ri,
                x <= row@.len(),
                board.wf(),
                board@.size == n,
                rows_error(rs, n, 0) == rows_error(rs, n, ri as int),
                first_bad(row@, 0) == first_bad(row@, x as int),
                forall|px: int, py: int|
                    board@.on_board(px, py) ==> #[trigger] board@.at(px, py) == if n - 1 - py < ri
                        || (py == y && px < x) {
                        glyph_cell(rs[n - 1 - py][px])
                    } else {
                        Cell::Empty
                    },
            decreases row@.len() - x,
        {
            let ch = row[x];
            let p = Point::new(x as u8, y);
            assert(rs[n - 1 - y][x as int] == ch);
            let ghost before = board@;
            if ch == '.' {
            } else if ch == 'X' {
                board.place(Player::Black, p);
            } else if ch == 'O' {
                board.place(Player::White, p);
            } else {
                assert(first_bad(row@, x as int) == x);
                return Err(FenError::BadChar(ch));
            }
            assert forall|px: int, py: int| board@.on_board(px, py) implies #[trigger] board@.at(px, py)
                == if n - 1 - py < ri || (py == y && px < x + 1) {
                glyph_cell(rs[n - 1 - py][px])
            } else {
                Cell::Empty
            } by {
                assert(before.on_board(px, py));
                if px == x && py == y {
                    assert(glyph_cell(ch) == board@.at(px, py));
                } else {
                    assert(board@.at(px, py) == before.at(px, py));
                }
            }
            x = x + 1;
        }
        assert(first_bad(row@, x as int) == row@.len());
        ri = ri + 1;
    }
    proof {
        let m = fen_board(rs, n);
        assert forall|px: int, py: int| m.on_board(px, py) implies #[trigger] m.at(px, py)
            == board@.at(px, py) by {
            crate::board::lemma_index_bounds(n, px, py);
            lemma_div_mod_of(n, px, py);
        }
        crate::board::lemma_square_bound(n);
        lemma_board_ext(m, board@);
    }
    Ok(board)
}

impl Board {
    /// Encode the board as `"<size>:<row>/<row>/..."`, top row first. Cells
    /// are `.` (empty), `X` (Black), `O` (White).
    pub fn to_fen(&self) -> (s: String)
        requires
            self.wf(),
        ensures
            s@ == fen_text(self@),
    {
        let size = self.size();
        let ghost b = self@;
        let mut s = String::new();
        push_decimal(&mut s, size as u32);
        push_char(&mut s, ':');
        let ghost head = decimal(size as nat) + seq![':'];
        assert(s@ =~= head);
        assert(fen_rows(b).take(0) =~= Seq::<Seq<char>>::empty());
        let mut k: u8 = 0;
        while k < size
            invariant
                b == self@,
                self.wf(),
                size == b.size,
                k <= size,
                s@ == head + join(fen_rows(b).take(k as int), '/'),
            decreases size - k,
        {
            let ghost before = s@;
            if k > 0 {
                push_char(&mut s, '/');
            }
            let y: u8 = size - 1 - k;
            let ghost start = s@;
            let mut x: u8 = 0;
            while x < size
                invariant
                    b == self@,
                    self.wf(),
                    size == b.size,
                    k < size,
                    y == size - 1 - k,
                    x <= size,
                    s@ == start + fen_row(b, y as int).take(x as int),
                decreases size - x,
            {
                let c = self.get(Point::new(x, y)).glyph();
                push_char(&mut s, c);
                x = x + 1;
                assert(s@ =~= start + fen_row(b, y as int).take(x as int));
            }
            proof {
                let rows = fen_rows(b);
                let t = rows.take(k + 1);
                assert(fen_row(b, y as int).take(size as int) =~= fen_row(b, y as int));
                assert(t.last() == rows[k as int]);
                assert(t.drop_last() =~= rows.take(k as int));
                if k == 0 {
                    assert(t =~= seq![rows[0]]);
                    assert(s@ =~= head + join(t, '/'));
                } else {
                    assert(s@ =~= head + (join(rows.take(k as int), '/') + seq!['/'] + rows[k as int]));
                }
            }
            k = k + 1;
        }
        assert(fen_rows(b).take(size as int) =~= fen_rows(b));
        s
    }

    /// Parse a board produced by [`Board::to_fen`].
    ///
    /// Fails with [`FenError::BadSize`] when the `size:` prefix is missing or
    /// out of range, [`FenError::BadShape`] when the row count or a row's
    /// length does not match the size, and [`FenError::BadChar`] for the first
    /// cell character that is not `.`, `X` or `O`.
    pub fn from_fen(s: &str) -> (r: Result<Board, FenError>)
        ensures
            match fen_parse(s@) {
                Ok(m) => r matches Ok(b) && b.wf() && b@ == m,
                Err(e) => r == Err::<Board, FenError>(e),
            },
    {
        let cs = chars_of(s);
        let k = find_char(&cs, ':');
        if k >= cs.len() {
            return Err(FenError::BadSize);
        }
        let head = sub_chars(&cs, 0, k);
        assert(head@ =~= cs@.take(k as int));
        let t = trim_chars(&head);
        assert(t@.skip(0) =~= t@);
        let size: u8 = match parse_unsigned_from(&t, 0, 255) {
            None => return Err(FenError::BadSize),
            Some(v) => v as u8,
        };
        if size < 5 || size > MAX_SIZE {
            return Err(FenError::BadSize);
        }
        let rows = split_chars(&cs, k + 1, '/');
        if rows.len() != size as usize {
            return Err(FenError::BadShape);
        }
        fill_board(&rows, size)
    }
}

impl Game {
    /// The move history as a space-separated list of algebraic coordinates,
    /// e.g. `"h8 i9 g7"`.
    pub fn to_move_list(&self) -> (s: String)
        requires
            self.wf(),
        ensures
            s@ == move_list_text(self@.history),
    {
        let moves = self.moves();
        let ghost texts = self@.history.map_values(|r: MoveRecord| point_text(r.point));
        let mut s = String::new();
        let mut i: usize = 0;
        assert(texts.take(0) =~= Seq::<Seq<char>>::empty());
        while i < moves.len()
            invariant
                self.wf(),
                moves@.len() == self@.history.len(),
                forall|j: int| 0 <= j < moves@.len() ==> #[trigger] moves@[j] == self@.history[j].point,
                texts == self@.history.map_values(|r: MoveRecord| point_text(r.point)),
                i <= moves@.len(),
                s@ == join(texts.take(i as int), ' '),
            decreases moves@.len() - i,
        {
            let ghost before = s@;
            if i > 0 {
                push_char(&mut s, ' ');
            }
            let p = moves[i];
            assert(crate::game::record_ok(self@.board, self@.rules, self@.history[i as int]));
            let t = p.to_string();
            s.append(t.as_str());
            proof {
                let q = texts.take(i + 1);
                assert(q.last() == texts[i as int]);
                assert(q.drop_last() =~= texts.take(i as int));
                if i == 0 {
                    assert(q =~= seq![texts[0]]);
                    assert(s@ =~= join(q, ' '));
                } else {
                    assert(s@ =~= join(texts.take(i as int), ' ') + seq![' '] + texts[i as int]);
                }
            }
            i = i + 1;
        }
        assert(texts.take(i as int) =~= texts);
        s
    }

    /// Rebuild a game by replaying a move list under `rules`: each
    /// whitespace-separated token is parsed as a coordinate and played.
    ///
    /// Fails with [`MoveListError::BadCoordinate`] for the first token that is
    /// not a coordinate, or [`MoveListError::Illegal`] with the rejection of
    /// the first move that cannot be played.
    pub fn from_move_list(rules: RuleSet, list: &str) -> (r: Result<Game, MoveListError>)
        requires
            rules.valid(),
        ensures
            match replay(initial_game(rules), words(list@)) {
                ReplayModel::Replayed(g) => r matches Ok(game) && game.wf() && game@ == g,
                ReplayModel::BadToken(t) => r matches Err(MoveListError::BadCoordinate(s))
                    && s@ == t,
                ReplayModel::Rejected(e) => r matches Err(MoveListError::Illegal(e2)) && e2 == e,
            },
    {
        let mut game = Game::new(rules);
        let cs = chars_of(list);
        let toks = split_words(&cs);
        let ghost ws = views(toks@);
        assert(ws.skip(0) =~= ws);
        let mut i: usize = 0;
        while i < toks.len()
            invariant
                game.wf(),
                ws == views(toks@),
                ws == words(list@),
                i <= toks@.len(),
                replay(initial_game(rules), ws) == replay(game@, ws.skip(i as int)),
            decreases toks@.len() - i,
        {
            let tok = &toks[i];
            assert(ws.skip(i as int)[0] == tok@);
            assert(ws.skip(i as int).skip(1) =~= ws.skip(i + 1));
            match Point::parse_chars(tok) {
                None => return Err(MoveListError::BadCoordinate(string_of(tok))),
                Some(p) => match game.play(p) {
                    Err(e) => return Err(MoveListError::Illegal(e)),
                    Ok(_) => {},
                },
            }
            i = i + 1;
        }
        Ok(game)
    }
}

/// A well-formed board's rows hold only cell characters, one per column.
proof fn lemma_fen_rows(b: BoardModel)
    requires
        b.wf(),
    ensures
        forall|k: int| 0 <= k < b.size ==> #[trigger] fen_rows(b)[k].len() == b.size,
        forall|k: int, x: int| 0 <= k < b.size && 0 <= x < b.size ==> is_glyph(
            #[trigger] fen_rows(b)[k][x],
        ) && glyph_cell(fen_rows(b)[k][x]) == b.at(x, b.size - 1 - k),
        forall|k: int| 0 <= k < b.size ==> !has_char(#[trigger] fen_rows(b)[k], '/'),
{
    assert forall|k: int| 0 <= k < b.size implies !has_char(#[trigger] fen_rows(b)[k], '/') by {
        if has_char(fen_rows(b)[k], '/') {
            let x = choose|x: int| 0 <= x < fen_rows(b)[k].len() && fen_rows(b)[k][x] == '/';
            assert(fen_rows(b)[k][x] == cell_glyph(b.at(x, b.size - 1 - k)));
        }
    }
}

/// Rows whose lengths match and that hold only cell characters have no error.
proof fn lemma_rows_ok(rows: Seq<Seq<char>>, size: int, i: int)
    requires
        0 <= i <= rows.len(),
        forall|k: int| 0 <= k < rows.len() ==> #[trigger] rows[k].len() == size,
        forall|k: int, x: int| 0 <= k < rows.len() && 0 <= x < size ==> is_glyph(#[trigger] rows[k][x]),
    ensures
        rows_error(rows, size, i) is None,
    decreases rows.len() - i,
{
    if i < rows.len() {
        lemma_first_bad_none(rows[i], 0);
        lemma_rows_ok(rows, size, i + 1);
    }
}

/// A row of cell characters has no bad character.
proof fn lemma_first_bad_none(row: Seq<char>, j: int)
    requires
        0 <= j <= row.len(),
        forall|x: int| j <= x < row.len() ==> is_glyph(#[trigger] row[x]),
    ensures
        first_bad(row, j) == row.len(),
    decreases row.len() - j,
{
    if j < row.len() {
        lemma_first_bad_none(row, j + 1);
    }
}

/// Parsing the FEN text of a board gives back that board.
pub proof fn lemma_fen_round_trip(b: BoardModel)
    requires
        b.wf(),
    ensures
        fen_parse(fen_text(b)) == Ok::<BoardModel, FenError>(b),
{
    let n = b.size;
    let d = decimal(n as nat);
    let body = join(fen_rows(b), '/');
    let s = fen_text(b);
    lemma_decimal(n as nat);
    assert forall|j: int| 0 <= j < d.len() implies s[j] != ':' by {
        assert(s[j] == d[j]);
        assert(is_digit(d[j]));
    }
    assert(s[d.len() as int] == ':');
    lemma_find_from(s, ':', 0, d.len() as int);
    assert(s.take(d.len() as int) =~= d);
    assert(is_digit(d[0]) && is_digit(d[d.len() - 1]));
    assert(d.last() == d[d.len() - 1]);
    lemma_trim_identity(d);
    assert(parse_unsigned(d, 255) == Some(n as nat));
    assert(s.skip(d.len() + 1int) =~= body);
    lemma_fen_rows(b);
    lemma_split_join(fen_rows(b), '/');
    let rows = fen_rows(b);
    lemma_rows_ok(rows, n, 0);
    let m = fen_board(rows, n);
    crate::board::lemma_square_bound(n);
    assert forall|x: int, y: int| m.on_board(x, y) implies #[trigger] m.at(x, y) == b.at(x, y) by {
        crate::board::lemma_index_bounds(n, x, y);
        lemma_div_mod_of(n, x, y);
        assert(rows[n - 1 - y][x] == fen_rows(b)[n - 1 - y][x]);
        assert(glyph_cell(fen_rows(b)[n - 1 - y][x]) == b.at(x, n - 1 - (n - 1 - y)));
    }
    lemma_board_ext(m, b);
}

/// A move text is a non-empty word without whitespace.
proof fn lemma_point_word(p: Point)
    requires
        p.x < 26,
    ensures
        point_text(p).len() >= 1,
        no_ws(point_text(p)),
{
    let n = (p.y + 1) as nat;
    lemma_decimal(n);
    let t = point_text(p);
    assert forall|i: int| 0 <= i < t.len() implies !is_ws(#[trigger] t[i]) by {
        if i > 0 {
            assert(t[i] == decimal(n)[i - 1]);
            assert(is_digit(decimal(n)[i - 1]));
        }
    }
}

/// Replaying the texts of legally playable points plays them, and the
/// history grows by exactly those points.
proof fn lemma_replay_points(g: GameModel, pts: Seq<Point>)
    requires
        g.wf(),
        play_all(g, pts) is Some,
    ensures
        play_all(g, pts) matches Some(g2) && replay(g, pts.map_values(|p: Point| point_text(p)))
            == ReplayModel::Replayed(g2) && history_points(g2.history) == history_points(g.history)
            + pts,
    decreases pts.len(),
{
    if pts.len() == 0 {
        assert(history_points(g.history) + pts =~= history_points(g.history));
    } else {
        let p = pts[0];
        let texts = pts.map_values(|q: Point| point_text(q));
        assert(g.legality_error(p) is None);
        assert(g.move_error(p) is None);
        assert(g.board.on_board(p.x as int, p.y as int));
        lemma_point_text_round_trip(p);
        assert(texts[0] == point_text(p));
        assert(texts.skip(1) =~= pts.skip(1).map_values(|q: Point| point_text(q)));
        lemma_play_wf(g, p);
        let g1 = g.after_play(p);
        lemma_replay_points(g1, pts.skip(1));
        assert(history_points(g1.history) =~= history_points(g.history).push(p));
        assert(history_points(g.history).push(p) + pts.skip(1) =~= history_points(g.history) + pts);
    }
}

/// Writing out the move list of a game reached by legal moves from the start
/// and replaying it under the same rules rebuilds that very game.
pub proof fn lemma_move_list_round_trip(rules: RuleSet, pts: Seq<Point>)
    requires
        rules.valid(),
    ensures
        play_all(initial_game(rules), pts) matches Some(g) ==> replay(
            initial_game(rules),
            words(move_list_text(g.history)),
        ) == ReplayModel::Replayed(g),
{
    let g0 = initial_game(rules);
    if let Some(g) = play_all(g0, pts) {
        lemma_initial_wf(rules);
        lemma_replay_points(g0, pts);
        assert(history_points(g0.history) + pts =~= pts);
        let texts = g.history.map_values(|r: MoveRecord| point_text(r.point));
        assert(texts =~= pts.map_values(|p: Point| point_text(p)));
        assert forall|i: int| 0 <= i < texts.len() implies (#[trigger] texts[i]).len() >= 1 && no_ws(
            texts[i],
        ) by {
            lemma_points_on_board(g0, pts, i);
            lemma_point_word(pts[i]);
        }
        lemma_words_join(texts);
    }
}

/// Every point of a legal sequence lies on the board, so its column has a
/// letter.
proof fn lemma_points_on_board(g: GameModel, pts: Seq<Point>, i: int)
    requires
        g.wf(),
        play_all(g, pts) is Some,
        0 <= i < pts.len(),
    ensures
        pts[i].x < 26,
    decreases pts.len(),
{
    let p = pts[0];
    assert(g.legality_error(p) is None);
    assert(g.move_error(p) is None);
    if i > 0 {
        lemma_play_wf(g, p);
        lemma_points_on_board(g.after_play(p), pts.skip(1), i - 1);
        assert(pts.skip(1)[i - 1] == pts[i]);
    }
}

} // verus!
