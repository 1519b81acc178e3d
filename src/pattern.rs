use vstd::prelude::*;

use crate::grid::{Board, Cell, Grid};

verus! {

/// Why a pattern text was refused.
#[derive(Clone, Copy, Debug, PartialEq, Eq, Structural)]
pub enum PatternError {
    /// A character other than `x`, `-` or a line break.
    InvalidFormat,
    /// Lines of different lengths.
    UnevenRows,
}

/// Whether the character at `i` may stand in a pattern: `x` alive, `-` dead, a
/// line feed, or a carriage return that opens a `\r\n` line break.
pub open spec fn is_pattern_char_at(s: Seq<char>, i: int) -> bool {
    ||| s[i] == 'x'
    ||| s[i] == '-'
    ||| s[i] == '\n'
    ||| (s[i] == '\r' && i + 1 < s.len() && s[i + 1] == '\n')
}

pub open spec fn all_pattern_chars(s: Seq<char>) -> bool {
    forall|i: int| 0 <= i < s.len() ==> #[trigger] is_pattern_char_at(s, i)
}

/// `s` cut at every line feed: one more piece than there are line feeds.
/// Carriage returns are left out, so that in a text of pattern characters a
/// `\r\n` line break counts as a line feed alone.
pub open spec fn pieces(s: Seq<char>) -> Seq<Seq<char>>
    decreases s.len(),
{
    if s.len() == 0 {
        seq![Seq::empty()]
    } else {
        let p = pieces(s.drop_last());
        if s.last() == '\n' {
            p.push(Seq::empty())
        } else if s.last() == '\r' {
            p
        } else {
            p.update(p.len() - 1, p.last().push(s.last()))
        }
    }
}

/// The lines of `s`: its pieces, without the empty one after a final line break.
pub open spec fn lines_of(s: Seq<char>) -> Seq<Seq<char>> {
    if s.len() == 0 {
        Seq::empty()
    } else if s.last() == '\n' {
        pieces(s).drop_last()
    } else {
        pieces(s)
    }
}

/// Whether some line is longer or shorter than the first.
pub open spec fn uneven(ls: Seq<Seq<char>>) -> bool {
    exists|i: int| 0 <= i < ls.len() && #[trigger] ls[i].len() != ls[0].len()
}

/// The board that equal-length lines describe; lines without any cell give the
/// empty board.
pub open spec fn board_of_lines(ls: Seq<Seq<char>>) -> Board {
    if ls.len() == 0 || ls[0].len() == 0 {
        Board { width: 0, height: 0, alive: Seq::empty() }
    } else {
        Board {
            width: ls[0].len() as int,
            height: ls.len() as int,
            alive: Seq::new(ls.len(), |y: int| Seq::new(ls[0].len(), |x: int| ls[y][x] == 'x')),
        }
    }
}

/// Whether `row` holds the cells of `line` at height `y`.
pub open spec fn row_matches(row: Seq<Cell>, line: Seq<char>, y: int) -> bool {
    &&& row.len() == line.len()
    &&& forall|x: int|
        0 <= x < row.len() ==> #[trigger] row[x] == (Cell {
            x: x as i32,
            y: y as i32,
            alive: line[x] == 'x',
        })
}

proof fn lemma_pieces_len(s: Seq<char>)
    ensures
        pieces(s).len() >= 1,
        pieces(s).len() <= s.len() + 1,
        forall|k: int| 0 <= k < pieces(s).len() ==> #[trigger] pieces(s)[k].len() <= s.len(),
    decreases s.len(),
{
    if s.len() > 0 {
        lemma_pieces_len(s.drop_last());
    }
}

/// Parses a pattern: one line per row, `x` for a live cell and `-` for a dead
/// one, `x` growing along a line and `y` down the lines.
pub fn parse_pattern_file(grid_string: &str) -> (r: Result<Grid, PatternError>)
    requires
        grid_string@.len() < i32::MAX,
    ensures
        !all_pattern_chars(grid_string@) ==> r == Err::<Grid, PatternError>(
            PatternError::InvalidFormat,
        ),
        all_pattern_chars(grid_string@) && uneven(lines_of(grid_string@)) ==> r == Err::<
            Grid,
            PatternError,
        >(PatternError::UnevenRows),
        all_pattern_chars(grid_string@) && !uneven(lines_of(grid_string@)) ==> r is Ok
            && r->Ok_0.wf() && r->Ok_0@ == board_of_lines(lines_of(grid_string@)),
{
    let ghost s = grid_string@;
    let n = grid_string.unicode_len();
    let mut i: usize = 0;
    while i < n
        invariant
            n == s.len(),
            s == grid_string@,
            i <= n,
            forall|j: int| 0 <= j < i ==> #[trigger] is_pattern_char_at(s, j),
        decreases n - i,
    {
        let c = grid_string.get_char(i);
        let crlf = c == '\r' && i + 1 < n && grid_string.get_char(i + 1) == '\n';
        if !(c == 'x' || c == '-' || c == '\n' || crlf) {
            assert(!is_pattern_char_at(s, i as int));
            return Err(PatternError::InvalidFormat);
        }
        i += 1;
    }
    let mut rows: Vec<Vec<Cell>> = Vec::new();
    let mut row: Vec<Cell> = Vec::new();
    i = 0;
    while i < n
        invariant
            n == s.len(),
            s == grid_string@,
            n < i32::MAX,
            i <= n,
            rows@.len() + 1 == pieces(s.take(i as int)).len(),
            forall|k: int| 0 <= k < rows@.len() ==> row_matches(#[trigger] rows@[k]@, pieces(s.take(i as int))[k], k),
            row_matches(row@, pieces(s.take(i as int)).last(), rows@.len() as int),
        decreases n - i,
    {
        proof {
            assert(s.take(i + 1).drop_last() == s.take(i as int));
            lemma_pieces_len(s.take(i as int));
        }
        let c = grid_string.get_char(i);
        if c == '\n' {
            rows.push(row);
            row = Vec::new();
        } else if c == '\r' {
        } else {
            row.push(Cell { x: row.len() as i32, y: rows.len() as i32, alive: c == 'x' });
        }
        i += 1;
    }
    proof {
        assert(s.take(n as int) == s);
        lemma_pieces_len(s);
    }
    if n > 0 && grid_string.get_char(n - 1) != '\n' {
        rows.push(row);
    }
    assert(rows@.len() == lines_of(s).len());
    assert(forall|k: int| 0 <= k < rows@.len() ==> row_matches(#[trigger] rows@[k]@, lines_of(s)[k], k));
    if rows.len() == 0 {
        let g = Grid { cells: rows, size_x: 0, size_y: 0 };
        assert(g@.alive =~= board_of_lines(lines_of(s)).alive);
        return Ok(g);
    }
    let width = rows[0].len();
    let mut k: usize = 0;
    while k < rows.len()
        invariant
            s == grid_string@,
            n == s.len(),
            n < i32::MAX,
            all_pattern_chars(s),
            forall|j: int| 0 <= j < lines_of(s).len() ==> #[trigger] lines_of(s)[j].len() <= n,
            rows@.len() == lines_of(s).len(),
            rows@.len() > 0,
            width == lines_of(s)[0].len(),
            forall|j: int| 0 <= j < rows@.len() ==> row_matches(#[trigger] rows@[j]@, lines_of(s)[j], j),
            k <= rows@.len(),
            forall|j: int| 0 <= j < k ==> #[trigger] lines_of(s)[j].len() == width,
        decreases rows@.len() - k,
    {
        if rows[k].len() != width {
            assert(lines_of(s)[k as int].len() != lines_of(s)[0].len());
            return Err(PatternError::UnevenRows);
        }
        k += 1;
    }
    if width == 0 {
        let g = Grid { cells: Vec::new(), size_x: 0, size_y: 0 };
        assert(g@.alive =~= board_of_lines(lines_of(s)).alive);
        return Ok(g);
    }
    let height = rows.len() as i32;
    let g = Grid { cells: rows, size_x: width as i32, size_y: height };
    assert forall|y: int| 0 <= y < height implies #[trigger] g@.alive[y] =~= board_of_lines(lines_of(s)).alive[y] by {
        assert(row_matches(g.cells@[y]@, lines_of(s)[y], y));
    }
    assert(g@.alive =~= board_of_lines(lines_of(s)).alive);
    Ok(g)
}

} // verus!
