use vstd::prelude::*;

use colored::Colorize;

use crate::grid::Grid;

verus! {

/// The square drawn for every cell.
pub open spec fn is_square(c: char) -> bool {
    c == '\u{2B1B}'
}

/// Whether `s` holds the square somewhere.
pub open spec fn shows_square(s: Seq<char>) -> bool {
    exists|i: int| 0 <= i < s.len() && is_square(#[trigger] s[i])
}

/// One glyph per cell of `row`: `live` for a live cell, `dead` for a dead one.
pub open spec fn row_text(row: Seq<bool>, live: Seq<char>, dead: Seq<char>) -> Seq<char>
    decreases row.len(),
{
    if row.len() == 0 {
        Seq::empty()
    } else {
        row_text(row.drop_last(), live, dead) + if row.last() {
            live
        } else {
            dead
        }
    }
}

/// Every row's text followed by a line break, top row first.
pub open spec fn frame_text(rows: Seq<Seq<bool>>, live: Seq<char>, dead: Seq<char>) -> Seq<char>
    decreases rows.len(),
{
    if rows.len() == 0 {
        Seq::empty()
    } else {
        frame_text(rows.drop_last(), live, dead) + row_text(rows.last(), live, dead) + seq!['\n']
    }
}

/// Relies on colored's `Colorize::on_blue` and `Colorize::blue` and on the
/// `Display` of `ColoredString`, which writes the square either bare or between
/// colour codes, depending on whether the terminal takes colours.
#[verifier::external_body]
fn live_glyph() -> (r: String)
    ensures
        shows_square(r@),
{
    format!("{}", "\u{2B1B}".on_blue().blue())
}

/// Relies on colored's `Colorize::on_white` and `Colorize::white` and on the
/// `Display` of `ColoredString`, which writes the square either bare or between
/// colour codes, depending on whether the terminal takes colours.
#[verifier::external_body]
fn dead_glyph() -> (r: String)
    ensures
        shows_square(r@),
{
    format!("{}", "\u{2B1B}".on_white().white())
}

impl Grid {
    /// The grid as text: per row, top to bottom, `live` or `dead` for each cell
    /// and then a line break.
    pub fn render_with(&self, live: &str, dead: &str) -> (r: String)
        requires
            self.wf(),
        ensures
            r@ == frame_text(self@.alive, live@, dead@),
    {
        let ghost rows = self@.alive;
        let mut out = String::new();
        let mut y: usize = 0;
        while y < self.cells.len()
            invariant
                self.wf(),
                rows == self@.alive,
                y <= self.size_y,
                out@ == frame_text(rows.take(y as int), live@, dead@),
            decreases self.cells@.len() - y,
        {
            let ghost before = out@;
            let mut x: usize = 0;
            while x < self.cells[y].len()
                invariant
                    self.wf(),
                    rows == self@.alive,
                    y < self.size_y,
                    x <= self.size_x,
                    out@ == before + row_text(rows[y as int].take(x as int), live@, dead@),
                decreases self.cells@[y as int]@.len() - x,
            {
                proof {
                    assert(rows[y as int].take(x + 1).drop_last() == rows[y as int].take(x as int));
                }
                if self.cells[y][x].alive {
                    out.append(live);
                } else {
                    out.append(dead);
                }
                x += 1;
            }
            proof {
                reveal_strlit("\n");
                assert(rows.take(y + 1).drop_last() == rows.take(y as int));
                assert(rows[y as int].take(self.size_x as int) == rows[y as int]);
            }
            out.append("\n");
            y += 1;
        }
        proof {
            assert(rows.take(self.size_y as int) == rows);
        }
        out
    }

    /// The grid as coloured squares, one line per row, as `render_with` draws it
    /// with the live and the dead glyph.
    pub fn render(&self) -> (r: String)
        requires
            self.wf(),
        ensures
            exists|live: Seq<char>, dead: Seq<char>|
                shows_square(live) && shows_square(dead) && r@ == frame_text(self@.alive, live, dead),
    {
        let live = live_glyph();
        let dead = dead_glyph();
        self.render_with(live.as_str(), dead.as_str())
    }
}

} // verus!
