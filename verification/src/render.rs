//! The board as text.

use crate::minesweeper::{BoardError, Minesweeper};
use crate::model::{digit, token, Glyph, Position};
use vstd::prelude::*;
use vstd::string::StringExecFns;

verus! {

fn digit_text(d: u8) -> (s: &'static str)
    requires
        d < 10,
    ensures
        s@ == seq![digit(d)],
{
    proof {
        reveal_strlit("0");
        reveal_strlit("1");
        reveal_strlit("2");
        reveal_strlit("3");
        reveal_strlit("4");
        reveal_strlit("5");
        reveal_strlit("6");
        reveal_strlit("7");
        reveal_strlit("8");
        reveal_strlit("9");
    }
    let s = if d == 0 {
        "0"
    } else if d == 1 {
        "1"
    } else if d == 2 {
        "2"
    } else if d == 3 {
        "3"
    } else if d == 4 {
        "4"
    } else if d == 5 {
        "5"
    } else if d == 6 {
        "6"
    } else if d == 7 {
        "7"
    } else if d == 8 {
        "8"
    } else {
        "9"
    };
    assert(s@ =~= seq![digit(d)]);
    s
}

/// The text that stands for a glyph.
pub fn token_text(g: Glyph) -> (s: String)
    ensures
        s@ == token(g),
{
    proof {
        reveal_strlit("\u{1F4A3} ");
        reveal_strlit("\u{1F6A9} ");
        reveal_strlit("\u{1F7EA} ");
        reveal_strlit("\u{2B1C} ");
        reveal_strlit(" ");
    }
    let s = match g {
        Glyph::Mine => String::from_str("\u{1F4A3} "),
        Glyph::Flag => String::from_str("\u{1F6A9} "),
        Glyph::Hidden => String::from_str("\u{1F7EA} "),
        Glyph::Empty => String::from_str("\u{2B1C} "),
        Glyph::Number(n) => {
            let mut s = String::from_str(" ");
            if n >= 100 {
                s.append(digit_text(n / 100));
            }
            if n >= 10 {
                s.append(digit_text(n / 10 % 10));
            }
            s.append(digit_text(n % 10));
            s.append(" ");
            s
        },
    };
    assert(s@ =~= token(g));
    s
}

impl Minesweeper {
    /// What the cell `p` shows.
    pub fn glyph(&self, p: Position) -> (r: Result<Glyph, BoardError>)
        ensures
            match r {
                Ok(g) => self@.in_bounds(p) && g == self@.glyph_at(p),
                Err(e) => e == BoardError::OutOfBounds && !self@.in_bounds(p),
            },
    {
        if !self.in_bounds(p) {
            return Err(BoardError::OutOfBounds);
        }
        Ok(self.glyph_inside(p))
    }

    fn glyph_inside(&self, p: Position) -> (g: Glyph)
        requires
            self@.in_bounds(p),
        ensures
            g == self@.glyph_at(p),
    {
        if !self.is_open(p) {
            if self.is_lost() && self.is_mine(p) {
                Glyph::Mine
            } else if self.is_flagged(p) {
                Glyph::Flag
            } else {
                Glyph::Hidden
            }
        } else if self.is_mine(p) {
            Glyph::Mine
        } else {
            let count = self.mines_around(p);
            if count > 0 {
                Glyph::Number(count)
            } else {
                Glyph::Empty
            }
        }
    }

    /// The board as text: one line for each row from the top, one token for
    /// each cell from the left.
    pub fn render(&self) -> (out: String)
        ensures
            out@ == self@.rendered(),
    {
        let mut out = String::new();
        let width = self.width();
        let height = self.height();
        let mut y: usize = 0;
        while y < height
            invariant
                width == self@.width,
                height == self@.height,
                y <= height,
                out@ == self@.text(y as nat),
            decreases height - y,
        {
            let ghost above = out@;
            let mut x: usize = 0;
            while x < width
                invariant
                    width == self@.width,
                    height == self@.height,
                    y < height,
                    x <= width,
                    out@ == above + self@.row_text(y, x as nat),
                decreases width - x,
            {
                let word = token_text(self.glyph_inside((x, y)));
                out.append(word.as_str());
                assert(out@ =~= above + self@.row_text(y, (x + 1) as nat));
                x += 1;
            }
            out.append("\n");
            proof {
                reveal_strlit("\n");
                assert(out@ =~= self@.text((y + 1) as nat));
            }
            y += 1;
        }
        out
    }
}

} // verus!
