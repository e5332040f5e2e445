//! The abstract board: plain sets of positions and the transitions on them.

use vstd::prelude::*;

verus! {

/// A cell of the grid: column `x` and row `y`, both counted from zero.
pub type Position = (usize, usize);

/// What opening a cell brought to light.
#[derive(Clone, Copy, Debug, PartialEq, Eq, Structural)]
pub enum OpenResult {
    /// The cell held a mine; the game is lost.
    Mine,
    /// The cell was safe; the number counts the mines around it.
    NoMine(u8),
    /// The cell carries a flag and stayed closed.
    Flagged,
}

/// What a cell shows to the player.
#[derive(Clone, Copy, Debug, PartialEq, Eq, Structural)]
pub enum Glyph {
    /// A mine: one that was opened, or any mine once the game is lost.
    Mine,
    /// A closed cell with a flag on it.
    Flag,
    /// A closed cell.
    Hidden,
    /// An open cell with no mine around it.
    Empty,
    /// An open cell and the number of mines around it.
    Number(u8),
}

/// The text that stands for a glyph: a pictogram and a space, or a number
/// between two spaces.
pub open spec fn token(g: Glyph) -> Seq<char> {
    match g {
        Glyph::Mine => seq!['\u{1F4A3}', ' '],
        Glyph::Flag => seq!['\u{1F6A9}', ' '],
        Glyph::Hidden => seq!['\u{1F7EA}', ' '],
        Glyph::Empty => seq!['\u{2B1C}', ' '],
        Glyph::Number(n) => seq![' '] + decimal(n) + seq![' '],
    }
}

/// The character for a digit from 0 to 9.
pub open spec fn digit(d: u8) -> char {
    ((48 + d) as u8) as char
}

/// A number in decimal notation.
pub open spec fn decimal(n: u8) -> Seq<char> {
    if n >= 100 {
        seq![digit(n / 100), digit(n / 10 % 10), digit(n % 10)]
    } else if n >= 10 {
        seq![digit(n / 10), digit(n % 10)]
    } else {
        seq![digit(n)]
    }
}

/// Two distinct cells that touch by an edge or a corner.
pub open spec fn adjacent(p: Position, q: Position) -> bool {
    &&& p != q
    &&& -1 <= p.0 - q.0 <= 1
    &&& -1 <= p.1 - q.1 <= 1
}

/// Reading order by columns: `p` comes before `q`.
pub open spec fn precedes(p: Position, q: Position) -> bool {
    p.0 < q.0 || (p.0 == q.0 && p.1 < q.1)
}

/// How many of the coordinates `c - 1`, `c`, `c + 1` lie in `0..limit`.
pub open spec fn span(c: usize, limit: nat) -> int {
    if c >= limit {
        0
    } else {
        1 + (if c > 0 { 1int } else { 0 }) + (if c + 1 < limit { 1int } else { 0 })
    }
}

/// The cells of a `width` by `height` grid.
pub open spec fn grid(width: nat, height: nat) -> Set<Position> {
    Set::new(|p: Position| p.0 < width && p.1 < height)
}

/// The cells of the grid that touch `p`: its 3x3 block without `p` itself,
/// clipped at the edges of the grid.
pub open spec fn neighbors(width: nat, height: nat, p: Position) -> Set<Position> {
    Set::new(|q: Position| q.0 < width && q.1 < height && adjacent(p, q))
}

/// How many of the cells around `p` hold a mine.
pub open spec fn adjacent_mines(
    width: nat,
    height: nat,
    mines: Set<Position>,
    p: Position,
) -> nat {
    neighbors(width, height, p).intersect(mines).len()
}

/// The cell with the given number, the cells counted row by row.
pub open spec fn cell_at(width: nat, index: int) -> Position {
    ((index % width as int) as usize, (index / width as int) as usize)
}

/// The number of a cell, the cells counted row by row.
pub open spec fn index_of(width: nat, p: Position) -> int {
    p.1 * width + p.0
}

/// The mines that a run of draws selects when the first draw picks among the
/// cells numbered `0..=first`, the second among `0..=first + 1`, and so on.
/// Each draw is reduced to its range. A draw that hits a mine already placed
/// selects the last cell of its range instead, which is still free.
pub open spec fn scattered_from(width: nat, first: int, draws: Seq<u128>) -> Set<Position>
    decreases draws.len(),
{
    if draws.len() == 0 {
        Set::empty()
    } else {
        let earlier = scattered_from(width, first, draws.drop_last());
        let last = first + draws.len() - 1;
        let drawn = cell_at(width, draws.last() as int % (last + 1));
        earlier.insert(
            if earlier.contains(drawn) {
                cell_at(width, last)
            } else {
                drawn
            },
        )
    }
}

/// The mines that the draws select on a grid: one for each draw, the last
/// draw picking among all cells.
pub open spec fn scattered(width: nat, height: nat, draws: Seq<u128>) -> Set<Position> {
    scattered_from(width, width * height - draws.len(), draws)
}

/// The state of a game as mathematics sees it.
pub struct BoardState {
    pub width: nat,
    pub height: nat,
    pub mines: Set<Position>,
    pub open: Set<Position>,
    pub flagged: Set<Position>,
    pub lost: bool,
}

impl BoardState {
    /// A fresh board with the given mines, nothing opened and nothing flagged.
    pub open spec fn fresh(width: nat, height: nat, mines: Set<Position>) -> BoardState {
        BoardState {
            width,
            height,
            mines,
            open: Set::empty(),
            flagged: Set::empty(),
            lost: false,
        }
    }

    /// Whether `p` is a cell of the grid.
    pub open spec fn in_bounds(self, p: Position) -> bool {
        p.0 < self.width && p.1 < self.height
    }

    /// What holds of every board that the game can reach.
    pub open spec fn inv(self) -> bool {
        &&& 0 < self.width <= usize::MAX
        &&& 0 < self.height <= usize::MAX
        &&& self.mines.subset_of(grid(self.width, self.height))
        &&& self.open.subset_of(grid(self.width, self.height))
        &&& self.flagged.subset_of(grid(self.width, self.height))
        &&& self.open.disjoint(self.flagged)
        &&& !self.lost ==> self.open.disjoint(self.mines)
    }

    /// The cells of the grid that touch `p`.
    pub open spec fn neighbors(self, p: Position) -> Set<Position> {
        neighbors(self.width, self.height, p)
    }

    /// How many of the cells around `p` hold a mine.
    pub open spec fn adjacent_mines(self, p: Position) -> nat {
        adjacent_mines(self.width, self.height, self.mines, p)
    }

    /// A cell that a cascade may enter: on the grid, still closed, not flagged.
    pub open spec fn passable(self, p: Position) -> bool {
        &&& self.in_bounds(p)
        &&& !self.open.contains(p)
        &&& !self.flagged.contains(p)
    }

    /// A walk that a cascade can take: every cell is passable, consecutive
    /// cells touch, and every cell but the last has no mine around it.
    pub open spec fn cascade_path(self, path: Seq<Position>) -> bool {
        &&& path.len() > 0
        &&& forall|i: int| 0 <= i < path.len() ==> self.passable(#[trigger] path[i])
        &&& forall|i: int|
            0 <= i < path.len() - 1 ==> {
                &&& self.adjacent_mines(#[trigger] path[i]) == 0
                &&& adjacent(path[i], path[i + 1])
            }
    }

    /// A cascade that starts at `p` gets to `q`.
    pub open spec fn cascades_to(self, p: Position, q: Position) -> bool {
        exists|path: Seq<Position>|
            #![trigger self.cascade_path(path)]
            self.cascade_path(path) && path[0] == p && path.last() == q
    }

    /// Everything that opening the passable cell `p` reveals: the connected
    /// region of cells without adjacent mines around `p`, and the ring of
    /// numbered cells that borders it. Flags and cells already open stop the
    /// cascade.
    pub open spec fn cascade(self, p: Position) -> Set<Position> {
        Set::new(|q: Position| self.cascades_to(p, q))
    }

    /// The board after a player opens `p`.
    pub open spec fn open_at(self, p: Position) -> BoardState {
        if self.lost || self.open.contains(p) || self.flagged.contains(p) {
            self
        } else if self.mines.contains(p) {
            BoardState { open: self.open.insert(p), lost: true, ..self }
        } else {
            BoardState { open: self.open.union(self.cascade(p)), ..self }
        }
    }

    /// What the player is told on opening `p`.
    pub open spec fn open_outcome(self, p: Position) -> Option<OpenResult> {
        if self.lost || self.open.contains(p) {
            None
        } else if self.flagged.contains(p) {
            Some(OpenResult::Flagged)
        } else if self.mines.contains(p) {
            Some(OpenResult::Mine)
        } else {
            Some(OpenResult::NoMine(self.adjacent_mines(p) as u8))
        }
    }

    /// What the cell `p` shows.
    pub open spec fn glyph_at(self, p: Position) -> Glyph {
        if !self.open.contains(p) {
            if self.lost && self.mines.contains(p) {
                Glyph::Mine
            } else if self.flagged.contains(p) {
                Glyph::Flag
            } else {
                Glyph::Hidden
            }
        } else if self.mines.contains(p) {
            Glyph::Mine
        } else if self.adjacent_mines(p) > 0 {
            Glyph::Number(self.adjacent_mines(p) as u8)
        } else {
            Glyph::Empty
        }
    }

    /// The tokens of the first `upto` cells of row `y`, from the left.
    pub open spec fn row_text(self, y: usize, upto: nat) -> Seq<char>
        decreases upto,
    {
        if upto == 0 {
            Seq::empty()
        } else {
            self.row_text(y, (upto - 1) as nat) + token(self.glyph_at(((upto - 1) as usize, y)))
        }
    }

    /// The first `rows` rows from the top, each ended by a line feed.
    pub open spec fn text(self, rows: nat) -> Seq<char>
        decreases rows,
    {
        if rows == 0 {
            Seq::empty()
        } else {
            self.text((rows - 1) as nat) + self.row_text((rows - 1) as usize, self.width)
                + seq!['\n']
        }
    }

    /// The whole board as text.
    pub open spec fn rendered(self) -> Seq<char> {
        self.text(self.height)
    }

    /// The board after a player toggles the flag on `p`.
    pub open spec fn toggle_at(self, p: Position) -> BoardState {
        if self.lost || self.open.contains(p) {
            self
        } else if self.flagged.contains(p) {
            BoardState { flagged: self.flagged.remove(p), ..self }
        } else {
            BoardState { flagged: self.flagged.insert(p), ..self }
        }
    }
}

} // verus!
