//! The board that a game is played on.

use crate::cascade::{
    cascade_goes_on, cascade_reaches_start, cascade_stops_at_number, cascading, frontier, settled,
    settled_holds_cascade, spread,
};
use crate::cells::CellSet;
use crate::lemmas::{
    cell_at_is_on_grid, grid_finite, neighbors_len, scattered_is_sound, take_excludes_next,
    take_next_to_set, zero_count_is_clear,
};
use crate::model::{adjacent, grid, precedes, scattered, scattered_from, span, BoardState};
pub use crate::model::{OpenResult, Position};
use crate::random::RandomSource;
use vstd::prelude::*;

verus! {

/// Why the board refused a request.
#[derive(Clone, Copy, Debug, PartialEq, Eq, Structural)]
pub enum BoardError {
    /// A board needs at least one column and one row.
    InvalidDimensions,
    /// More mines were asked for than the grid has cells.
    InvalidMineCount,
    /// The position lies outside the grid.
    OutOfBounds,
}

/// A minesweeper board: the grid, its mines, and what the player has opened
/// and flagged so far.
#[derive(Debug)]
pub struct Minesweeper {
    width: usize,
    height: usize,
    open_fields: CellSet,
    mines: CellSet,
    flagged_fields: CellSet,
    lost: bool,
}

impl View for Minesweeper {
    type V = BoardState;

    closed spec fn view(&self) -> BoardState {
        BoardState {
            width: self.width as nat,
            height: self.height as nat,
            mines: self.mines@,
            open: self.open_fields@,
            flagged: self.flagged_fields@,
            lost: self.lost,
        }
    }
}

impl Minesweeper {
    /// The board is one that a game can reach.
    pub open spec fn wf(&self) -> bool {
        self@.inv()
    }

    /// A board with the given mines, nothing opened and nothing flagged.
    /// A cell named twice holds one mine.
    pub fn with_mines(width: usize, height: usize, mines: &[Position]) -> (r: Result<
        Minesweeper,
        BoardError,
    >)
        ensures
            match r {
                Ok(b) => {
                    &&& width > 0 && height > 0
                    &&& forall|i: int|
                        0 <= i < mines@.len() ==> grid(width as nat, height as nat).contains(
                            #[trigger] mines@[i],
                        )
                    &&& b@ == BoardState::fresh(width as nat, height as nat, mines@.to_set())
                    &&& b.wf()
                },
                Err(BoardError::InvalidDimensions) => width == 0 || height == 0,
                Err(BoardError::OutOfBounds) => {
                    &&& width > 0 && height > 0
                    &&& exists|i: int|
                        0 <= i < mines@.len() && !grid(width as nat, height as nat).contains(
                            #[trigger] mines@[i],
                        )
                },
                Err(BoardError::InvalidMineCount) => false,
            },
    {
        if width == 0 || height == 0 {
            return Err(BoardError::InvalidDimensions);
        }
        let mut placed = CellSet::new();
        let mut i: usize = 0;
        while i < mines.len()
            invariant
                width > 0 && height > 0,
                i <= mines@.len(),
                placed@ == mines@.take(i as int).to_set(),
                forall|k: int|
                    0 <= k < i ==> grid(width as nat, height as nat).contains(#[trigger] mines@[k]),
            decreases mines@.len() - i,
        {
            let p = mines[i];
            if p.0 >= width || p.1 >= height {
                assert(!grid(width as nat, height as nat).contains(mines@[i as int]));
                return Err(BoardError::OutOfBounds);
            }
            placed.insert(p);
            proof {
                take_next_to_set(mines@, i as int);
            }
            i += 1;
        }
        assert(mines@.take(i as int) == mines@);
        let board = Minesweeper {
            width,
            height,
            open_fields: CellSet::new(),
            mines: placed,
            flagged_fields: CellSet::new(),
            lost: false,
        };
        proof {
            assert forall|q: Position| mines@.to_set().contains(q) implies grid(
                width as nat,
                height as nat,
            ).contains(q) by {
                let k = choose|k: int| 0 <= k < mines@.len() && mines@[k] == q;
                assert(grid(width as nat, height as nat).contains(mines@[k]));
            }
        }
        Ok(board)
    }

    /// A board whose mines are selected by the given numbers, one mine for
    /// each. The same numbers always select the same mines.
    pub fn from_draws(width: usize, height: usize, draws: &[u128]) -> (r: Result<
        Minesweeper,
        BoardError,
    >)
        ensures
            match r {
                Ok(b) => {
                    &&& width > 0 && height > 0
                    &&& draws@.len() <= width * height
                    &&& b@ == BoardState::fresh(
                        width as nat,
                        height as nat,
                        scattered(width as nat, height as nat, draws@),
                    )
                    &&& b@.mines.finite()
                    &&& b@.mines.len() == draws@.len()
                    &&& b@.mines.subset_of(grid(width as nat, height as nat))
                    &&& b.wf()
                },
                Err(BoardError::InvalidDimensions) => width == 0 || height == 0,
                Err(BoardError::InvalidMineCount) => {
                    &&& width > 0 && height > 0
                    &&& draws@.len() > width * height
                },
                Err(BoardError::OutOfBounds) => false,
            },
    {
        if width == 0 || height == 0 {
            return Err(BoardError::InvalidDimensions);
        }
        assert(width * height <= usize::MAX * usize::MAX) by (nonlinear_arith)
            requires
                width <= usize::MAX,
                height <= usize::MAX,
        ;
        let columns = width as u128;
        let cells: u128 = columns * (height as u128);
        if draws.len() as u128 > cells {
            return Err(BoardError::InvalidMineCount);
        }
        let first: u128 = cells - draws.len() as u128;
        let mut mines = CellSet::new();
        let mut i: usize = 0;
        while i < draws.len()
            invariant
                0 < width == columns,
                cells == width * height,
                first + draws@.len() == cells,
                i <= draws@.len(),
                mines@ == scattered_from(width as nat, first as int, draws@.take(i as int)),
            decreases draws@.len() - i,
        {
            let last: u128 = first + i as u128;
            let draw = draws[i] % (last + 1);
            proof {
                cell_at_is_on_grid(width as nat, height as nat, draw as int);
                cell_at_is_on_grid(width as nat, height as nat, last as int);
            }
            let drawn: Position = ((draw % columns) as usize, (draw / columns) as usize);
            let chosen: Position = if mines.contains(drawn) {
                ((last % columns) as usize, (last / columns) as usize)
            } else {
                drawn
            };
            mines.insert(chosen);
            proof {
                assert(draws@.take(i + 1).drop_last() == draws@.take(i as int));
            }
            i += 1;
        }
        proof {
            assert(draws@.take(i as int) == draws@);
            scattered_is_sound(width as nat, height as nat, first as int, draws@);
        }
        Ok(
            Minesweeper {
                width,
                height,
                open_fields: CellSet::new(),
                mines,
                flagged_fields: CellSet::new(),
                lost: false,
            },
        )
    }

    /// A board with `mine_count` mines in cells picked at random.
    pub fn new(width: usize, height: usize, mine_count: usize) -> (r: Result<
        Minesweeper,
        BoardError,
    >)
        ensures
            match r {
                Ok(b) => {
                    &&& width > 0 && height > 0
                    &&& mine_count <= width * height
                    &&& b@ == BoardState::fresh(width as nat, height as nat, b@.mines)
                    &&& b@.mines.finite()
                    &&& b@.mines.len() == mine_count
                    &&& b@.mines.subset_of(grid(width as nat, height as nat))
                    &&& exists|draws: Seq<u128>|
                        draws.len() == mine_count && b@.mines == #[trigger] scattered(
                            width as nat,
                            height as nat,
                            draws,
                        )
                    &&& b.wf()
                },
                Err(BoardError::InvalidDimensions) => width == 0 || height == 0,
                Err(BoardError::InvalidMineCount) => {
                    &&& width > 0 && height > 0
                    &&& mine_count > width * height
                },
                Err(BoardError::OutOfBounds) => false,
            },
    {
        if width == 0 || height == 0 {
            return Err(BoardError::InvalidDimensions);
        }
        assert(width * height <= usize::MAX * usize::MAX) by (nonlinear_arith)
            requires
                width <= usize::MAX,
                height <= usize::MAX,
        ;
        let cells: u128 = width as u128 * (height as u128);
        if mine_count as u128 > cells {
            return Err(BoardError::InvalidMineCount);
        }
        let first: u128 = cells - mine_count as u128;
        let mut source = RandomSource::new();
        let mut draws: Vec<u128> = Vec::new();
        while draws.len() < mine_count
            invariant
                draws@.len() <= mine_count,
                first + mine_count == cells,
            decreases mine_count - draws@.len(),
        {
            let reach: u128 = first + draws.len() as u128 + 1;
            draws.push(source.random_range(0, reach));
        }
        Minesweeper::from_draws(width, height, draws.as_slice())
    }

    /// The number of columns.
    pub fn width(&self) -> (w: usize)
        ensures
            w == self@.width,
    {
        self.width
    }

    /// The number of rows.
    pub fn height(&self) -> (h: usize)
        ensures
            h == self@.height,
    {
        self.height
    }

    /// Whether a mine has been opened; nothing changes any more after that.
    pub fn is_lost(&self) -> (b: bool)
        ensures
            b == self@.lost,
    {
        self.lost
    }

    /// Whether `p` is a cell of the grid.
    pub fn in_bounds(&self, p: Position) -> (b: bool)
        ensures
            b == self@.in_bounds(p),
    {
        p.0 < self.width && p.1 < self.height
    }

    /// Whether `p` holds a mine.
    pub fn is_mine(&self, p: Position) -> (b: bool)
        ensures
            b == self@.mines.contains(p),
    {
        self.mines.contains(p)
    }

    /// Whether `p` has been opened.
    pub fn is_open(&self, p: Position) -> (b: bool)
        ensures
            b == self@.open.contains(p),
    {
        self.open_fields.contains(p)
    }

    /// Whether `p` carries a flag.
    pub fn is_flagged(&self, p: Position) -> (b: bool)
        ensures
            b == self@.flagged.contains(p),
    {
        self.flagged_fields.contains(p)
    }

    /// The cells around `p`, column by column and from the top down in each.
    pub fn iter_neighbor(&self, p: Position) -> (r: Result<Vec<Position>, BoardError>)
        ensures
            match r {
                Ok(v) => {
                    &&& self@.in_bounds(p)
                    &&& v@.to_set() == self@.neighbors(p)
                    &&& v@.no_duplicates()
                    &&& forall|a: int, b: int|
                        0 <= a < b < v@.len() ==> precedes(#[trigger] v@[a], #[trigger] v@[b])
                    &&& v@.len() == span(p.0, self@.width) * span(p.1, self@.height) - 1
                },
                Err(e) => e == BoardError::OutOfBounds && !self@.in_bounds(p),
            },
    {
        if !self.in_bounds(p) {
            return Err(BoardError::OutOfBounds);
        }
        Ok(self.cells_around(p))
    }

    /// How many of the cells around `p` hold a mine.
    pub fn neighbor_mines_count(&self, p: Position) -> (r: Result<u8, BoardError>)
        ensures
            match r {
                Ok(c) => self@.in_bounds(p) && c == self@.adjacent_mines(p) && c <= 8,
                Err(e) => e == BoardError::OutOfBounds && !self@.in_bounds(p),
            },
    {
        if !self.in_bounds(p) {
            return Err(BoardError::OutOfBounds);
        }
        Ok(self.mines_around(p))
    }

    /// The cells around a cell of the grid, in reading order by columns.
    pub(crate) fn cells_around(&self, p: Position) -> (v: Vec<Position>)
        requires
            self@.in_bounds(p),
        ensures
            v@.to_set() == self@.neighbors(p),
            forall|a: int, b: int|
                0 <= a < b < v@.len() ==> precedes(#[trigger] v@[a], #[trigger] v@[b]),
            v@.no_duplicates(),
            v@.len() == self@.neighbors(p).len(),
            v@.len() == span(p.0, self@.width) * span(p.1, self@.height) - 1,
            v@.len() <= 8,
    {
        let (x, y) = p;
        let x_lo = if x > 0 {
            x - 1
        } else {
            0
        };
        let x_hi = if x + 1 < self.width {
            x + 1
        } else {
            x
        };
        let y_lo = if y > 0 {
            y - 1
        } else {
            0
        };
        let y_hi = if y + 1 < self.height {
            y + 1
        } else {
            y
        };
        let mut out: Vec<Position> = Vec::new();
        let mut i = x_lo;
        while i <= x_hi
            invariant
                p == (x, y),
                x_lo <= x <= x_hi < self.width,
                y_lo <= y <= y_hi < self.height,
                x_lo <= i <= x_hi + 1,
                forall|q: Position| #[trigger]
                    out@.contains(q) <==> x_lo <= q.0 < i && y_lo <= q.1 <= y_hi && q != p,
                forall|a: int, b: int|
                    0 <= a < b < out@.len() ==> precedes(#[trigger] out@[a], #[trigger] out@[b]),
            decreases x_hi + 1 - i,
        {
            let mut j = y_lo;
            while j <= y_hi
                invariant
                    p == (x, y),
                    x_lo <= x <= x_hi < self.width,
                    y_lo <= y <= y_hi < self.height,
                    x_lo <= i <= x_hi,
                    y_lo <= j <= y_hi + 1,
                    forall|q: Position| #[trigger]
                        out@.contains(q) <==> {
                            &&& q != p
                            &&& (x_lo <= q.0 < i && y_lo <= q.1 <= y_hi) || (q.0 == i && y_lo
                                <= q.1 < j)
                        },
                    forall|a: int, b: int|
                        0 <= a < b < out@.len() ==> precedes(
                            #[trigger] out@[a],
                            #[trigger] out@[b],
                        ),
                decreases y_hi + 1 - j,
            {
                if i != x || j != y {
                    let ghost before = out@;
                    out.push((i, j));
                    proof {
                        assert forall|a: int| 0 <= a < before.len() implies precedes(
                            #[trigger] out@[a],
                            (i, j),
                        ) by {
                            assert(before.contains(before[a]));
                        }
                        assert forall|q: Position| #[trigger]
                            out@.contains(q) <==> before.contains(q) || q == (i, j) by {
                            if before.contains(q) {
                                let k = choose|k: int| 0 <= k < before.len() && before[k] == q;
                                assert(out@[k] == q);
                            }
                            if q == (i, j) {
                                assert(out@[before.len() as int] == q);
                            }
                        }
                    }
                }
                j += 1;
            }
            i += 1;
        }
        proof {
            assert forall|q: Position| out@.to_set().contains(q) == self@.neighbors(p).contains(
                q,
            ) by {
                assert(out@.contains(q) <==> x_lo <= q.0 <= x_hi && y_lo <= q.1 <= y_hi && q != p);
                assert(self@.neighbors(p).contains(q) <==> self@.in_bounds(q) && adjacent(p, q));
            }
            assert(out@.to_set() =~= self@.neighbors(p));
            assert forall|a: int, b: int| 0 <= a < out@.len() && 0 <= b < out@.len() && a
                != b implies out@[a] != out@[b] by {
                if a < b {
                    assert(precedes(out@[a], out@[b]));
                } else {
                    assert(precedes(out@[b], out@[a]));
                }
            }
            out@.unique_seq_to_set();
            neighbors_len(self@.width, self@.height, p);
        }
        out
    }

    /// How many of the cells around a cell of the grid hold a mine.
    pub(crate) fn mines_around(&self, p: Position) -> (count: u8)
        requires
            self@.in_bounds(p),
        ensures
            count == self@.adjacent_mines(p),
            count <= 8,
    {
        let around = self.cells_around(p);
        let mut count: u8 = 0;
        let mut k: usize = 0;
        assert(around@.take(0).to_set().intersect(self@.mines) =~= Set::<Position>::empty());
        while k < around.len()
            invariant
                k <= around@.len() <= 8,
                around@.no_duplicates(),
                count <= k,
                count == around@.take(k as int).to_set().intersect(self@.mines).len(),
            decreases around@.len() - k,
        {
            let mined = self.mines.contains(around[k]);
            proof {
                let seen = around@.take(k as int).to_set();
                let cell = around@[k as int];
                take_next_to_set(around@, k as int);
                take_excludes_next(around@, k as int);
                if mined {
                    assert(seen.insert(cell).intersect(self@.mines) =~= seen.intersect(
                        self@.mines,
                    ).insert(cell));
                } else {
                    assert(seen.insert(cell).intersect(self@.mines) =~= seen.intersect(
                        self@.mines,
                    ));
                }
            }
            if mined {
                count += 1;
            }
            k += 1;
        }
        assert(around@.take(k as int) == around@);
        count
    }

    /// Opens `position`.
    ///
    /// On a lost board or an open cell nothing happens and nothing is
    /// reported. A flagged cell stays closed. A mine ends the game. A safe
    /// cell is opened and its count reported; where the count is zero the
    /// cells around it are opened in turn, and so on, up to flags and cells
    /// that were open before.
    pub fn open(&mut self, position: Position) -> (r: Result<Option<OpenResult>, BoardError>)
        requires
            old(self).wf(),
        ensures
            final(self).wf(),
            match r {
                Ok(outcome) => {
                    &&& old(self)@.in_bounds(position)
                    &&& final(self)@ == old(self)@.open_at(position)
                    &&& outcome == old(self)@.open_outcome(position)
                },
                Err(e) => {
                    &&& e == BoardError::OutOfBounds
                    &&& !old(self)@.in_bounds(position)
                    &&& final(self)@ == old(self)@
                },
            },
    {
        if !self.in_bounds(position) {
            return Err(BoardError::OutOfBounds);
        }
        if self.lost || self.open_fields.contains(position) {
            return Ok(None);
        }
        if self.flagged_fields.contains(position) {
            return Ok(Some(OpenResult::Flagged));
        }
        if self.mines.contains(position) {
            self.lost = true;
            self.open_fields.insert(position);
            return Ok(Some(OpenResult::Mine));
        }
        let ghost origin = self@;
        let count = self.mines_around(position);
        self.open_fields.insert(position);
        if count == 0 {
            self.cascade_from(position, Ghost(origin));
        } else {
            proof {
                cascade_stops_at_number(origin, position);
                assert(self@.open =~= origin.open.union(origin.cascade(position)));
            }
        }
        Ok(Some(OpenResult::NoMine(count)))
    }

    /// Spreads from the freshly opened cell `start`, which has no mine around
    /// it, until nothing more can be opened. `origin` is the board before
    /// `start` was opened.
    fn cascade_from(&mut self, start: Position, Ghost(origin): Ghost<BoardState>)
        requires
            origin.inv(),
            !origin.lost,
            origin.passable(start),
            !origin.mines.contains(start),
            origin.adjacent_mines(start) == 0,
            old(self)@ == (BoardState { open: origin.open.insert(start), ..origin }),
        ensures
            final(self)@ == (BoardState {
                open: origin.open.union(origin.cascade(start)),
                ..origin
            }),
            final(self).wf(),
    {
        let ghost cells = grid(origin.width, origin.height);
        proof {
            grid_finite(origin.width, origin.height);
            cascade_reaches_start(origin, start);
        }
        let mut pending: Vec<Position> = Vec::new();
        pending.push(start);
        assert(pending@[0] == start);
        while pending.len() > 0
            invariant
                origin.inv(),
                !origin.lost,
                !origin.mines.contains(start),
                cells == grid(origin.width, origin.height),
                cells.finite(),
                self.wf(),
                cascading(origin, start, self@),
                forall|k: int|
                    0 <= k < pending@.len() ==> frontier(origin, self@.open, #[trigger] pending@[k]),
                settled(origin, self@.open, pending@, None),
            decreases cells.difference(self@.open).len(), pending@.len(),
        {
            let ghost closed_before = cells.difference(self@.open).len();
            let ghost pending_before = pending@;
            let current = pending.pop().unwrap();
            assert(frontier(origin, self@.open, pending_before[pending_before.len() - 1]));
            let around = self.cells_around(current);
            proof {
                assert forall|q: Position|
                    frontier(origin, self@.open, q) && !pending@.contains(q) && q
                        != current implies #[trigger] spread(origin, self@.open, q) by {
                    if pending_before.contains(q) {
                        let k = choose|k: int|
                            0 <= k < pending_before.len() && pending_before[k] == q;
                        assert(pending@[k] == q);
                    }
                }
            }
            let mut at: usize = 0;
            while at < around.len()
                invariant
                    origin.inv(),
                    !origin.lost,
                    !origin.mines.contains(start),
                    cells == grid(origin.width, origin.height),
                    cells.finite(),
                    self.wf(),
                    cascading(origin, start, self@),
                    forall|k: int|
                        0 <= k < pending@.len() ==> frontier(
                            origin,
                            self@.open,
                            #[trigger] pending@[k],
                        ),
                    frontier(origin, self@.open, current),
                    settled(origin, self@.open, pending@, Some(current)),
                    at <= around@.len(),
                    around@.to_set() == origin.neighbors(current),
                    forall|m: int|
                        0 <= m < at && origin.passable(#[trigger] around@[m])
                            ==> self@.open.contains(around@[m]),
                    cells.difference(self@.open).len() <= closed_before,
                    cells.difference(self@.open).len() == closed_before ==> pending@.len() + 1
                        == pending_before.len(),
                decreases around@.len() - at,
            {
                let next = around[at];
                assert(around@.contains(next));
                assert(origin.neighbors(current).contains(next));
                if !self.open_fields.contains(next) && !self.flagged_fields.contains(next) {
                    let count = self.mines_around(next);
                    let ghost open_before = self@.open;
                    let ghost stack_before = pending@;
                    self.open_fields.insert(next);
                    if count == 0 {
                        pending.push(next);
                    }
                    proof {
                        assert(origin.passable(next));
                        cascade_goes_on(origin, start, current, next);
                        zero_count_is_clear(
                            origin.width,
                            origin.height,
                            origin.mines,
                            current,
                            next,
                        );
                        cells.lemma_set_insert_diff_decreases(open_before, next);
                        assert forall|k: int| 0 <= k < pending@.len() implies frontier(
                            origin,
                            self@.open,
                            #[trigger] pending@[k],
                        ) by {
                            if k < stack_before.len() {
                                assert(pending@[k] == stack_before[k]);
                                assert(frontier(origin, open_before, stack_before[k]));
                            }
                        }
                        assert forall|q: Position|
                            frontier(origin, self@.open, q) && !pending@.contains(q) && q
                                != current implies #[trigger] spread(origin, self@.open, q) by {
                            if q == next {
                                assert(count == 0);
                                assert(pending@[stack_before.len() as int] == next);
                            } else {
                                assert(frontier(origin, open_before, q));
                                if stack_before.contains(q) {
                                    let k = choose|k: int|
                                        0 <= k < stack_before.len() && stack_before[k] == q;
                                    assert(pending@[k] == q);
                                }
                                assert(spread(origin, open_before, q));
                            }
                        }
                    }
                }
                at += 1;
            }
            proof {
                assert forall|n: Position| #[trigger]
                    adjacent(current, n) && origin.passable(n) implies self@.open.contains(n) by {
                    assert(origin.neighbors(current).contains(n));
                    assert(around@.contains(n));
                    let m = choose|m: int| 0 <= m < around@.len() && around@[m] == n;
                    assert(origin.passable(around@[m]));
                }
                assert(spread(origin, self@.open, current));
            }
        }
        proof {
            assert(pending@ =~= Seq::<Position>::empty());
            settled_holds_cascade(origin, start, self@.open);
            assert(self@.open =~= origin.open.union(origin.cascade(start)));
        }
    }

    /// Sets a flag on a closed cell, or takes it off again. On an open cell,
    /// or once the game is lost, nothing happens.
    pub fn toggle_flag(&mut self, pos: Position) -> (r: Result<(), BoardError>)
        requires
            old(self).wf(),
        ensures
            final(self).wf(),
            match r {
                Ok(_) => old(self)@.in_bounds(pos) && final(self)@ == old(self)@.toggle_at(pos),
                Err(e) => {
                    &&& e == BoardError::OutOfBounds
                    &&& !old(self)@.in_bounds(pos)
                    &&& final(self)@ == old(self)@
                },
            },
    {
        if !self.in_bounds(pos) {
            return Err(BoardError::OutOfBounds);
        }
        if self.lost {
            return Ok(());
        }
        if !self.open_fields.contains(pos) {
            if !self.flagged_fields.contains(pos) {
                self.flagged_fields.insert(pos);
            } else {
                self.flagged_fields.remove(pos);
            }
        }
        Ok(())
    }
}

} // verus!
