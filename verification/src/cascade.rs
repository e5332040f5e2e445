//! How a cascade spreads, and why a work list finds all of it.

use crate::lemmas::zero_count_is_clear;
use crate::model::{adjacent, grid, BoardState, Position};
use vstd::prelude::*;

verus! {

/// `now` is `origin` with more cells open, each of them reached by the
/// cascade from `start`.
pub open spec fn cascading(origin: BoardState, start: Position, now: BoardState) -> bool {
    &&& now.width == origin.width
    &&& now.height == origin.height
    &&& now.mines == origin.mines
    &&& now.flagged == origin.flagged
    &&& now.lost == origin.lost
    &&& origin.open.subset_of(now.open)
    &&& now.open.contains(start)
    &&& forall|q: Position| #[trigger]
        now.open.contains(q) && !origin.open.contains(q) ==> origin.cascades_to(start, q)
}

/// Every cell around `q` that the cascade may enter is open.
pub open spec fn spread(origin: BoardState, open: Set<Position>, q: Position) -> bool {
    forall|n: Position| #[trigger] adjacent(q, n) && origin.passable(n) ==> open.contains(n)
}

/// A cell that the cascade has opened and must still spread from.
pub open spec fn frontier(origin: BoardState, open: Set<Position>, q: Position) -> bool {
    &&& origin.in_bounds(q)
    &&& open.contains(q)
    &&& !origin.open.contains(q)
    &&& origin.adjacent_mines(q) == 0
}

/// The cascade has spread from every cell it must spread from, but for
/// those in `pending` and for `current`.
pub open spec fn settled(
    origin: BoardState,
    open: Set<Position>,
    pending: Seq<Position>,
    current: Option<Position>,
) -> bool {
    forall|q: Position|
        frontier(origin, open, q) && !pending.contains(q) && current != Some(q) ==> #[trigger] spread(
            origin,
            open,
            q,
        )
}

/// The cascade reaches the cell it starts from.
pub proof fn cascade_reaches_start(s: BoardState, p: Position)
    requires
        s.passable(p),
    ensures
        s.cascades_to(p, p),
{
    let path = seq![p];
    assert(s.cascade_path(path) && path[0] == p && path.last() == p);
}

/// From a cell without adjacent mines the cascade goes on to every passable
/// cell around it.
pub proof fn cascade_goes_on(s: BoardState, p: Position, q: Position, n: Position)
    requires
        s.cascades_to(p, q),
        s.adjacent_mines(q) == 0,
        adjacent(q, n),
        s.passable(n),
    ensures
        s.cascades_to(p, n),
{
    let path = choose|path: Seq<Position>|
        #![trigger s.cascade_path(path)]
        s.cascade_path(path) && path[0] == p && path.last() == q;
    let longer = path.push(n);
    assert forall|i: int| 0 <= i < longer.len() implies s.passable(#[trigger] longer[i]) by {
        if i < path.len() {
            assert(longer[i] == path[i]);
        }
    }
    assert forall|i: int| 0 <= i < longer.len() - 1 implies {
        &&& s.adjacent_mines(#[trigger] longer[i]) == 0
        &&& adjacent(longer[i], longer[i + 1])
    } by {
        assert(longer[i] == path[i]);
        if i + 1 < path.len() {
            assert(longer[i + 1] == path[i + 1]);
        }
    }
    assert(s.cascade_path(longer) && longer[0] == p && longer.last() == n);
}

/// A cell with mines around it opens alone.
pub proof fn cascade_stops_at_number(s: BoardState, p: Position)
    requires
        s.passable(p),
        s.adjacent_mines(p) != 0,
    ensures
        s.cascade(p) == set![p],
{
    cascade_reaches_start(s, p);
    assert forall|q: Position| s.cascades_to(p, q) implies q == p by {
        let path = choose|path: Seq<Position>|
            #![trigger s.cascade_path(path)]
            s.cascade_path(path) && path[0] == p && path.last() == q;
        if path.len() > 1 {
            assert(s.adjacent_mines(path[0]) == 0);
        }
    }
    assert(s.cascade(p) =~= set![p]);
}

/// What a cascade from a safe cell opens is on the grid, was closed and
/// unflagged, and holds no mine.
pub proof fn cascade_is_safe(s: BoardState, p: Position, q: Position)
    requires
        s.mines.subset_of(grid(s.width, s.height)),
        !s.mines.contains(p),
        s.cascades_to(p, q),
    ensures
        s.passable(q),
        !s.mines.contains(q),
{
    let path = choose|path: Seq<Position>|
        #![trigger s.cascade_path(path)]
        s.cascade_path(path) && path[0] == p && path.last() == q;
    let last = path.len() - 1;
    assert(s.passable(path[last]));
    if last > 0 {
        let from = path[last - 1];
        assert(s.adjacent_mines(from) == 0 && adjacent(from, path[last - 1 + 1]));
        assert(s.neighbors(from).contains(q));
        zero_count_is_clear(s.width, s.height, s.mines, from, q);
    }
}

proof fn path_stays_inside(s: BoardState, open: Set<Position>, path: Seq<Position>, i: int)
    requires
        s.cascade_path(path),
        open.contains(path[0]),
        settled(s, open, Seq::empty(), None),
        0 <= i < path.len(),
    ensures
        open.contains(path[i]),
    decreases i,
{
    if i > 0 {
        path_stays_inside(s, open, path, i - 1);
        let from = path[i - 1];
        assert(s.passable(from));
        assert(s.adjacent_mines(from) == 0 && adjacent(from, path[i - 1 + 1]));
        assert(frontier(s, open, from));
        assert(spread(s, open, from));
        assert(s.passable(path[i]));
    }
}

/// A set that holds the start and has spread from each of its cells holds
/// all that the cascade reaches.
pub proof fn settled_holds_cascade(s: BoardState, p: Position, open: Set<Position>)
    requires
        open.contains(p),
        settled(s, open, Seq::empty(), None),
    ensures
        s.cascade(p).subset_of(open),
{
    assert forall|q: Position| s.cascade(p).contains(q) implies open.contains(q) by {
        let path = choose|path: Seq<Position>|
            #![trigger s.cascade_path(path)]
            s.cascade_path(path) && path[0] == p && path.last() == q;
        path_stays_inside(s, open, path, path.len() - 1);
    }
}

} // verus!
