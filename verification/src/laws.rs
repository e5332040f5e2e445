//! What holds of the game in general, proved from the abstract board.

use crate::cascade::{cascade_is_safe, cascade_reaches_start};
use crate::lemmas::{grid_finite, neighbors_len};
use crate::model::{adjacent, grid, neighbors, span, BoardState, OpenResult, Position};
use vstd::prelude::*;

verus! {

/// The mines, the open cells and the flags of a board are finite sets, none
/// larger than the grid.
pub proof fn sets_fit_the_grid(s: BoardState)
    requires
        s.inv(),
    ensures
        s.mines.finite() && s.mines.len() <= s.width * s.height,
        s.open.finite() && s.open.len() <= s.width * s.height,
        s.flagged.finite() && s.flagged.len() <= s.width * s.height,
{
    grid_finite(s.width, s.height);
    let cells = grid(s.width, s.height);
    vstd::set_lib::lemma_len_subset(s.mines, cells);
    vstd::set_lib::lemma_len_subset(s.open, cells);
    vstd::set_lib::lemma_len_subset(s.flagged, cells);
}

/// Opening a cell leaves a board that the game can reach.
pub proof fn open_keeps_inv(s: BoardState, p: Position)
    requires
        s.inv(),
        s.in_bounds(p),
    ensures
        s.open_at(p).inv(),
{
    assert forall|q: Position| s.cascades_to(p, q) && !s.mines.contains(p) implies s.passable(q)
        && !s.mines.contains(q) by {
        cascade_is_safe(s, p, q);
    }
}

/// Toggling a flag leaves a board that the game can reach.
pub proof fn toggle_keeps_inv(s: BoardState, p: Position)
    requires
        s.inv(),
        s.in_bounds(p),
    ensures
        s.toggle_at(p).inv(),
{
}

/// Opening a cell changes neither the grid nor the mines nor the flags, and
/// closes no cell.
pub proof fn open_only_grows(s: BoardState, p: Position)
    ensures
        s.open_at(p).width == s.width,
        s.open_at(p).height == s.height,
        s.open_at(p).mines == s.mines,
        s.open_at(p).flagged == s.flagged,
        s.open.subset_of(s.open_at(p).open),
{
}

/// Opening a cell a second time reports nothing and changes nothing, unless
/// the cell carries a flag on a board that is not lost: then both attempts
/// report the flag.
pub proof fn open_twice(s: BoardState, p: Position)
    requires
        s.inv(),
        s.in_bounds(p),
        s.lost || !s.flagged.contains(p),
    ensures
        s.open_at(p).open_outcome(p) is None,
        s.open_at(p).open_at(p) == s.open_at(p),
{
    if !s.lost && !s.open.contains(p) && !s.mines.contains(p) {
        cascade_reaches_start(s, p);
    }
}

/// On a board that is not lost, opening a flagged cell reports the flag and
/// leaves the board as it was: the cell stays closed.
pub proof fn open_flagged(s: BoardState, p: Position)
    requires
        s.inv(),
        !s.lost,
        s.flagged.contains(p),
    ensures
        s.open_outcome(p) == Some(OpenResult::Flagged),
        s.open_at(p) == s,
        !s.open_at(p).open.contains(p),
{
}

/// Opening a cell opens no cell that carries a flag.
pub proof fn open_spares_flags(s: BoardState, p: Position, q: Position)
    requires
        s.inv(),
        s.in_bounds(p),
        s.flagged.contains(q),
    ensures
        !s.open_at(p).open.contains(q),
{
    open_keeps_inv(s, p);
}

/// Opening a closed, unflagged mine reports it, opens that one cell and
/// loses the game.
pub proof fn mine_ends_game(s: BoardState, p: Position)
    requires
        !s.lost,
        !s.open.contains(p),
        !s.flagged.contains(p),
        s.mines.contains(p),
    ensures
        s.open_outcome(p) == Some(OpenResult::Mine),
        s.open_at(p).lost,
        s.open_at(p).open == s.open.insert(p),
{
}

/// The game is lost only by opening a closed, unflagged mine, and stays
/// lost.
pub proof fn lost_only_by_mine(s: BoardState, p: Position)
    ensures
        s.open_at(p).lost <==> s.lost || (s.mines.contains(p) && !s.open.contains(p)
            && !s.flagged.contains(p)),
        s.toggle_at(p).lost == s.lost,
{
}

/// Once the game is lost, opening and flagging change nothing, whatever the
/// cell.
pub proof fn lost_is_final(s: BoardState, p: Position)
    requires
        s.lost,
    ensures
        s.open_at(p) == s,
        s.open_outcome(p) is None,
        s.toggle_at(p) == s,
{
}

/// Toggling a flag twice restores the board.
pub proof fn toggle_twice(s: BoardState, p: Position)
    ensures
        s.toggle_at(p).toggle_at(p) == s,
{
    let once = s.toggle_at(p);
    let twice = once.toggle_at(p);
    assert(twice.flagged =~= s.flagged);
}

/// Every cell that a cascade opens beyond its start touches a cell of the
/// cascade that has no mine around it: the cascade is a region of such cells
/// and the ring around that region.
pub proof fn cascade_has_source(s: BoardState, p: Position, q: Position)
    requires
        s.cascades_to(p, q),
        q != p,
    ensures
        exists|n: Position|
            #![trigger adjacent(n, q)]
            adjacent(n, q) && s.adjacent_mines(n) == 0 && s.cascades_to(p, n),
{
    let path = choose|path: Seq<Position>|
        #![trigger s.cascade_path(path)]
        s.cascade_path(path) && path[0] == p && path.last() == q;
    let shorter = path.drop_last();
    let from = shorter.last();
    assert(s.adjacent_mines(path[path.len() - 2]) == 0 && adjacent(
        path[path.len() - 2],
        path[path.len() - 2 + 1],
    ));
    assert forall|i: int| 0 <= i < shorter.len() implies s.passable(#[trigger] shorter[i]) by {
        assert(shorter[i] == path[i]);
    }
    assert forall|i: int| 0 <= i < shorter.len() - 1 implies {
        &&& s.adjacent_mines(#[trigger] shorter[i]) == 0
        &&& adjacent(shorter[i], shorter[i + 1])
    } by {
        assert(shorter[i] == path[i] && shorter[i + 1] == path[i + 1]);
    }
    assert(s.cascade_path(shorter) && shorter[0] == p && shorter.last() == from);
    assert(adjacent(from, q));
}

/// A cell of the grid has at most eight mines around it, so the count that
/// opening reports is the true one.
pub proof fn count_fits(s: BoardState, p: Position)
    requires
        s.inv(),
        s.in_bounds(p),
    ensures
        s.adjacent_mines(p) <= 8,
        s.adjacent_mines(p) == s.neighbors(p).intersect(s.mines).len(),
{
    neighbors_len(s.width, s.height, p);
    vstd::set_lib::lemma_len_subset(s.neighbors(p).intersect(s.mines), s.neighbors(p));
}

/// On a grid with at least two columns and two rows, a corner cell has three
/// cells around it, any other cell of the border five, and a cell inside
/// eight.
pub proof fn neighbors_by_place(width: nat, height: nat, p: Position)
    requires
        2 <= width <= usize::MAX,
        2 <= height <= usize::MAX,
        p.0 < width,
        p.1 < height,
    ensures
        neighbors(width, height, p).len() == ({
            let at_side = p.0 == 0 || p.0 == width - 1;
            let at_end = p.1 == 0 || p.1 == height - 1;
            if at_side && at_end {
                3int
            } else if at_side || at_end {
                5int
            } else {
                8int
            }
        }),
{
    neighbors_len(width, height, p);
    let cols = span(p.0, width);
    let rows = span(p.1, height);
    assert(cols * rows == (if cols == 2 {
        2 * rows
    } else {
        3 * rows
    })) by (nonlinear_arith)
        requires
            cols == 2 || cols == 3,
    ;
}

} // verus!
