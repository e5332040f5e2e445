//! Lemmas that the proofs of the board rest on: prefixes of sequences, the
//! size of grids and neighborhoods, and the selection of mines.

use crate::model::{
    adjacent_mines, cell_at, grid, index_of, neighbors, scattered_from, span, Position,
};
use vstd::prelude::*;

verus! {

/// The elements of the first `k + 1` entries are those of the first `k`
/// together with entry `k`.
pub proof fn take_next_to_set<A>(s: Seq<A>, k: int)
    requires
        0 <= k < s.len(),
    ensures
        s.take(k + 1).to_set() == s.take(k).to_set().insert(s[k]),
{
    let before = s.take(k);
    let after = s.take(k + 1);
    assert forall|q: A| after.to_set().contains(q) == before.to_set().insert(s[k]).contains(q) by {
        if before.contains(q) {
            let i = choose|i: int| 0 <= i < before.len() && before[i] == q;
            assert(after[i] == q);
        }
        if after.contains(q) {
            let i = choose|i: int| 0 <= i < after.len() && after[i] == q;
            if i < k {
                assert(before[i] == q);
            }
        }
        assert(after[k] == s[k]);
    }
    assert(after.to_set() =~= before.to_set().insert(s[k]));
}

/// Without repetitions, entry `k` is none of the entries before it.
pub proof fn take_excludes_next<A>(s: Seq<A>, k: int)
    requires
        0 <= k < s.len(),
        s.no_duplicates(),
    ensures
        !s.take(k).to_set().contains(s[k]),
{
    if s.take(k).contains(s[k]) {
        let i = choose|i: int| 0 <= i < s.take(k).len() && s.take(k)[i] == s[k];
        assert(s[i] == s[k]);
    }
}

/// The cells of a rectangle: `cols` columns from `x_lo` on, `rows` rows from
/// `y_lo` on.
pub open spec fn block(x_lo: int, cols: int, y_lo: int, rows: int) -> Set<Position> {
    Set::new(|p: Position| x_lo <= p.0 < x_lo + cols && y_lo <= p.1 < y_lo + rows)
}

proof fn strip_len(x: int, y_lo: int, rows: int)
    requires
        0 <= x <= usize::MAX,
        0 <= y_lo,
        0 <= rows,
        y_lo + rows <= usize::MAX + 1,
    ensures
        block(x, 1, y_lo, rows).finite(),
        block(x, 1, y_lo, rows).len() == rows,
    decreases rows,
{
    if rows == 0 {
        assert(block(x, 1, y_lo, rows) =~= Set::<Position>::empty());
    } else {
        strip_len(x, y_lo, rows - 1);
        let end: Position = (x as usize, (y_lo + rows - 1) as usize);
        assert(block(x, 1, y_lo, rows) =~= block(x, 1, y_lo, rows - 1).insert(end));
    }
}

/// A rectangle of cells has as many cells as its sides multiply to.
pub proof fn block_len(x_lo: int, cols: int, y_lo: int, rows: int)
    requires
        0 <= x_lo,
        0 <= cols,
        x_lo + cols <= usize::MAX + 1,
        0 <= y_lo,
        0 <= rows,
        y_lo + rows <= usize::MAX + 1,
    ensures
        block(x_lo, cols, y_lo, rows).finite(),
        block(x_lo, cols, y_lo, rows).len() == cols * rows,
    decreases cols,
{
    if cols == 0 {
        assert(block(x_lo, cols, y_lo, rows) =~= Set::<Position>::empty());
        assert(cols * rows == 0) by (nonlinear_arith)
            requires
                cols == 0,
        ;
    } else {
        let left = block(x_lo, cols - 1, y_lo, rows);
        let right = block(x_lo + cols - 1, 1, y_lo, rows);
        block_len(x_lo, cols - 1, y_lo, rows);
        strip_len(x_lo + cols - 1, y_lo, rows);
        assert(block(x_lo, cols, y_lo, rows) =~= left.union(right));
        assert(left.disjoint(right));
        vstd::set_lib::lemma_set_disjoint_lens(left, right);
        assert(cols * rows == (cols - 1) * rows + rows) by (nonlinear_arith);
    }
}

/// A grid has finitely many cells: as many as its sides multiply to, where
/// every cell has machine coordinates.
pub proof fn grid_finite(width: nat, height: nat)
    ensures
        grid(width, height).finite(),
        width <= usize::MAX && height <= usize::MAX ==> grid(width, height).len() == width
            * height,
{
    let cols = if width <= usize::MAX {
        width as int
    } else {
        usize::MAX + 1
    };
    let rows = if height <= usize::MAX {
        height as int
    } else {
        usize::MAX + 1
    };
    block_len(0, cols, 0, rows);
    assert(grid(width, height) =~= block(0, cols, 0, rows));
}

/// The cells around a cell of the grid: three, five or eight of them on a
/// grid with two columns and rows or more, by the formula in general.
pub proof fn neighbors_len(width: nat, height: nat, p: Position)
    requires
        p.0 < width <= usize::MAX,
        p.1 < height <= usize::MAX,
    ensures
        neighbors(width, height, p).finite(),
        neighbors(width, height, p).len() == span(p.0, width) * span(p.1, height) - 1,
        neighbors(width, height, p).len() <= 8,
{
    let x_lo = if p.0 > 0 {
        p.0 - 1
    } else {
        0
    };
    let y_lo = if p.1 > 0 {
        p.1 - 1
    } else {
        0
    };
    let cols = span(p.0, width);
    let rows = span(p.1, height);
    let around = block(x_lo, cols, y_lo, rows);
    block_len(x_lo, cols, y_lo, rows);
    assert(around.contains(p));
    assert(neighbors(width, height, p) =~= around.remove(p));
    assert(cols * rows <= 9) by (nonlinear_arith)
        requires
            0 <= cols <= 3,
            0 <= rows <= 3,
    ;
}

/// Around a cell whose count is zero there is no mine.
pub proof fn zero_count_is_clear(
    width: nat,
    height: nat,
    mines: Set<Position>,
    p: Position,
    q: Position,
)
    requires
        mines.subset_of(grid(width, height)),
        adjacent_mines(width, height, mines, p) == 0,
        neighbors(width, height, p).contains(q),
    ensures
        !mines.contains(q),
{
    grid_finite(width, height);
    vstd::set_lib::lemma_len_subset(mines, grid(width, height));
    let hit = neighbors(width, height, p).intersect(mines);
    if mines.contains(q) {
        assert(hit.contains(q));
        assert(hit.finite());
        assert(hit.len() > 0);
    }
}

/// On a grid, a cell's number and the cell determine each other.
pub proof fn cell_at_is_on_grid(width: nat, height: nat, index: int)
    requires
        0 < width <= usize::MAX,
        height <= usize::MAX,
        0 <= index < width * height,
    ensures
        grid(width, height).contains(cell_at(width, index)),
        index_of(width, cell_at(width, index)) == index,
{
    let w = width as int;
    let h = height as int;
    assert(0 <= index % w < w && 0 <= index / w < h && (index / w) * w + index % w == index)
        by (nonlinear_arith)
        requires
            0 < w,
            0 <= index < w * h,
    ;
}

/// The draws select as many distinct cells of the grid as there are draws,
/// all of them numbered below the end of the last draw's range.
pub proof fn scattered_is_sound(width: nat, height: nat, first: int, draws: Seq<u128>)
    requires
        0 < width <= usize::MAX,
        height <= usize::MAX,
        0 <= first,
        first + draws.len() <= width * height,
    ensures
        scattered_from(width, first, draws).subset_of(grid(width, height)),
        scattered_from(width, first, draws).finite(),
        scattered_from(width, first, draws).len() == draws.len(),
        forall|p: Position| #[trigger]
            scattered_from(width, first, draws).contains(p) ==> index_of(width, p) < first
                + draws.len(),
    decreases draws.len(),
{
    if draws.len() > 0 {
        let earlier = scattered_from(width, first, draws.drop_last());
        scattered_is_sound(width, height, first, draws.drop_last());
        let last = first + draws.len() - 1;
        let draw = draws.last() as int % (last + 1);
        cell_at_is_on_grid(width, height, draw);
        cell_at_is_on_grid(width, height, last);
        let drawn = cell_at(width, draw);
        let chosen = if earlier.contains(drawn) {
            cell_at(width, last)
        } else {
            drawn
        };
        assert(!earlier.contains(chosen));
        assert(scattered_from(width, first, draws) == earlier.insert(chosen));
    }
}

} // verus!
