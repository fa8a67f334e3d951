use vstd::prelude::*;

use crate::cell::{final_code_of, show_code_of, Cell, CellState, CellValue};
use crate::count::{
    count_if, lemma_count_if_complement, lemma_count_if_equiv, lemma_count_if_le,
    lemma_count_if_pointwise, lemma_count_if_update, lemma_count_if_zero,
};

verus! {

/// Whether `(x, y)` (x = column, y = row) lies on a `size` by `size` grid.
pub open spec fn in_bounds(size: int, x: int, y: int) -> bool {
    0 <= x < size && 0 <= y < size
}

/// Row-major position of `(x, y)` in the linearized grid.
pub open spec fn cell_index(size: int, x: int, y: int) -> int {
    y * size + x
}

/// Whether `(x, y)` is in bounds and holds a mine.
pub open spec fn is_mine_at(c: Seq<Cell>, size: int, x: int, y: int) -> bool {
    in_bounds(size, x, y) && c[cell_index(size, x, y)].value is Mine
}

/// 0/1 indicator of `is_mine_at`.
pub open spec fn mine_ind(c: Seq<Cell>, size: int, x: int, y: int) -> int {
    if is_mine_at(c, size, x, y) {
        1
    } else {
        0
    }
}

/// Count of in-bounds 8-neighbors of `(x, y)` that hold a mine.
pub open spec fn adjacent_mines(c: Seq<Cell>, size: int, x: int, y: int) -> int {
    mine_ind(c, size, x - 1, y - 1) + mine_ind(c, size, x, y - 1) + mine_ind(c, size, x + 1, y - 1)
        + mine_ind(c, size, x - 1, y) + mine_ind(c, size, x + 1, y) + mine_ind(
        c,
        size,
        x - 1,
        y + 1,
    ) + mine_ind(c, size, x, y + 1) + mine_ind(c, size, x + 1, y + 1)
}

/// The cell at `(x, y)`, if safe, carries exactly its neighboring mine count.
pub open spec fn value_ok(c: Seq<Cell>, size: int, x: int, y: int) -> bool {
    c[cell_index(size, x, y)].value matches CellValue::Adjacent(k) ==> k as int == adjacent_mines(
        c,
        size,
        x,
        y,
    )
}

/// Every safe cell of the grid carries exactly its neighboring mine count.
pub open spec fn values_consistent(c: Seq<Cell>, size: int) -> bool {
    forall|x: int, y: int| in_bounds(size, x, y) ==> #[trigger] value_ok(c, size, x, y)
}

/// Predicate on cells: holds a mine.
pub open spec fn mine_pred() -> spec_fn(Cell) -> bool {
    |c: Cell| c.value is Mine
}

/// Predicate on cells: does not hold a mine.
pub open spec fn safe_pred() -> spec_fn(Cell) -> bool {
    |c: Cell| !(c.value is Mine)
}

/// Predicate on cells: currently revealed.
pub open spec fn shown_pred() -> spec_fn(Cell) -> bool {
    |c: Cell| c.state is Shown
}

/// Number of mine cells in the grid.
pub open spec fn num_mines(s: Seq<Cell>) -> int {
    count_if(s, mine_pred())
}

/// Number of revealed cells in the grid.
pub open spec fn num_shown(s: Seq<Cell>) -> int {
    count_if(s, shown_pred())
}

/// A cell meets the completion condition: mines must be flagged, safe cells
/// must not be hidden (a flagged safe cell does not block completion).
pub open spec fn cell_completed(c: Cell) -> bool {
    if c.value is Mine {
        c.state is Flagged
    } else {
        !(c.state is Hidden)
    }
}

/// The whole board meets the completion condition.
pub open spec fn completed(s: Seq<Cell>) -> bool {
    forall|i: int| 0 <= i < s.len() ==> cell_completed(#[trigger] s[i])
}

/// An in-bounds coordinate pair linearizes to a valid cell index.
pub proof fn lemma_cell_index_bounds(size: int, x: int, y: int)
    requires
        in_bounds(size, x, y),
    ensures
        0 <= cell_index(size, x, y) < size * size,
{
    assert(0 <= y * size + x < size * size) by (nonlinear_arith)
        requires
            0 <= x < size,
            0 <= y < size,
    ;
}

/// Linearizing coordinates is injective on the grid.
pub proof fn lemma_cell_index_injective(size: int, a: int, b: int, x: int, y: int)
    requires
        in_bounds(size, a, b),
        in_bounds(size, x, y),
        cell_index(size, a, b) == cell_index(size, x, y),
    ensures
        a == x,
        b == y,
{
    assert(b == y && a == x) by (nonlinear_arith)
        requires
            0 <= a < size,
            0 <= b < size,
            0 <= x < size,
            0 <= y < size,
            b * size + a == y * size + x,
    ;
}

/// Grids of equal length whose cells agree on where the mines are have the
/// same neighboring mine counts everywhere.
pub proof fn lemma_same_mines_same_adjacent(c1: Seq<Cell>, c2: Seq<Cell>, size: int)
    requires
        c1.len() == size * size,
        c2.len() == c1.len(),
        forall|i: int|
            0 <= i < c1.len() ==> ((#[trigger] c1[i]).value is Mine <==> (
            #[trigger] c2[i]).value is Mine),
    ensures
        forall|x: int, y: int|
            #[trigger] adjacent_mines(c1, size, x, y) == adjacent_mines(c2, size, x, y),
{
    assert forall|x: int, y: int|
        #[trigger] adjacent_mines(c1, size, x, y) == adjacent_mines(c2, size, x, y) by {
        assert forall|a: int, b: int| #[trigger] mine_ind(c1, size, a, b) == mine_ind(
            c2,
            size,
            a,
            b,
        ) by {
            if in_bounds(size, a, b) {
                lemma_cell_index_bounds(size, a, b);
            }
        }
    }
}

/// A grid stays consistent when only cell states change.
pub proof fn lemma_values_consistent_same_values(c1: Seq<Cell>, c2: Seq<Cell>, size: int)
    requires
        c1.len() == size * size,
        c2.len() == c1.len(),
        forall|i: int| 0 <= i < c1.len() ==> (#[trigger] c1[i]).value == (#[trigger] c2[i]).value,
        values_consistent(c1, size),
    ensures
        values_consistent(c2, size),
{
    lemma_same_mines_same_adjacent(c1, c2, size);
    assert forall|x: int, y: int| in_bounds(size, x, y) implies #[trigger] value_ok(
        c2,
        size,
        x,
        y,
    ) by {
        assert(value_ok(c1, size, x, y));
        lemma_cell_index_bounds(size, x, y);
    }
}

/// The state a flag toggle moves a cell to: hidden and flagged swap, a shown
/// cell stays shown.
pub open spec fn toggled_state(st: CellState) -> CellState {
    match st {
        CellState::Hidden => CellState::Flagged,
        CellState::Flagged => CellState::Hidden,
        CellState::Shown => CellState::Shown,
    }
}

/// The grid after a flag toggle at `(x, y)`: out-of-bounds coordinates leave
/// it unchanged, otherwise exactly that cell's state is toggled.
pub open spec fn toggle_cells(c: Seq<Cell>, size: int, x: int, y: int) -> Seq<Cell> {
    if in_bounds(size, x, y) && 0 <= cell_index(size, x, y) < c.len() {
        let i = cell_index(size, x, y);
        c.update(i, Cell { state: toggled_state(c[i].state), value: c[i].value })
    } else {
        c
    }
}

/// Whether a dig at `(x, y)` reports "safe": it reports a hit (false) exactly
/// when the coordinates address a hidden mine.
pub open spec fn dig_ok(c: Seq<Cell>, size: int, x: int, y: int) -> bool {
    !(in_bounds(size, x, y) && 0 <= cell_index(size, x, y) < c.len() && c[cell_index(
        size,
        x,
        y,
    )].state is Hidden && c[cell_index(size, x, y)].value is Mine)
}

/// The grid after a dig at `(x, y)`: a hidden safe cell becomes shown;
/// everything else (out of bounds, flagged, shown, or a hidden mine) leaves
/// the grid unchanged.
pub open spec fn dig_cells(c: Seq<Cell>, size: int, x: int, y: int) -> Seq<Cell> {
    if in_bounds(size, x, y) && 0 <= cell_index(size, x, y) < c.len() && c[cell_index(
        size,
        x,
        y,
    )].state is Hidden && !(c[cell_index(size, x, y)].value is Mine) {
        let i = cell_index(size, x, y);
        c.update(i, Cell { state: CellState::Shown, value: c[i].value })
    } else {
        c
    }
}

/// Law: toggling a flag at the same coordinates twice restores the grid
/// exactly; in particular a hidden cell returns to hidden.
pub proof fn lemma_toggle_flag_twice(c: Seq<Cell>, size: int, x: int, y: int)
    ensures
        toggle_cells(toggle_cells(c, size, x, y), size, x, y) == c,
{
    if in_bounds(size, x, y) && 0 <= cell_index(size, x, y) < c.len() {
        assert(toggle_cells(toggle_cells(c, size, x, y), size, x, y) =~= c);
    }
}

/// Law: a toggle never moves a shown cell away from shown, and never touches
/// any other cell.
pub proof fn lemma_toggle_keeps_shown(c: Seq<Cell>, size: int, x: int, y: int, i: int)
    requires
        0 <= i < c.len(),
        c[i].state is Shown,
    ensures
        toggle_cells(c, size, x, y)[i].state is Shown,
{
}

/// Law: a dig at a shown or flagged cell is a no-op that reports safe.
pub proof fn lemma_dig_noop_unless_hidden(c: Seq<Cell>, size: int, x: int, y: int)
    requires
        in_bounds(size, x, y),
        0 <= cell_index(size, x, y) < c.len(),
        !(c[cell_index(size, x, y)].state is Hidden),
    ensures
        dig_cells(c, size, x, y) == c,
        dig_ok(c, size, x, y),
{
}

/// Law: a dig at a hidden cell reveals it and reports safe when it is safe,
/// and changes nothing while reporting the hit when it is a mine.
pub proof fn lemma_dig_hidden(c: Seq<Cell>, size: int, x: int, y: int)
    requires
        in_bounds(size, x, y),
        0 <= cell_index(size, x, y) < c.len(),
        c[cell_index(size, x, y)].state is Hidden,
    ensures
        c[cell_index(size, x, y)].value is Mine ==> dig_cells(c, size, x, y) == c && !dig_ok(
            c,
            size,
            x,
            y,
        ),
        !(c[cell_index(size, x, y)].value is Mine) ==> dig_cells(c, size, x, y) == c.update(
            cell_index(size, x, y),
            Cell { state: CellState::Shown, value: c[cell_index(size, x, y)].value },
        ) && dig_ok(c, size, x, y),
{
}

/// Law: a dig at out-of-bounds coordinates changes nothing and reports safe.
pub proof fn lemma_dig_out_of_bounds(c: Seq<Cell>, size: int, x: int, y: int)
    requires
        !in_bounds(size, x, y),
    ensures
        dig_cells(c, size, x, y) == c,
        dig_ok(c, size, x, y),
{
}

/// The size-scaled initial-reveal policy: 12% of the grid, rounded to the
/// nearest integer, clamped to 3 ..= 50.
pub open spec fn scaled_reveal_target(size: int) -> int {
    let t = (12 * size * size + 50) / 100;
    if t < 3 {
        3
    } else if t > 50 {
        50
    } else {
        t
    }
}

/// What generation promises of a fresh board beyond `wf`: the requested mine
/// count, no flags, mines all hidden, and exactly `target` safe cells
/// revealed, capped at the number of safe cells.
pub open spec fn freshly_generated(b: Board, size: int, mine_count: int, target: int) -> bool {
    &&& b.wf()
    &&& b.spec_size() == size
    &&& num_mines(b.spec_cells()) == mine_count
    &&& (forall|i: int|
        0 <= i < b.spec_cells().len() ==> ((#[trigger] b.spec_cells()[i]).state is Shown
            || b.spec_cells()[i].state is Hidden))
    &&& (forall|i: int|
        0 <= i < b.spec_cells().len() ==> ((#[trigger] b.spec_cells()[i]).value is Mine
            ==> b.spec_cells()[i].state is Hidden))
    &&& num_shown(b.spec_cells()) == (if target <= size * size - mine_count {
        target
    } else {
        size * size - mine_count
    })
}

/// The square grid of cells, with its side length.
pub struct Board {
    size: usize,
    cells: Vec<Cell>,
}

impl Board {
    /// The side length of the grid.
    pub closed spec fn spec_size(&self) -> int {
        self.size as int
    }

    /// The linearized grid contents, row major.
    pub closed spec fn spec_cells(&self) -> Seq<Cell> {
        self.cells@
    }

    /// Structural well-formedness: a positive side whose square fits the
    /// machine, a full grid of cells, and every safe cell carrying exactly
    /// its neighboring mine count.
    pub open spec fn wf(&self) -> bool {
        &&& self.grid_wf()
        &&& values_consistent(self.spec_cells(), self.spec_size())
    }

    /// Basic shape facts used by the generation passes, before the adjacency
    /// counts are in place.
    pub open spec fn grid_wf(&self) -> bool {
        &&& 1 <= self.spec_size()
        &&& self.spec_size() * self.spec_size() <= usize::MAX
        &&& self.spec_cells().len() == self.spec_size() * self.spec_size()
    }

    /// Whether the in-bounds cell `(x, y)` holds a mine.
    fn is_mine_xy(&self, x: usize, y: usize) -> (r: bool)
        requires
            self.grid_wf(),
            x < self.spec_size(),
            y < self.spec_size(),
        ensures
            r == is_mine_at(self.spec_cells(), self.spec_size(), x as int, y as int),
    {
        proof {
            lemma_cell_index_bounds(self.spec_size(), x as int, y as int);
        }
        let i: usize = y * self.size + x;
        matches!(self.cells[i].value, CellValue::Mine)
    }

    /// Count the mines among the in-bounds 8-neighbors of `(x, y)`.
    fn count_adjacent_mines(&self, x: usize, y: usize) -> (cnt: u8)
        requires
            self.grid_wf(),
            x < self.spec_size(),
            y < self.spec_size(),
        ensures
            cnt as int == adjacent_mines(self.spec_cells(), self.spec_size(), x as int, y as int),
            cnt <= 8,
    {
        let ghost c = self.spec_cells();
        let ghost s = self.spec_size();
        let size = self.size;
        let nw: u8 = if x > 0 && y > 0 && self.is_mine_xy(x - 1, y - 1) {
            1
        } else {
            0
        };
        assert(nw as int == mine_ind(c, s, x - 1, y - 1));
        let nn: u8 = if y > 0 && self.is_mine_xy(x, y - 1) {
            1
        } else {
            0
        };
        assert(nn as int == mine_ind(c, s, x as int, y - 1));
        let ne: u8 = if x + 1 < size && y > 0 && self.is_mine_xy(x + 1, y - 1) {
            1
        } else {
            0
        };
        assert(ne as int == mine_ind(c, s, x + 1, y - 1));
        let ww: u8 = if x > 0 && self.is_mine_xy(x - 1, y) {
            1
        } else {
            0
        };
        assert(ww as int == mine_ind(c, s, x - 1, y as int));
        let ee: u8 = if x + 1 < size && self.is_mine_xy(x + 1, y) {
            1
        } else {
            0
        };
        assert(ee as int == mine_ind(c, s, x + 1, y as int));
        let sw: u8 = if x > 0 && y + 1 < size && self.is_mine_xy(x - 1, y + 1) {
            1
        } else {
            0
        };
        assert(sw as int == mine_ind(c, s, x - 1, y + 1));
        let ss: u8 = if y + 1 < size && self.is_mine_xy(x, y + 1) {
            1
        } else {
            0
        };
        assert(ss as int == mine_ind(c, s, x as int, y + 1));
        let se: u8 = if x + 1 < size && y + 1 < size && self.is_mine_xy(x + 1, y + 1) {
            1
        } else {
            0
        };
        assert(se as int == mine_ind(c, s, x + 1, y + 1));
        nw + nn + ne + ww + ee + sw + ss + se
    }

    /// Turn the first `mine_count` cells of a random permutation of the grid
    /// into mines. Because the permutation has no duplicates, exactly
    /// `mine_count` cells end up as mines; states are untouched.
    fn place_mines(&mut self, mine_count: usize)
        requires
            old(self).grid_wf(),
            mine_count as int <= old(self).spec_size() * old(self).spec_size(),
            forall|i: int|
                0 <= i < old(self).spec_cells().len() ==> !((#[trigger] old(self).spec_cells()[i]).value is Mine),
        ensures
            final(self).grid_wf(),
            final(self).spec_size() == old(self).spec_size(),
            final(self).spec_cells().len() == old(self).spec_cells().len(),
            forall|i: int|
                0 <= i < old(self).spec_cells().len() ==> (#[trigger] final(self).spec_cells()[i]).state
                    == old(self).spec_cells()[i].state,
            num_mines(final(self).spec_cells()) == mine_count,
    {
        let n = self.size * self.size;
        let p = crate::shuffle::shuffled_range(n);
        proof {
            lemma_count_if_zero(self.spec_cells(), mine_pred());
            assert(p@.subrange(0, 0) =~= Seq::<usize>::empty());
        }
        let mut t: usize = 0;
        while t < mine_count
            invariant
                t <= mine_count,
                mine_count <= n,
                n == self.spec_size() * self.spec_size(),
                self.spec_size() == old(self).spec_size(),
                self.grid_wf(),
                self.spec_cells().len() == n,
                p@.len() == n,
                p@.no_duplicates(),
                forall|k: int| 0 <= k < n ==> (#[trigger] p@[k]) < n,
                forall|i: int|
                    0 <= i < n ==> (#[trigger] self.spec_cells()[i]).state == old(self).spec_cells()[i].state,
                forall|i: int|
                    0 <= i < n ==> ((#[trigger] self.spec_cells()[i]).value is Mine <==> p@.subrange(
                        0,
                        t as int,
                    ).contains(i as usize)),
                num_mines(self.spec_cells()) == t,
            decreases mine_count - t,
        {
            let idx = p[t];
            let c = self.cells[idx];
            proof {
                let pre = p@.subrange(0, t as int);
                if pre.contains(p@[t as int]) {
                    let k = choose|k: int| 0 <= k < t && pre[k] == p@[t as int];
                    assert(p@[k] == p@[t as int]);
                    assert(false);
                }
                assert(!(self.spec_cells()[idx as int].value is Mine));
                lemma_count_if_update(
                    self.spec_cells(),
                    idx as int,
                    Cell { state: c.state, value: CellValue::Mine },
                    mine_pred(),
                );
            }
            self.cells.set(idx, Cell { state: c.state, value: CellValue::Mine });
            t += 1;
            proof {
                assert(p@.subrange(0, t as int) =~= p@.subrange(0, t - 1).push(p@[t - 1]));
                assert forall|i: int|
                    0 <= i < n implies ((#[trigger] self.spec_cells()[i]).value is Mine
                    <==> p@.subrange(0, t as int).contains(i as usize)) by {
                    let pre = p@.subrange(0, t - 1);
                    let cur = p@.subrange(0, t as int);
                    if self.spec_cells()[i].value is Mine {
                        if i == idx as int {
                            assert(cur[t - 1] == idx);
                            assert(cur.contains(i as usize));
                        } else {
                            assert(pre.contains(i as usize));
                            let k = choose|k: int| 0 <= k < pre.len() && pre[k] == i as usize;
                            assert(cur[k] == i as usize);
                            assert(cur.contains(i as usize));
                        }
                    } else {
                        if cur.contains(i as usize) {
                            let k = choose|k: int| 0 <= k < cur.len() && cur[k] == i as usize;
                            if k < t - 1 {
                                assert(pre[k] == i as usize);
                                assert(pre.contains(i as usize));
                            } else {
                                assert(i == idx as int);
                            }
                            assert(false);
                        }
                    }
                }
            }
        }
    }

    /// Rewrite every safe cell's value to its neighboring mine count. Runs
    /// after all mines are placed; mines and all states are untouched.
    fn compute_adjacency(&mut self)
        requires
            old(self).grid_wf(),
        ensures
            final(self).grid_wf(),
            final(self).spec_size() == old(self).spec_size(),
            final(self).spec_cells().len() == old(self).spec_cells().len(),
            forall|i: int|
                0 <= i < old(self).spec_cells().len() ==> (#[trigger] final(self).spec_cells()[i]).state
                    == old(self).spec_cells()[i].state,
            forall|i: int|
                0 <= i < old(self).spec_cells().len() ==> ((#[trigger] final(self).spec_cells()[i]).value is Mine
                    <==> old(self).spec_cells()[i].value is Mine),
            values_consistent(final(self).spec_cells(), final(self).spec_size()),
            num_mines(final(self).spec_cells()) == num_mines(old(self).spec_cells()),
    {
        let ghost s = self.spec_size();
        let size = self.size;
        let mut y: usize = 0;
        while y < size
            invariant
                y <= size,
                size == self.spec_size(),
                s == self.spec_size(),
                self.spec_size() == old(self).spec_size(),
                self.grid_wf(),
                self.spec_cells().len() == old(self).spec_cells().len(),
                forall|i: int|
                    0 <= i < old(self).spec_cells().len() ==> (#[trigger] self.spec_cells()[i]).state
                        == old(self).spec_cells()[i].state,
                forall|i: int|
                    0 <= i < old(self).spec_cells().len() ==> ((#[trigger] self.spec_cells()[i]).value is Mine
                        <==> old(self).spec_cells()[i].value is Mine),
                forall|a: int, b: int|
                    in_bounds(s, a, b) && b < y ==> #[trigger] value_ok(self.spec_cells(), s, a, b),
            decreases size - y,
        {
            let mut x: usize = 0;
            while x < size
                invariant
                    x <= size,
                    y < size,
                    size == self.spec_size(),
                    s == self.spec_size(),
                    self.spec_size() == old(self).spec_size(),
                    self.grid_wf(),
                    self.spec_cells().len() == old(self).spec_cells().len(),
                    forall|i: int|
                        0 <= i < old(self).spec_cells().len() ==> (
                        #[trigger] self.spec_cells()[i]).state == old(self).spec_cells()[i].state,
                    forall|i: int|
                        0 <= i < old(self).spec_cells().len() ==> ((
                        #[trigger] self.spec_cells()[i]).value is Mine <==> old(self).spec_cells()[i].value is Mine),
                    forall|a: int, b: int|
                        in_bounds(s, a, b) && (b < y || (b == y && a < x)) ==> #[trigger] value_ok(
                            self.spec_cells(),
                            s,
                            a,
                            b,
                        ),
                decreases size - x,
            {
                proof {
                    lemma_cell_index_bounds(s, x as int, y as int);
                }
                let i: usize = y * size + x;
                let c = self.cells[i];
                if !matches!(c.value, CellValue::Mine) {
                    let cnt = self.count_adjacent_mines(x, y);
                    let ghost pre = self.spec_cells();
                    self.cells.set(i, Cell { state: c.state, value: CellValue::Adjacent(cnt) });
                    proof {
                        lemma_same_mines_same_adjacent(pre, self.spec_cells(), s);
                        assert forall|a: int, b: int|
                            in_bounds(s, a, b) && (b < y || (b == y && a <= x)) implies #[trigger] value_ok(
                            self.spec_cells(),
                            s,
                            a,
                            b,
                        ) by {
                            lemma_cell_index_bounds(s, a, b);
                            if a == x as int && b == y as int {
                                assert(self.spec_cells()[i as int].value == CellValue::Adjacent(
                                    cnt,
                                ));
                            } else {
                                if cell_index(s, a, b) == i as int {
                                    lemma_cell_index_injective(s, a, b, x as int, y as int);
                                }
                                assert(value_ok(pre, s, a, b));
                            }
                        }
                    }
                } else {
                    proof {
                        assert forall|a: int, b: int|
                            in_bounds(s, a, b) && (b < y || (b == y && a <= x)) implies #[trigger] value_ok(
                            self.spec_cells(),
                            s,
                            a,
                            b,
                        ) by {
                            if !(a == x as int && b == y as int) {
                                assert(value_ok(self.spec_cells(), s, a, b));
                            }
                        }
                    }
                }
                x += 1;
            }
            y += 1;
        }
        proof {
            lemma_count_if_pointwise(self.spec_cells(), old(self).spec_cells(), mine_pred());
        }
    }

    /// Walk a second random permutation of the grid and reveal the safe
    /// cells it visits, until `target` of them are shown or the permutation
    /// is exhausted (then every safe cell is shown). Mines are skipped and
    /// stay hidden; no value changes.
    fn initial_show(&mut self, target: usize)
        requires
            old(self).grid_wf(),
            forall|i: int|
                0 <= i < old(self).spec_cells().len() ==> (#[trigger] old(self).spec_cells()[i]).state is Hidden,
        ensures
            final(self).grid_wf(),
            final(self).spec_size() == old(self).spec_size(),
            final(self).spec_cells().len() == old(self).spec_cells().len(),
            forall|i: int|
                0 <= i < old(self).spec_cells().len() ==> (#[trigger] final(self).spec_cells()[i]).value
                    == old(self).spec_cells()[i].value,
            forall|i: int|
                0 <= i < final(self).spec_cells().len() ==> ((#[trigger] final(self).spec_cells()[i]).state is Shown || final(self).spec_cells()[i].state is Hidden),
            forall|i: int|
                0 <= i < final(self).spec_cells().len() ==> ((#[trigger] final(self).spec_cells()[i]).state is Shown ==> !(final(self).spec_cells()[i].value is Mine)),
            num_shown(final(self).spec_cells()) <= target,
            num_shown(final(self).spec_cells()) == target || (forall|i: int|
                0 <= i < final(self).spec_cells().len() ==> (!((#[trigger] final(self).spec_cells()[i]).value is Mine) ==> final(self).spec_cells()[i].state is Shown)),
    {
        let n = self.size * self.size;
        let p = crate::shuffle::shuffled_range(n);
        proof {
            lemma_count_if_zero(self.spec_cells(), shown_pred());
            assert(p@.subrange(0, 0) =~= Seq::<usize>::empty());
        }
        let mut shown: usize = 0;
        let mut k: usize = 0;
        while k < n && shown < target
            invariant
                k <= n,
                shown <= target,
                n == self.spec_size() * self.spec_size(),
                self.spec_size() == old(self).spec_size(),
                self.grid_wf(),
                self.spec_cells().len() == n,
                p@.len() == n,
                p@.no_duplicates(),
                forall|j: int| 0 <= j < n ==> (#[trigger] p@[j]) < n,
                forall|j: usize| j < n ==> p@.contains(j),
                forall|i: int|
                    0 <= i < n ==> (#[trigger] self.spec_cells()[i]).value == old(self).spec_cells()[i].value,
                forall|i: int|
                    0 <= i < n ==> ((#[trigger] self.spec_cells()[i]).state is Shown <==> (
                    p@.subrange(0, k as int).contains(i as usize) && !(
                    self.spec_cells()[i].value is Mine))),
                forall|i: int|
                    0 <= i < n ==> ((#[trigger] self.spec_cells()[i]).state is Shown
                        || self.spec_cells()[i].state is Hidden),
                shown as int == num_shown(self.spec_cells()),
            decreases n - k,
        {
            let idx = p[k];
            let c = self.cells[idx];
            if !matches!(c.value, CellValue::Mine) {
                proof {
                    let pre = p@.subrange(0, k as int);
                    if pre.contains(p@[k as int]) {
                        let j = choose|j: int| 0 <= j < k && pre[j] == p@[k as int];
                        assert(p@[j] == p@[k as int]);
                        assert(false);
                    }
                    lemma_count_if_update(
                        self.spec_cells(),
                        idx as int,
                        Cell { state: CellState::Shown, value: c.value },
                        shown_pred(),
                    );
                }
                self.cells.set(idx, Cell { state: CellState::Shown, value: c.value });
                shown += 1;
            }
            k += 1;
            proof {
                assert(p@.subrange(0, k as int) =~= p@.subrange(0, k - 1).push(p@[k - 1]));
                assert forall|i: int|
                    0 <= i < n implies ((#[trigger] self.spec_cells()[i]).state is Shown <==> (
                p@.subrange(0, k as int).contains(i as usize) && !(
                self.spec_cells()[i].value is Mine))) by {
                    let pre = p@.subrange(0, k - 1);
                    let cur = p@.subrange(0, k as int);
                    if self.spec_cells()[i].state is Shown {
                        if i == idx as int {
                            assert(cur[k - 1] == idx);
                            assert(cur.contains(i as usize));
                        } else {
                            assert(pre.contains(i as usize));
                            let j = choose|j: int| 0 <= j < pre.len() && pre[j] == i as usize;
                            assert(cur[j] == i as usize);
                            assert(cur.contains(i as usize));
                        }
                    } else {
                        if cur.contains(i as usize) && !(self.spec_cells()[i].value is Mine) {
                            let j = choose|j: int| 0 <= j < cur.len() && cur[j] == i as usize;
                            if j < k - 1 {
                                assert(pre[j] == i as usize);
                                assert(pre.contains(i as usize));
                            } else {
                                assert(i == idx as int);
                            }
                            assert(false);
                        }
                    }
                }
            }
        }
        proof {
            if shown != target {
                assert(k == n);
                assert(p@.subrange(0, n as int) =~= p@);
                assert forall|i: int|
                    0 <= i < n && !((#[trigger] self.spec_cells()[i]).value is Mine) implies self.spec_cells()[i].state is Shown by {
                    assert(p@.contains(i as usize));
                }
            }
        }
    }

    /// The number of safe cells the size-scaled policy pre-reveals.
    fn reveal_target_for(size: usize) -> (t: usize)
        requires
            size as int * size as int <= usize::MAX,
        ensures
            t as int == scaled_reveal_target(size as int),
    {
        let sq: u128 = (size as u128) * (size as u128);
        proof {
            let s = size as int;
            assert(sq as int == s * s);
            assert(12 * s * s == 12 * (s * s)) by (nonlinear_arith);
        }
        let t: u128 = (12 * sq + 50) / 100;
        if t < 3 {
            3
        } else if t > 50 {
            50
        } else {
            t as usize
        }
    }

    /// Generate a board: `size * size` hidden cells, `mine_count` mines
    /// placed by a uniformly random permutation, every safe cell's adjacency
    /// count computed, and `reveal_target` safe cells (or all of them, if
    /// fewer) revealed through a second independent random permutation.
    pub fn with_reveal_target(size: usize, mine_count: usize, reveal_target: usize) -> (b: Board)
        requires
            1 <= size,
            size as int * size as int <= usize::MAX,
            mine_count < size as int * size as int,
        ensures
            freshly_generated(b, size as int, mine_count as int, reveal_target as int),
    {
        let n = size * size;
        let mut cells: Vec<Cell> = Vec::new();
        let mut i: usize = 0;
        while i < n
            invariant
                i <= n,
                cells@.len() == i,
                forall|j: int|
                    0 <= j < i ==> (#[trigger] cells@[j]) == (Cell {
                        state: CellState::Hidden,
                        value: CellValue::Adjacent(0),
                    }),
            decreases n - i,
        {
            cells.push(Cell { state: CellState::Hidden, value: CellValue::Adjacent(0) });
            i += 1;
        }
        let mut b = Board { size, cells };
        b.place_mines(mine_count);
        b.compute_adjacency();
        let ghost pre_reveal = b.spec_cells();
        b.initial_show(reveal_target);
        proof {
            let c = b.spec_cells();
            lemma_count_if_pointwise(pre_reveal, c, mine_pred());
            lemma_values_consistent_same_values(pre_reveal, c, size as int);
            lemma_count_if_le(c, shown_pred(), safe_pred());
            lemma_count_if_complement(c, mine_pred(), safe_pred());
            if num_shown(c) != reveal_target {
                lemma_count_if_equiv(c, shown_pred(), safe_pred());
            }
        }
        b
    }

    /// Generate a board with the size-scaled initial-reveal policy:
    /// `scaled_reveal_target(size)` safe cells are pre-revealed.
    pub fn new(size: usize, mine_count: usize) -> (b: Board)
        requires
            1 <= size,
            size as int * size as int <= usize::MAX,
            mine_count < size as int * size as int,
        ensures
            freshly_generated(
                b,
                size as int,
                mine_count as int,
                scaled_reveal_target(size as int),
            ),
    {
        let t = Board::reveal_target_for(size);
        Board::with_reveal_target(size, mine_count, t)
    }

    /// Generate a board with the fixed initial-reveal policy: five safe
    /// cells (or all of them, if fewer) are pre-revealed.
    pub fn create_level(size: usize, mine_count: usize) -> (b: Board)
        requires
            1 <= size,
            size as int * size as int <= usize::MAX,
            mine_count < size as int * size as int,
        ensures
            freshly_generated(b, size as int, mine_count as int, 5),
    {
        Board::with_reveal_target(size, mine_count, 5)
    }

    /// Toggle the flag at `(x, y)`: hidden becomes flagged, flagged becomes
    /// hidden, a shown cell (and out-of-bounds coordinates) are left alone.
    pub fn toggle_flag(&mut self, x: usize, y: usize)
        requires
            old(self).wf(),
        ensures
            final(self).wf(),
            final(self).spec_size() == old(self).spec_size(),
            final(self).spec_cells() == toggle_cells(
                old(self).spec_cells(),
                old(self).spec_size(),
                x as int,
                y as int,
            ),
    {
        if x < self.size && y < self.size {
            proof {
                lemma_cell_index_bounds(self.spec_size(), x as int, y as int);
            }
            let i: usize = y * self.size + x;
            let c = self.cells[i];
            let ns = match c.state {
                CellState::Hidden => CellState::Flagged,
                CellState::Flagged => CellState::Hidden,
                CellState::Shown => CellState::Shown,
            };
            self.cells.set(i, Cell { state: ns, value: c.value });
            proof {
                lemma_values_consistent_same_values(
                    old(self).spec_cells(),
                    self.spec_cells(),
                    self.spec_size(),
                );
            }
        }
    }

    /// Dig at `(x, y)`. Returns true ("safe, continue") unless the
    /// coordinates address a hidden mine, which returns false ("mine hit")
    /// and leaves the mine hidden. A hidden safe cell becomes shown; flagged
    /// and shown cells, and out-of-bounds coordinates, are no-ops.
    pub fn dig_cell(&mut self, x: usize, y: usize) -> (r: bool)
        requires
            old(self).wf(),
        ensures
            final(self).wf(),
            final(self).spec_size() == old(self).spec_size(),
            final(self).spec_cells() == dig_cells(
                old(self).spec_cells(),
                old(self).spec_size(),
                x as int,
                y as int,
            ),
            r == dig_ok(old(self).spec_cells(), old(self).spec_size(), x as int, y as int),
    {
        if x < self.size && y < self.size {
            proof {
                lemma_cell_index_bounds(self.spec_size(), x as int, y as int);
            }
            let i: usize = y * self.size + x;
            let c = self.cells[i];
            if matches!(c.state, CellState::Hidden) {
                if matches!(c.value, CellValue::Mine) {
                    return false;
                }
                self.cells.set(i, Cell { state: CellState::Shown, value: c.value });
                proof {
                    lemma_values_consistent_same_values(
                        old(self).spec_cells(),
                        self.spec_cells(),
                        self.spec_size(),
                    );
                }
            }
        }
        true
    }

    /// Whether the board is completed: every mine flagged and every safe
    /// cell no longer hidden (and conversely).
    pub fn is_completed(&self) -> (r: bool)
        requires
            self.wf(),
        ensures
            r == completed(self.spec_cells()),
    {
        let n = self.size * self.size;
        let mut i: usize = 0;
        while i < n
            invariant
                i <= n,
                n == self.spec_cells().len(),
                forall|j: int| 0 <= j < i ==> cell_completed(#[trigger] self.spec_cells()[j]),
            decreases n - i,
        {
            let c = self.cells[i];
            let ok = match c.value {
                CellValue::Mine => matches!(c.state, CellState::Flagged),
                CellValue::Adjacent(_) => !matches!(c.state, CellState::Hidden),
            };
            if !ok {
                return false;
            }
            i += 1;
        }
        true
    }

    /// The display code for what the player currently sees at `(x, y)`:
    /// 0 ..= 8 for a shown cell's adjacency count, 9 for flagged, 10 for
    /// hidden, 11 for a shown mine (which the actions of this library never
    /// produce). The caller must keep the coordinates in bounds.
    pub fn get_show_code(&self, x: usize, y: usize) -> (code: u8)
        requires
            self.wf(),
            x < self.spec_size(),
            y < self.spec_size(),
        ensures
            code as int == show_code_of(
                self.spec_cells()[cell_index(self.spec_size(), x as int, y as int)],
            ),
            code <= 11,
    {
        proof {
            lemma_cell_index_bounds(self.spec_size(), x as int, y as int);
            assert(value_ok(self.spec_cells(), self.spec_size(), x as int, y as int));
        }
        let i: usize = y * self.size + x;
        let c = self.cells[i];
        match c.state {
            CellState::Flagged => 9,
            CellState::Hidden => 10,
            CellState::Shown => match c.value {
                CellValue::Adjacent(v) => v,
                CellValue::Mine => 11,
            },
        }
    }

    /// The display code for the true value underneath `(x, y)`, regardless
    /// of its state: 11 for a mine, otherwise the cell's adjacency count,
    /// which equals the number of its in-bounds 8-neighbors holding a mine.
    /// The caller must keep the coordinates in bounds.
    pub fn get_final_code(&self, x: usize, y: usize) -> (code: u8)
        requires
            self.wf(),
            x < self.spec_size(),
            y < self.spec_size(),
        ensures
            code as int == final_code_of(
                self.spec_cells()[cell_index(self.spec_size(), x as int, y as int)],
            ),
            !(self.spec_cells()[cell_index(self.spec_size(), x as int, y as int)].value is Mine)
                ==> code as int == adjacent_mines(
                self.spec_cells(),
                self.spec_size(),
                x as int,
                y as int,
            ) && code <= 8,
            code == 11 <==> self.spec_cells()[cell_index(
                self.spec_size(),
                x as int,
                y as int,
            )].value is Mine,
    {
        proof {
            lemma_cell_index_bounds(self.spec_size(), x as int, y as int);
            assert(value_ok(self.spec_cells(), self.spec_size(), x as int, y as int));
        }
        let i: usize = y * self.size + x;
        match self.cells[i].value {
            CellValue::Mine => 11,
            CellValue::Adjacent(v) => v,
        }
    }
}

} // verus!
