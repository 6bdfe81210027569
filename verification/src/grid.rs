//! The grid timeline: per-epoch square grids of user positions, used by
//! clients to find their neighbours and their own position when they gather
//! location proofs. A grid is stored as one flat vector of cells.

use vstd::prelude::*;
use crate::collections::USet;
use crate::crypto::random_below;

verus! {

/// How many users sit in the cells of `cells`, all counted.
pub open spec fn counts_sum(cells: Seq<USet>) -> nat
    decreases cells.len(),
{
    if cells.len() == 0 {
        0
    } else {
        counts_sum(cells.drop_last()) + cells.last().count()
    }
}

/// Replacing one cell changes the total by the difference of that cell.
proof fn lemma_counts_sum_update(cells: Seq<USet>, j: int, cell: USet)
    requires
        0 <= j < cells.len(),
    ensures
        counts_sum(cells.update(j, cell)) == counts_sum(cells) - cells[j].count() + cell.count(),
    decreases cells.len(),
{
    let updated = cells.update(j, cell);
    if j == cells.len() - 1 {
        assert(updated.drop_last() =~= cells.drop_last());
        assert(updated.last() == cell);
    } else {
        assert(updated.drop_last() =~= cells.drop_last().update(j, cell));
        assert(updated.last() == cells.last());
        lemma_counts_sum_update(cells.drop_last(), j, cell);
    }
}

/// The clamped inclusive lower bound of a Moore neighbourhood along one axis.
pub open spec fn nb_lower(v: usize) -> usize {
    if v == 0 {
        v
    } else {
        (v - 1) as usize
    }
}

/// The clamped inclusive upper bound of a Moore neighbourhood along one axis.
pub open spec fn nb_upper(size: usize, v: usize) -> usize {
    if v + 1 == size {
        v
    } else {
        (v + 1) as usize
    }
}

/// A square grid of user sets, flattened into one vector of `size * size`
/// cells; the cell of `(x, y)` sits at index `x + size * y`.
pub struct Grid {
    pub grid: Vec<USet>,
    pub total_size: usize,
    pub size: usize,
}

impl Grid {
    pub open spec fn wf(self) -> bool {
        &&& self.total_size == self.size * self.size
        &&& self.grid@.len() == self.total_size
        &&& forall|j: int| 0 <= j < self.grid@.len() ==> (#[trigger] self.grid@[j]).wf()
    }

    /// The cell of `(x, y)`.
    pub open spec fn cell_at(self, x: int, y: int) -> USet {
        self.grid@[x + self.size * y]
    }

    /// How many users the cells of column `x`, rows `ly` to `uy`, hold.
    pub open spec fn col_total(self, x: int, ly: int, uy: int) -> nat
        decreases uy + 1 - ly,
    {
        if ly > uy {
            0
        } else {
            self.cell_at(x, ly).count() + self.col_total(x, ly + 1, uy)
        }
    }

    /// How many users the rectangle of columns `lx` to `ux`, rows `ly` to
    /// `uy`, holds.
    pub open spec fn window_total(self, lx: int, ux: int, ly: int, uy: int) -> nat
        decreases ux + 1 - lx,
    {
        if lx > ux {
            0
        } else {
            self.col_total(lx, ly, uy) + self.window_total(lx + 1, ux, ly, uy)
        }
    }

    /// How many users the clamped Moore neighbourhood of `(x, y)` holds,
    /// the centre cell included.
    pub open spec fn window_count(self, x: usize, y: usize) -> nat {
        self.window_total(
            nb_lower(x) as int,
            nb_upper(self.size, x) as int,
            nb_lower(y) as int,
            nb_upper(self.size, y) as int,
        )
    }

    /// What one cell contributes to the minimum-neighbour count: its window
    /// total less the user itself, zero when the window is empty.
    pub open spec fn window_contribution(self, x: usize, y: usize) -> nat {
        if self.window_count(x, y) == 0 {
            0
        } else {
            (self.window_count(x, y) - 1) as nat
        }
    }

    /// Every cell holds at most this many users, so that window sums cannot
    /// overflow while counting neighbours.
    pub open spec fn counts_small(self) -> bool {
        forall|j: int|
            0 <= j < self.grid@.len() ==> (#[trigger] self.grid@[j]).count() <= usize::MAX / 16
    }

    pub fn new_empty(size: usize) -> (r: Grid)
        requires
            size * size <= usize::MAX,
        ensures
            r.wf(),
            r.size == size,
            r.total_size == size * size,
            forall|j: int| 0 <= j < r.grid@.len() ==> (#[trigger] r.grid@[j]).count() == 0,
            counts_sum(r.grid@) == 0,
    {
        proof {
            vstd::arithmetic::mul::lemma_mul_nonnegative(size as int, size as int);
        }
        let total: usize = size * size;
        let mut grid: Vec<USet> = Vec::new();
        let mut j: usize = 0;
        while j < total
            invariant
                0 <= j <= total,
                grid@.len() == j,
                forall|k: int|
                    0 <= k < j ==> (#[trigger] grid@[k]).wf() && grid@[k].count() == 0,
                counts_sum(grid@) == 0,
            decreases total - j,
        {
            let ghost before = grid@;
            grid.push(USet::new());
            proof {
                assert(grid@.drop_last() =~= before);
            }
            j += 1;
        }
        Grid { grid, total_size: total, size }
    }

    /// A grid with `points` users dropped into uniformly random cells, user
    /// indices `0` to `points - 1`.
    pub fn new_randomly_filled(size: usize, points: usize) -> (r: Grid)
        requires
            size >= 1,
            size * size <= usize::MAX,
        ensures
            r.wf(),
            r.size == size,
            r.total_size == size * size,
            counts_sum(r.grid@) == points,
    {
        let mut grid = Grid::new_empty(size);
        proof {
            vstd::arithmetic::mul::lemma_mul_ordering(size as int, size as int);
        }
        let mut i: usize = 0;
        while i < points
            invariant
                grid.wf(),
                grid.size == size,
                grid.total_size == size * size,
                grid.total_size >= 1,
                0 <= i <= points,
                counts_sum(grid.grid@) == i,
                forall|k: int, p: usize|
                    #![trigger grid.grid@[k].has(p)]
                    0 <= k < grid.grid@.len() && grid.grid@[k].has(p) ==> p < i,
            decreases points - i,
        {
            let slot = random_below(grid.total_size);
            let ghost before = grid.grid@;
            let cell = vstd::std_specs::vec::vec_index_mut(&mut grid.grid, slot);
            let added = cell.insert(i);
            proof {
                assert(added == true);
                assert(grid.grid@ =~= before.update(slot as int, grid.grid@[slot as int]));
                lemma_counts_sum_update(before, slot as int, grid.grid@[slot as int]);
                assert forall|k: int, p: usize|
                    #![trigger grid.grid@[k].has(p)]
                    0 <= k < grid.grid@.len() && grid.grid@[k].has(p) implies p < i + 1 by {
                    if k != slot as int {
                        assert(grid.grid@[k] == before[k]);
                    }
                }
            }
            i += 1;
        }
        grid
    }

    /// The `(x, y)` coordinates of a flat cell index.
    pub fn get_position(&self, index: usize) -> (r: (usize, usize))
        requires
            self.size > 0,
        ensures
            r.0 == index % self.size,
            r.1 == index / self.size,
    {
        (index % self.size, index / self.size)
    }

    /// The flat cell index of `(x, y)`.
    pub fn get_index(&self, x: usize, y: usize) -> (r: usize)
        requires
            self.wf(),
            x < self.size,
            y < self.size,
        ensures
            r == x + self.size * y,
            r < self.total_size,
    {
        proof {
            assert(x + self.size * y < self.size * self.size) by (nonlinear_arith)
                requires
                    x < self.size,
                    y < self.size,
            ;
        }
        x + self.size * y
    }

    /// Whether `(a, b)` lies in the clamped Moore neighbourhood of the cell
    /// of the given flat index.
    pub open spec fn in_window(self, index: usize, a: int, b: int) -> bool {
        &&& nb_lower((index % self.size) as usize) <= a <= nb_upper(
            self.size,
            (index % self.size) as usize,
        )
        &&& nb_lower((index / self.size) as usize) <= b <= nb_upper(
            self.size,
            (index / self.size) as usize,
        )
    }

    /// Whether `p` is a neighbour of `point` around the cell at `index`: it
    /// sits in the clamped window and is not `point` itself.
    pub open spec fn neighbour_of(self, index: usize, point: usize, p: usize) -> bool {
        p != point && exists|a: int, b: int|
            self.in_window(index, a, b) && #[trigger] self.cell_at(a, b).has(p)
    }

    /// Everyone in the clamped Moore neighbourhood of the cell at `index`,
    /// except `point` itself, without repetition.
    pub fn get_neighbours(&self, index: usize, point: usize) -> (r: Vec<usize>)
        requires
            self.wf(),
            self.size > 0,
            index < self.total_size,
        ensures
            forall|p: usize| r@.contains(p) <==> self.neighbour_of(index, point, p),
    {
        let size = self.size;
        let total = self.total_size;
        let mut out: Vec<usize> = Vec::new();
        let mut j: usize = 0;
        while j < total
            invariant
                self.wf(),
                self.size == size,
                self.total_size == total,
                size > 0,
                index < total,
                0 <= j <= total,
                forall|p: usize|
                    out@.contains(p) <==> (p != point && exists|jj: int|
                        0 <= jj < j && self.in_window(index, jj % (size as int), jj / (size as int))
                            && (#[trigger] self.grid@[jj]).has(p)),
            decreases total - j,
        {
            let a = j % size;
            let b = j / size;
            proof {
                assert(a + size * b == j) by (nonlinear_arith)
                    requires
                        size > 0,
                        a == j % size,
                        b == j / size,
                ;
            }
            let lo_x = if index % size == 0 {
                index % size
            } else {
                index % size - 1
            };
            let hi_x = if index % size + 1 == size {
                index % size
            } else {
                index % size + 1
            };
            let lo_y = if index / size == 0 {
                index / size
            } else {
                index / size - 1
            };
            let hi_y = if index / size + 1 == size {
                index / size
            } else {
                index / size + 1
            };
            proof {
                assert(index / size < size) by (nonlinear_arith)
                    requires
                        size > 0,
                        index < total,
                        total == size * size,
                ;
            }
            if lo_x <= a && a <= hi_x && lo_y <= b && b <= hi_y {
                let cell = &self.grid[j];
                let m = cell.items.len();
                let mut k: usize = 0;
                while k < m
                    invariant
                        self.wf(),
                        self.size == size,
                        self.total_size == total,
                        size > 0,
                        index < total,
                        j < total,
                        cell == &self.grid@[j as int],
                        m == cell.items@.len(),
                        0 <= k <= m,
                        self.in_window(index, j as int % (size as int), j as int / (size as int)),
                        forall|p: usize|
                            out@.contains(p) <==> (p != point && ((exists|jj: int|
                                0 <= jj < j && self.in_window(
                                    index,
                                    jj % (size as int),
                                    jj / (size as int),
                                ) && (#[trigger] self.grid@[jj]).has(p)) || (exists|kk: int|
                                0 <= kk < k && cell.items@[kk] == p))),
                    decreases m - k,
                {
                    let candidate = cell.items[k];
                    if candidate != point && !crate::collections::contains_usize(&out, candidate) {
                        let ghost before = out@;
                        out.push(candidate);
                        proof {
                            crate::collections::lemma_contains_push(before, candidate);
                            assert(cell.items@[k as int] == candidate);
                        }
                    }
                    k += 1;
                }
            }
            proof {
                assert forall|p: usize|
                    out@.contains(p) implies (p != point && exists|jj: int|
                    0 <= jj < j + 1 && self.in_window(index, jj % (size as int), jj / (size as int))
                        && (#[trigger] self.grid@[jj]).has(p)) by {}
                assert forall|p: usize|
                    (p != point && exists|jj: int|
                        0 <= jj < j + 1 && self.in_window(
                            index,
                            jj % (size as int),
                            jj / (size as int),
                        ) && (#[trigger] self.grid@[jj]).has(p)) implies out@.contains(p) by {
                    let jj = choose|jj: int|
                        0 <= jj < j + 1 && self.in_window(
                            index,
                            jj % (size as int),
                            jj / (size as int),
                        ) && (#[trigger] self.grid@[jj]).has(p);
                    if jj == j as int {
                        if !self.grid@[j as int].has(p) {
                            assert(false);
                        }
                    }
                }
            }
            j += 1;
        }
        proof {
            assert forall|p: usize| out@.contains(p) implies self.neighbour_of(
                index,
                point,
                p,
            ) by {
                let jj = choose|jj: int|
                    0 <= jj < total && self.in_window(index, jj % (size as int), jj / (
                    size as int)) && (#[trigger] self.grid@[jj]).has(p);
                let a = jj % (size as int);
                let b = jj / (size as int);
                assert(a + size * b == jj) by (nonlinear_arith)
                    requires
                        size > 0,
                        a == jj % (size as int),
                        b == jj / (size as int),
                ;
                assert(self.cell_at(a, b).has(p));
            }
            assert forall|p: usize| self.neighbour_of(index, point, p) implies out@.contains(
                p,
            ) by {
                let (a, b) = choose|a: int, b: int|
                    self.in_window(index, a, b) && #[trigger] self.cell_at(a, b).has(p);
                assert(0 <= (index as int) % (size as int) < size && 0 <= (index as int) / (
                size as int) < size) by (nonlinear_arith)
                    requires
                        size > 0,
                        index < total,
                        total == size * size,
                ;
                assert(0 <= a < size && 0 <= b < size);
                let jj = a + size * b;
                assert(0 <= jj < total && jj % (size as int) == a && jj / (size as int) == b)
                    by (nonlinear_arith)
                    requires
                        size > 0,
                        total == size * size,
                        0 <= a < size,
                        0 <= b < size,
                        jj == a + size * b,
                ;
                assert(self.grid@[jj].has(p));
            }
        }
        out
    }

    /// A column of at most three small cells stays under three sixteenths of
    /// the machine limit.
    proof fn lemma_col_bound(self, x: int, ly: int, uy: int)
        requires
            self.wf(),
            self.counts_small(),
            0 <= x < self.size,
            0 <= ly,
            ly <= uy + 1,
            uy < self.size,
            uy + 1 - ly <= 3,
        ensures
            self.col_total(x, ly, uy) <= (uy + 1 - ly) * (usize::MAX as int / 16),
            self.col_total(x, ly, uy) <= 3 * (usize::MAX as int / 16),
        decreases uy + 1 - ly,
    {
        if ly <= uy {
            assert(0 <= x + self.size * ly < self.grid@.len()) by (nonlinear_arith)
                requires
                    0 <= x < self.size,
                    0 <= ly < self.size,
                    self.grid@.len() == self.size * self.size,
            ;
            assert(self.cell_at(x, ly).count() <= usize::MAX / 16);
            self.lemma_col_bound(x, ly + 1, uy);
            assert((uy + 1 - ly) * (usize::MAX as int / 16) == (uy - ly) * (usize::MAX as int / 16)
                + (usize::MAX as int / 16)) by (nonlinear_arith);
            assert(self.col_total(x, ly, uy) <= 3 * (usize::MAX as int / 16)) by (nonlinear_arith)
                requires
                    self.col_total(x, ly, uy) <= (uy + 1 - ly) * (usize::MAX as int / 16),
                    0 <= uy + 1 - ly <= 3,
            ;
        } else {
            assert((uy + 1 - ly) * (usize::MAX as int / 16) >= 0) by (nonlinear_arith)
                requires
                    uy + 1 - ly >= 0,
            ;
        }
    }

    /// A window of at most three small columns stays under nine sixteenths
    /// of the machine limit.
    proof fn lemma_window_bound(self, lx: int, ux: int, ly: int, uy: int)
        requires
            self.wf(),
            self.counts_small(),
            0 <= lx,
            lx <= ux + 1,
            ux < self.size,
            0 <= ly,
            ly <= uy + 1,
            uy < self.size,
            ux + 1 - lx <= 3,
            uy + 1 - ly <= 3,
        ensures
            self.window_total(lx, ux, ly, uy) <= (ux + 1 - lx) * (3 * (usize::MAX as int / 16)),
            self.window_total(lx, ux, ly, uy) <= 9 * (usize::MAX as int / 16),
        decreases ux + 1 - lx,
    {
        if lx <= ux {
            self.lemma_col_bound(lx, ly, uy);
            self.lemma_window_bound(lx + 1, ux, ly, uy);
            assert((ux + 1 - lx) * (3 * (usize::MAX as int / 16)) == (ux - lx) * (3 * (
            usize::MAX as int / 16)) + 3 * (usize::MAX as int / 16)) by (nonlinear_arith);
            assert(self.window_total(lx, ux, ly, uy) <= 9 * (usize::MAX as int / 16))
                by (nonlinear_arith)
                requires
                    self.window_total(lx, ux, ly, uy) <= (ux + 1 - lx) * (3 * (usize::MAX as int
                        / 16)),
                    ux + 1 - lx <= 3,
            ;
        } else {
            assert((ux + 1 - lx) * (3 * (usize::MAX as int / 16)) >= 0) by (nonlinear_arith)
                requires
                    ux + 1 - lx >= 0,
            ;
        }
    }

    /// Counts the users in the clamped Moore neighbourhood of `(x, y)`.
    fn window_count_exec(&self, x: usize, y: usize) -> (r: usize)
        requires
            self.wf(),
            self.counts_small(),
            x < self.size,
            y < self.size,
        ensures
            r == self.window_count(x, y),
    {
        let lx = if x == 0 {
            x
        } else {
            x - 1
        };
        let ux = if x + 1 == self.size {
            x
        } else {
            x + 1
        };
        let ly = if y == 0 {
            y
        } else {
            y - 1
        };
        let uy = if y + 1 == self.size {
            y
        } else {
            y + 1
        };
        proof {
            self.lemma_window_bound(lx as int, ux as int, ly as int, uy as int);
        }
        let mut acc: usize = 0;
        let mut a = lx;
        while a <= ux
            invariant
                self.wf(),
                self.counts_small(),
                lx == nb_lower(x) && ux == nb_upper(self.size, x),
                ly == nb_lower(y) && uy == nb_upper(self.size, y),
                x < self.size && y < self.size,
                ux < self.size && uy < self.size,
                lx <= a <= ux + 1,
                self.window_count(x, y) == acc + self.window_total(
                    a as int,
                    ux as int,
                    ly as int,
                    uy as int,
                ),
                acc <= self.window_count(x, y),
                self.window_count(x, y) <= 9 * (usize::MAX as int / 16),
            decreases ux + 1 - a,
        {
            let mut b = ly;
            while b <= uy
                invariant
                    self.wf(),
                    self.counts_small(),
                    lx == nb_lower(x) && ux == nb_upper(self.size, x),
                    ly == nb_lower(y) && uy == nb_upper(self.size, y),
                    x < self.size && y < self.size,
                    ux < self.size && uy < self.size,
                    lx <= a <= ux,
                    ly <= b <= uy + 1,
                    self.window_count(x, y) == acc + self.col_total(a as int, b as int, uy as int)
                        + self.window_total(a as int + 1, ux as int, ly as int, uy as int),
                    acc <= self.window_count(x, y),
                    self.window_count(x, y) <= 9 * (usize::MAX as int / 16),
                decreases uy + 1 - b,
            {
                let idx = self.get_index(a, b);
                acc = acc + self.grid[idx].len();
                b += 1;
            }
            a += 1;
        }
        acc
    }

    /// The smallest neighbour count a user anywhere on the grid could see:
    /// the minimum over all cells of the users in the clamped Moore
    /// neighbourhood, less the user itself. An empty grid edge gives the
    /// machine maximum, an empty window contributes zero.
    pub fn min_neighbours(&self) -> (r: usize)
        requires
            self.wf(),
            self.counts_small(),
        ensures
            self.size == 0 ==> r == usize::MAX,
            self.size > 0 ==> (exists|x: usize, y: usize|
                x < self.size && y < self.size && r == #[trigger] self.window_contribution(x, y)),
            forall|x: usize, y: usize|
                x < self.size && y < self.size ==> r <= #[trigger] self.window_contribution(x, y),
    {
        let size = self.size;
        let total = self.total_size;
        let mut min_n: usize = usize::MAX;
        let mut j: usize = 0;
        while j < total
            invariant
                self.wf(),
                self.counts_small(),
                self.size == size,
                self.total_size == total,
                0 <= j <= total,
                j > 0 ==> size > 0,
                (j == 0 && min_n == usize::MAX) || (exists|jj: int|
                    0 <= jj < j && min_n == #[trigger] self.window_contribution(
                        (jj % (size as int)) as usize,
                        (jj / (size as int)) as usize,
                    )),
                forall|jj: int|
                    0 <= jj < j ==> min_n <= #[trigger] self.window_contribution(
                        (jj % (size as int)) as usize,
                        (jj / (size as int)) as usize,
                    ),
            decreases total - j,
        {
            proof {
                if j == 0 {
                    assert(total > 0);
                    assert(size > 0) by (nonlinear_arith)
                        requires
                            total == size * size,
                            total > 0,
                    ;
                }
            }
            let x = j % size;
            let y = j / size;
            proof {
                assert(x < size && y < size) by (nonlinear_arith)
                    requires
                        size > 0,
                        j < total,
                        total == size * size,
                        x == j % size,
                        y == j / size,
                ;
            }
            let wc = self.window_count_exec(x, y);
            let contribution = if wc == 0 {
                0
            } else {
                wc - 1
            };
            if contribution < min_n {
                min_n = contribution;
            }
            proof {
                assert(exists|jj: int|
                    0 <= jj < j + 1 && min_n == #[trigger] self.window_contribution(
                        (jj % (size as int)) as usize,
                        (jj / (size as int)) as usize,
                    )) by {
                    if contribution < min_n || min_n == contribution {
                        assert(j as int % (size as int) == x && j as int / (size as int) == y);
                        assert(min_n == self.window_contribution(x, y) || (exists|jj: int|
                            0 <= jj < j && min_n == #[trigger] self.window_contribution(
                                (jj % (size as int)) as usize,
                                (jj / (size as int)) as usize,
                            )));
                    }
                }
            }
            j += 1;
        }
        proof {
            if size > 0 {
                assert(total > 0) by (nonlinear_arith)
                    requires
                        total == size * size,
                        size > 0,
                ;
                let jj = choose|jj: int|
                    0 <= jj < total && min_n == #[trigger] self.window_contribution(
                        (jj % (size as int)) as usize,
                        (jj / (size as int)) as usize,
                    );
                let x0 = (jj % (size as int)) as usize;
                let y0 = (jj / (size as int)) as usize;
                assert(x0 < size && y0 < size) by (nonlinear_arith)
                    requires
                        size > 0,
                        0 <= jj < total,
                        total == size * size,
                        x0 == (jj % (size as int)) as usize,
                        y0 == (jj / (size as int)) as usize,
                ;
                assert(min_n == self.window_contribution(x0, y0));
            }
            assert forall|x: usize, y: usize|
                x < size && y < size implies min_n <= #[trigger] self.window_contribution(
                x,
                y,
            ) by {
                let jj = x + size * y;
                assert(0 <= jj < total && jj % (size as int) == x && jj / (size as int) == y)
                    by (nonlinear_arith)
                    requires
                        size > 0,
                        total == size * size,
                        x < size,
                        y < size,
                        jj == x + size * y,
                ;
                assert(min_n <= self.window_contribution(
                    (jj % (size as int)) as usize,
                    (jj / (size as int)) as usize,
                ));
                assert((jj % (size as int)) as usize == x && (jj / (size as int)) as usize == y);
            }
        }
        min_n
    }
}

/// One cell never holds more than all cells together.
proof fn lemma_cell_le_sum(cells: Seq<USet>, j: int)
    requires
        0 <= j < cells.len(),
    ensures
        cells[j].count() <= counts_sum(cells),
    decreases cells.len(),
{
    if j == cells.len() - 1 {
    } else {
        lemma_cell_le_sum(cells.drop_last(), j);
    }
}

/// The per-epoch grids, the epoch count, and the proof threshold the grids
/// support: strictly more than `f_line` independent neighbours must attest a
/// report, and `f_line` is kept below half the sparsest neighbourhood.
pub struct Timeline {
    pub timeline: Vec<Grid>,
    pub epochs: usize,
    pub size: usize,
    pub f_line: usize,
}

impl Timeline {
    pub open spec fn wf(self) -> bool {
        &&& self.epochs == self.timeline@.len()
        &&& forall|e: int|
            0 <= e < self.timeline@.len() ==> (#[trigger] self.timeline@[e]).wf()
                && self.timeline@[e].size == self.size && self.timeline@[e].counts_small()
    }

    /// Whether any epoch places user `p` somewhere on the grid.
    pub open spec fn tracks(self, p: usize) -> bool {
        exists|e: int, j: int|
            0 <= e < self.timeline@.len() && 0 <= j < self.timeline@[e].grid@.len()
                && (#[trigger] self.timeline@[e].grid@[j]).has(p)
    }

    /// Whether `epoch`'s grid places user `p` in some cell.
    pub open spec fn placed(self, epoch: int, p: usize) -> bool {
        exists|j: int|
            0 <= j < self.timeline@[epoch].grid@.len() && (#[trigger] self.timeline@[epoch].grid@[j]).has(
                p,
            )
    }

    /// Whether `i` is the first cell of `epoch`'s grid that holds `p`.
    pub open spec fn is_first_cell(self, epoch: int, p: usize, i: int) -> bool {
        &&& 0 <= i < self.timeline@[epoch].grid@.len()
        &&& self.timeline@[epoch].grid@[i].has(p)
        &&& forall|k: int| 0 <= k < i ==> !(#[trigger] self.timeline@[epoch].grid@[k]).has(p)
    }

    /// The first cell of `epoch`'s grid that holds `p`, when one does.
    pub open spec fn first_cell(self, epoch: int, p: usize) -> int {
        choose|i: int| self.is_first_cell(epoch, p, i)
    }

    pub fn new(size: usize) -> (r: Timeline)
        ensures
            r.wf(),
            r.size == size,
            r.epochs == 0,
            r.f_line == usize::MAX,
            r.timeline@.len() == 0,
    {
        Timeline { timeline: Vec::new(), epochs: 0, size, f_line: usize::MAX }
    }

    /// Appends one epoch's grid and tightens the proof threshold to stay
    /// below half the sparsest neighbourhood of the new grid.
    pub fn add_epoch(&mut self, new_grid: Grid)
        requires
            old(self).wf(),
            old(self).epochs < usize::MAX,
            new_grid.wf(),
            new_grid.size == old(self).size,
            new_grid.counts_small(),
        ensures
            final(self).wf(),
            final(self).size == old(self).size,
            final(self).timeline@ == old(self).timeline@.push(new_grid),
            final(self).epochs == old(self).epochs + 1,
            final(self).f_line <= old(self).f_line,
    {
        let mn = new_grid.min_neighbours();
        let halved = if mn == 0 {
            0
        } else {
            (mn - 1) / 2
        };
        if halved < self.f_line {
            self.f_line = halved;
        }
        self.timeline.push(new_grid);
        self.epochs = self.epochs + 1;
    }

    /// Builds a timeline of `epochs` randomly filled grids.
    pub fn create_timeline(size: usize, points: usize, epochs: usize) -> (r: Timeline)
        requires
            size >= 1,
            size * size <= usize::MAX,
            points <= usize::MAX / 16,
        ensures
            r.wf(),
            r.size == size,
            r.epochs == epochs,
    {
        let mut timeline = Timeline::new(size);
        let mut e: usize = 0;
        while e < epochs
            invariant
                timeline.wf(),
                timeline.size == size,
                timeline.epochs == e,
                size >= 1,
                size * size <= usize::MAX,
                points <= usize::MAX / 16,
                0 <= e <= epochs,
                epochs <= usize::MAX,
            decreases epochs - e,
        {
            let grid = Grid::new_randomly_filled(size, points);
            proof {
                assert forall|j: int|
                    0 <= j < grid.grid@.len() implies (#[trigger] grid.grid@[j]).count()
                    <= usize::MAX / 16 by {
                    lemma_cell_le_sum(grid.grid@, j);
                }
            }
            timeline.add_epoch(grid);
            e += 1;
        }
        timeline
    }

    pub fn epochs(&self) -> (r: usize)
        ensures
            r == self.epochs,
    {
        self.epochs
    }

    pub fn valid_pos(&self, x: usize, y: usize) -> (r: bool)
        ensures
            r == (x < self.size && y < self.size),
    {
        x < self.size && y < self.size
    }

    /// Whether the timeline places user `point` anywhere in any epoch.
    pub fn is_point(&self, point: usize) -> (r: bool)
        requires
            self.wf(),
        ensures
            r == self.tracks(point),
    {
        let n = self.timeline.len();
        let mut e: usize = 0;
        while e < n
            invariant
                self.wf(),
                n == self.timeline@.len(),
                0 <= e <= n,
                forall|ee: int, j: int|
                    0 <= ee < e && 0 <= j < self.timeline@[ee].grid@.len() ==> !(
                    #[trigger] self.timeline@[ee].grid@[j]).has(point),
            decreases n - e,
        {
            let g = &self.timeline[e];
            let m = g.grid.len();
            let mut j: usize = 0;
            while j < m
                invariant
                    self.wf(),
                    e < self.timeline@.len(),
                    g == &self.timeline@[e as int],
                    m == g.grid@.len(),
                    0 <= j <= m,
                    forall|k: int| 0 <= k < j ==> !(#[trigger] g.grid@[k]).has(point),
                decreases m - j,
            {
                if g.grid[j].contains(point) {
                    return true;
                }
                j += 1;
            }
            e += 1;
        }
        false
    }

    /// The flat cell index of `point` at `epoch`: the first cell that holds
    /// it, when the epoch exists and some cell does.
    pub fn get_index_at_epoch(&self, point: usize, epoch: usize) -> (r: Option<usize>)
        requires
            self.wf(),
        ensures
            match r {
                Some(i) => epoch < self.timeline@.len() && self.is_first_cell(
                    epoch as int,
                    point,
                    i as int,
                ) && i as int == self.first_cell(epoch as int, point),
                None => epoch >= self.timeline@.len() || !self.placed(epoch as int, point),
            },
    {
        if epoch >= self.timeline.len() {
            return None;
        }
        let g = &self.timeline[epoch];
        let m = g.grid.len();
        let mut j: usize = 0;
        while j < m
            invariant
                self.wf(),
                epoch < self.timeline@.len(),
                g == &self.timeline@[epoch as int],
                m == g.grid@.len(),
                0 <= j <= m,
                forall|k: int| 0 <= k < j ==> !(#[trigger] g.grid@[k]).has(point),
            decreases m - j,
        {
            if g.grid[j].contains(point) {
                proof {
                    assert(self.is_first_cell(epoch as int, point, j as int));
                    let c = self.first_cell(epoch as int, point);
                    if c != j as int {
                        assert(self.is_first_cell(epoch as int, point, c));
                        if c < j as int {
                            assert(!g.grid@[c].has(point));
                        } else {
                            assert(!g.grid@[j as int].has(point));
                        }
                    }
                }
                return Some(j);
            }
            j += 1;
        }
        None
    }

    /// The grid coordinates of `point` at `epoch`, when it is placed there.
    pub fn get_location_at_epoch(&self, point: usize, epoch: usize) -> (r: Option<(usize, usize)>)
        requires
            self.wf(),
            self.size > 0,
        ensures
            match r {
                Some(p) => epoch < self.timeline@.len() && self.placed(epoch as int, point) && p
                    == (
                    (self.first_cell(epoch as int, point) % (self.size as int)) as usize,
                    (self.first_cell(epoch as int, point) / (self.size as int)) as usize,
                ),
                None => epoch >= self.timeline@.len() || !self.placed(epoch as int, point),
            },
    {
        match self.get_index_at_epoch(point, epoch) {
            Some(i) => {
                let g = &self.timeline[epoch];
                proof {
                    assert(g.size == self.size);
                }
                let (x, y) = g.get_position(i);
                Some((x, y))
            },
            None => None,
        }
    }

    /// Everyone placed next to `point` at `epoch`: the members of the
    /// clamped Moore neighbourhood of its cell, except `point` itself.
    pub fn get_neighbours_at_epoch(&self, point: usize, epoch: usize) -> (r: Option<Vec<usize>>)
        requires
            self.wf(),
            self.size > 0,
        ensures
            match r {
                Some(v) => epoch < self.timeline@.len() && self.placed(epoch as int, point)
                    && forall|p: usize|
                    v@.contains(p) == self.timeline@[epoch as int].neighbour_of(
                        self.first_cell(epoch as int, point) as usize,
                        point,
                        p,
                    ),
                None => epoch >= self.timeline@.len() || !self.placed(epoch as int, point),
            },
    {
        match self.get_index_at_epoch(point, epoch) {
            Some(i) => {
                let g = &self.timeline[epoch];
                let v = g.get_neighbours(i, point);
                Some(v)
            },
            None => None,
        }
    }
}

} // verus!
