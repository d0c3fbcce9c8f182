//! The mathematical model of a universe: a torus of cells, its neighbour
//! count, the transition rule and the effect of stamping points.

use vstd::prelude::*;

verus! {

/// A grid of `width * height` cells in row-major order; `cells[i]` says
/// whether cell `i` is alive. Rows and columns are read modulo the extents,
/// so every pair of integers names a cell.
pub struct Grid {
    pub width: int,
    pub height: int,
    pub cells: Seq<bool>,
}

/// Extents that a grid can have: both positive, with at most `u32::MAX`
/// cells.
pub open spec fn valid_extents(height: int, width: int) -> bool {
    0 < height && 0 < width && height * width <= u32::MAX
}

/// The transition rule for one cell: a live cell stays alive with two or
/// three live neighbours, a dead cell comes alive with exactly three.
pub open spec fn survives(alive: bool, neighbors: int) -> bool {
    if alive {
        neighbors == 2 || neighbors == 3
    } else {
        neighbors == 3
    }
}

impl Grid {
    /// The extents are valid and there is one cell for each position.
    pub open spec fn wf(self) -> bool {
        &&& valid_extents(self.height, self.width)
        &&& self.cells.len() == self.height * self.width
    }

    /// The place of cell (`row`, `col`) in `cells`, for a position inside
    /// the grid.
    pub open spec fn index(self, row: int, col: int) -> int {
        row * self.width + col
    }

    /// The place in `cells` of the cell that (`row`, `col`) names on the
    /// torus.
    pub open spec fn wrapped_index(self, row: int, col: int) -> int {
        self.index(row % self.height, col % self.width)
    }

    /// Whether the cell at (`row`, `col`), a position inside the grid, is
    /// alive.
    pub open spec fn cell(self, row: int, col: int) -> bool {
        self.cells[self.index(row, col)]
    }

    /// Whether the cell that (`row`, `col`) names on the torus is alive.
    pub open spec fn alive(self, row: int, col: int) -> bool {
        self.cell(row % self.height, col % self.width)
    }

    /// 1 where the cell at (`row`, `col`), a position inside the grid, is
    /// alive, else 0.
    pub open spec fn tally(self, row: int, col: int) -> int {
        if self.cell(row, col) {
            1
        } else {
            0
        }
    }

    /// 1 where the cell that (`row`, `col`) names on the torus is alive,
    /// else 0.
    pub open spec fn population(self, row: int, col: int) -> int {
        if self.alive(row, col) {
            1
        } else {
            0
        }
    }

    /// The number of live cells among the eight neighbours of (`row`,
    /// `col`) on the torus. On a grid fewer than three cells wide or high a
    /// cell is counted once for each offset that leads to it.
    pub open spec fn live_neighbors(self, row: int, col: int) -> int {
        self.population(row - 1, col - 1) + self.population(row - 1, col) + self.population(
            row - 1,
            col + 1,
        ) + self.population(row, col - 1) + self.population(row, col + 1) + self.population(
            row + 1,
            col - 1,
        ) + self.population(row + 1, col) + self.population(row + 1, col + 1)
    }

    /// Whether cell (`row`, `col`) is alive in the next generation.
    pub open spec fn next_alive(self, row: int, col: int) -> bool {
        survives(self.alive(row, col), self.live_neighbors(row, col))
    }

    /// The next generation: every cell is decided from this grid alone.
    pub open spec fn step(self) -> Grid {
        Grid {
            width: self.width,
            height: self.height,
            cells: Seq::new(
                self.cells.len(),
                |i: int| self.next_alive(i / self.width, i % self.width),
            ),
        }
    }

    /// The grid after `n` generations.
    pub open spec fn step_n(self, n: nat) -> Grid
        decreases n,
    {
        if n == 0 {
            self
        } else {
            self.step_n((n - 1) as nat).step()
        }
    }

    /// A grid of the same extents with every cell dead.
    pub open spec fn cleared(self) -> Grid {
        Grid {
            width: self.width,
            height: self.height,
            cells: Seq::new(self.cells.len(), |i: int| false),
        }
    }

    /// Whether no cell is alive.
    pub open spec fn all_dead(self) -> bool {
        forall|i: int| 0 <= i < self.cells.len() ==> !#[trigger] self.cells[i]
    }

    /// The grid with the one cell that (`row`, `col`) names flipped.
    pub open spec fn toggled(self, row: int, col: int) -> Grid {
        Grid {
            width: self.width,
            height: self.height,
            cells: self.cells.update(self.wrapped_index(row, col), !self.alive(row, col)),
        }
    }

    /// Whether one of `points`, read as (row, column) on the torus, names
    /// cell `i`.
    pub open spec fn named(self, points: Seq<(int, int)>, i: int) -> bool {
        exists|k: int|
            0 <= k < points.len() && self.wrapped_index(
                (#[trigger] points[k]).0,
                points[k].1,
            ) == i
    }

    /// The grid with every cell that one of `points` names set alive and
    /// every other cell as it was.
    pub open spec fn stamped(self, points: Seq<(int, int)>) -> Grid {
        Grid {
            width: self.width,
            height: self.height,
            cells: Seq::new(self.cells.len(), |i: int| self.cells[i] || self.named(points, i)),
        }
    }
}

/// The dead grid of the given extents.
pub open spec fn dead_grid(height: int, width: int) -> Grid {
    Grid { width, height, cells: Seq::new((height * width) as nat, |i: int| false) }
}

/// A position inside the grid has its own place in `cells`, from which row
/// and column can be read back.
pub proof fn lemma_index(row: int, col: int, height: int, width: int)
    requires
        0 <= row < height,
        0 <= col < width,
    ensures
        0 <= row * width + col < height * width,
        (row * width + col) / width == row,
        (row * width + col) % width == col,
{
    assert(0 <= row * width && (row + 1) * width <= height * width) by (nonlinear_arith)
        requires
            0 <= row < height,
            0 < width,
    ;
    assert((row + 1) * width == row * width + width) by (nonlinear_arith);
    vstd::arithmetic::div_mod::lemma_fundamental_div_mod_converse(
        row * width + col,
        width,
        row,
        col,
    );
}

/// Every place in `cells` belongs to one position inside the grid.
pub proof fn lemma_position(i: int, height: int, width: int)
    requires
        0 < width,
        0 <= i < height * width,
    ensures
        0 <= i / width < height,
        0 <= i % width < width,
        (i / width) * width + i % width == i,
{
    vstd::arithmetic::div_mod::lemma_fundamental_div_mod(i, width);
    vstd::arithmetic::div_mod::lemma_mod_bound(i, width);
    let q = i / width;
    let r = i % width;
    assert(width * q == q * width) by (nonlinear_arith);
    assert(0 <= q < height) by (nonlinear_arith)
        requires
            0 < width,
            0 <= r < width,
            q * width + r == i,
            0 <= i < height * width,
    ;
}

/// Reducing a coordinate one step outside `0..n` modulo `n`.
pub proof fn lemma_wrap(x: int, n: int)
    requires
        0 < n,
        -n <= x < 2 * n,
    ensures
        x % n == if x < 0 {
            x + n
        } else if x < n {
            x
        } else {
            x - n
        },
{
    if x < 0 {
        vstd::arithmetic::div_mod::lemma_mod_add_multiples_vanish(x, n);
        vstd::arithmetic::div_mod::lemma_small_mod((x + n) as nat, n as nat);
    } else if x < n {
        vstd::arithmetic::div_mod::lemma_small_mod(x as nat, n as nat);
    } else {
        vstd::arithmetic::div_mod::lemma_mod_sub_multiples_vanish(x, n);
        vstd::arithmetic::div_mod::lemma_small_mod((x - n) as nat, n as nat);
    }
}

/// A reduced coordinate lies inside the extent, and shifting by the extent
/// does not change it.
pub proof fn lemma_reduce(x: int, n: int)
    requires
        0 < n,
    ensures
        0 <= x % n < n,
        (x % n) % n == x % n,
{
    vstd::arithmetic::div_mod::lemma_mod_bound(x, n);
    vstd::arithmetic::div_mod::lemma_small_mod((x % n) as nat, n as nat);
}

/// A coordinate may be reduced before or after it is shifted.
pub proof fn lemma_shift(x: int, d: int, n: int)
    requires
        0 < n,
    ensures
        (x % n + d) % n == (x + d) % n,
{
    vstd::arithmetic::div_mod::lemma_add_mod_noop_right(d, x, n);
}

/// The coordinates next to `x` on a ring of `n` places, by the place of
/// `x` itself.
pub proof fn lemma_adjacent(x: int, n: int)
    requires
        0 < n,
    ensures
        0 <= x % n < n,
        (x - 1) % n == if x % n == 0 {
            n - 1
        } else {
            x % n - 1
        },
        (x + 1) % n == if x % n == n - 1 {
            0
        } else {
            x % n + 1
        },
{
    lemma_reduce(x, n);
    lemma_shift(x, -1, n);
    lemma_shift(x, 1, n);
    lemma_wrap(x % n - 1, n);
    lemma_wrap(x % n + 1, n);
}

impl Grid {
    /// On a well-formed grid every pair of integers names a cell that
    /// exists.
    pub proof fn lemma_wrapped_index(self, row: int, col: int)
        requires
            self.wf(),
        ensures
            0 <= self.wrapped_index(row, col) < self.cells.len(),
            0 <= row % self.height < self.height,
            0 <= col % self.width < self.width,
    {
        lemma_reduce(row, self.height);
        lemma_reduce(col, self.width);
        lemma_index(row % self.height, col % self.width, self.height, self.width);
    }

    /// The next generation holds, at every position inside the grid, what
    /// the rule makes of the cell there and of its eight neighbours.
    pub proof fn lemma_step_cell(self, row: int, col: int)
        requires
            self.wf(),
            0 <= row < self.height,
            0 <= col < self.width,
        ensures
            self.step().wf(),
            self.step().cell(row, col) == survives(
                self.cell(row, col),
                self.live_neighbors(row, col),
            ),
    {
        lemma_index(row, col, self.height, self.width);
        lemma_wrap(row, self.height);
        lemma_wrap(col, self.width);
    }

    /// A live cell with no live neighbour is dead in the next generation.
    pub proof fn lemma_lone_cell_dies(self, row: int, col: int)
        requires
            self.wf(),
            0 <= row < self.height,
            0 <= col < self.width,
            self.cell(row, col),
            self.live_neighbors(row, col) == 0,
        ensures
            !self.step().cell(row, col),
    {
        self.lemma_step_cell(row, col);
    }

    /// One generation is `step`, and `a + b` generations are `a` generations
    /// followed by `b`.
    pub proof fn lemma_step_n_add(self, a: nat, b: nat)
        ensures
            self.step_n(1) == self.step(),
            self.step_n(a + b) == self.step_n(a).step_n(b),
        decreases b,
    {
        reveal_with_fuel(Grid::step_n, 2);
        if b > 0 {
            self.lemma_step_n_add(a, (b - 1) as nat);
        }
    }

    /// The grid wraps around: the eight neighbours of the corner (0, 0)
    /// are the cells next to it inside the grid and those across the top
    /// and left edges, in the last row and the last column.
    pub proof fn lemma_corner_neighbors(self)
        requires
            self.wf(),
        ensures
            self.live_neighbors(0, 0) == self.tally(self.height - 1, self.width - 1) + self.tally(
                self.height - 1,
                0,
            ) + self.tally(self.height - 1, 1int % self.width) + self.tally(0, self.width - 1)
                + self.tally(0, 1int % self.width) + self.tally(1int % self.height, self.width - 1)
                + self.tally(1int % self.height, 0) + self.tally(1int % self.height, 1int % self.width),
            self.cell(self.height - 1, self.width - 1) ==> self.live_neighbors(0, 0) >= 1,
            self.cell(self.height - 1, 0) ==> self.live_neighbors(0, 0) >= 1,
            self.cell(0, self.width - 1) ==> self.live_neighbors(0, 0) >= 1,
    {
        lemma_adjacent(0, self.height);
        lemma_adjacent(0, self.width);
        lemma_wrap(0, self.height);
        lemma_wrap(0, self.width);
    }

    /// The neighbour count reads every coordinate modulo the extents: a
    /// cell and the same cell one whole turn further have the same count.
    pub proof fn lemma_neighbors_periodic(self, row: int, col: int)
        requires
            self.wf(),
        ensures
            self.live_neighbors(row + self.height, col) == self.live_neighbors(row, col),
            self.live_neighbors(row, col + self.width) == self.live_neighbors(row, col),
    {
        let h = self.height;
        let w = self.width;
        vstd::arithmetic::div_mod::lemma_mod_add_multiples_vanish(row - 1, h);
        vstd::arithmetic::div_mod::lemma_mod_add_multiples_vanish(row, h);
        vstd::arithmetic::div_mod::lemma_mod_add_multiples_vanish(row + 1, h);
        vstd::arithmetic::div_mod::lemma_mod_add_multiples_vanish(col - 1, w);
        vstd::arithmetic::div_mod::lemma_mod_add_multiples_vanish(col, w);
        vstd::arithmetic::div_mod::lemma_mod_add_multiples_vanish(col + 1, w);
        assert(h + (row - 1) == row + h - 1 && h + row == row + h && h + (row + 1) == row + h + 1);
        assert(w + (col - 1) == col + w - 1 && w + col == col + w && w + (col + 1) == col + w + 1);
    }

    /// Stamping one more point sets the cell that it names and leaves the
    /// rest of the stamped grid alone.
    pub proof fn lemma_stamped_push(self, points: Seq<(int, int)>, point: (int, int))
        requires
            self.wf(),
        ensures
            self.stamped(points.push(point)).cells == self.stamped(points).cells.update(
                self.wrapped_index(point.0, point.1),
                true,
            ),
    {
        let j = self.wrapped_index(point.0, point.1);
        let more = points.push(point);
        self.lemma_wrapped_index(point.0, point.1);
        assert forall|i: int| 0 <= i < self.cells.len() implies self.named(more, i) == (self.named(
            points,
            i,
        ) || i == j) by {
            if self.named(points, i) {
                let k = choose|k: int|
                    0 <= k < points.len() && self.wrapped_index(
                        (#[trigger] points[k]).0,
                        points[k].1,
                    ) == i;
                assert(more[k] == points[k]);
            }
            if i == j {
                assert(more[points.len() as int] == point);
            }
            if self.named(more, i) {
                let k = choose|k: int|
                    0 <= k < more.len() && self.wrapped_index(
                        (#[trigger] more[k]).0,
                        more[k].1,
                    ) == i;
                if k < points.len() {
                    assert(points[k] == more[k]);
                }
            }
        }
        assert(self.stamped(more).cells =~= self.stamped(points).cells.update(j, true));
    }

    /// Stamping no point changes nothing.
    pub proof fn lemma_stamped_empty(self)
        ensures
            self.stamped(Seq::<(int, int)>::empty()) == self,
    {
        assert(self.stamped(Seq::<(int, int)>::empty()).cells =~= self.cells);
    }

    /// Stamping two lists in turn is stamping their concatenation.
    pub proof fn lemma_stamped_twice(self, first: Seq<(int, int)>, second: Seq<(int, int)>)
        ensures
            self.stamped(first).stamped(second) == self.stamped(first + second),
    {
        let both = first + second;
        let mid = self.stamped(first);
        assert forall|i: int| 0 <= i < self.cells.len() implies (self.named(first, i) || mid.named(
            second,
            i,
        )) == self.named(both, i) by {
            if self.named(first, i) {
                let k = choose|k: int|
                    0 <= k < first.len() && self.wrapped_index(
                        (#[trigger] first[k]).0,
                        first[k].1,
                    ) == i;
                assert(both[k] == first[k]);
            }
            if mid.named(second, i) {
                let k = choose|k: int|
                    0 <= k < second.len() && mid.wrapped_index(
                        (#[trigger] second[k]).0,
                        second[k].1,
                    ) == i;
                assert(both[first.len() + k] == second[k]);
            }
            if self.named(both, i) {
                let k = choose|k: int|
                    0 <= k < both.len() && self.wrapped_index(
                        (#[trigger] both[k]).0,
                        both[k].1,
                    ) == i;
                if k < first.len() {
                    assert(first[k] == both[k]);
                } else {
                    assert(second[k - first.len()] == both[k]);
                    assert(mid.wrapped_index(second[k - first.len()].0, second[k - first.len()].1)
                        == i);
                }
            }
        }
        assert(mid.stamped(second).cells =~= self.stamped(both).cells);
    }
}

} // verus!
