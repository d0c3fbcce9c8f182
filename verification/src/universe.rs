//! The universe: the grid's extents, its cells and the operations on them.

use crate::bitset::{contents, packed_in_words};
use crate::error::UniverseError;
use crate::grid::{
    dead_grid, lemma_adjacent, lemma_index, lemma_reduce, lemma_wrap, survives, valid_extents, Grid,
};
use crate::packing::{byte_bit, bytes_for, unpacked};
use crate::pattern::{glider, points_of, pulsar, pulsar_quarter, wide_points_of};
use crate::seed::{
    band_before, draws_needed, seeded, seeding_fits, symmetric_draws, symmetric_seed, Seeding,
};
use fixedbitset::FixedBitSet;
use vstd::prelude::*;

verus! {

/// The extent, in rows and in columns, of a new universe.
pub const DEFAULT_EXTENT: u32 = 100;

/// The number of draws that seeding a new universe takes.
pub const DEFAULT_DRAWS: usize = 55;

/// A toroidal grid of cells, one bit per cell in row-major order, together
/// with the cells it was last seeded with.
pub struct Universe {
    width: u32,
    height: u32,
    cells: FixedBitSet,
    initial_cells: FixedBitSet,
}

impl View for Universe {
    type V = Grid;

    closed spec fn view(&self) -> Grid {
        Grid {
            width: self.width as int,
            height: self.height as int,
            cells: contents(self.cells),
        }
    }
}

/// The transition rule for one cell with `live_neighbors` live neighbours.
pub fn rule(cell: bool, live_neighbors: u8) -> (next: bool)
    ensures
        next == survives(cell, live_neighbors as int),
{
    match (cell, live_neighbors) {
        // A live cell with fewer than two live neighbours dies.
        (true, x) if x < 2 => false,
        // A live cell with two or three live neighbours lives on.
        (true, 2) | (true, 3) => true,
        // A live cell with more than three live neighbours dies.
        (true, x) if x > 3 => false,
        // A dead cell with exactly three live neighbours comes alive.
        (false, 3) => true,
        // Every other cell stays as it is.
        (otherwise, _) => otherwise,
    }
}

impl Universe {
    /// The cells that the universe was last seeded with.
    pub closed spec fn initial(&self) -> Seq<bool> {
        contents(self.initial_cells)
    }

    /// The invariant of a universe: its grid is well formed.
    pub open spec fn wf(&self) -> bool {
        self@.wf()
    }

    /// A universe of 100 rows and 100 columns, seeded symmetrically from
    /// `draws`, of which it reads the first 55.
    pub fn new(draws: &[bool]) -> (created: Result<Universe, UniverseError>)
        ensures
            match created {
                Ok(universe) => {
                    &&& universe.wf()
                    &&& DEFAULT_DRAWS <= draws.len()
                    &&& universe@ == symmetric_seed(
                        DEFAULT_EXTENT as int,
                        DEFAULT_EXTENT as int,
                        draws@,
                    )
                    &&& universe.initial() == universe@.cells
                },
                Err(e) => e == UniverseError::InvalidLength && draws.len() < DEFAULT_DRAWS,
            },
    {
        let width = DEFAULT_EXTENT;
        let height = DEFAULT_EXTENT;
        proof {
            lemma_default_draws();
        }
        match Self::random_symmetric(height, width, draws) {
            Ok(cells) => Ok(Self { width, height, initial_cells: cells.clone(), cells }),
            Err(e) => Err(e),
        }
    }

    /// Seeds the universe anew, symmetrically, from `draws`.
    pub fn randomise(&mut self, draws: &[bool]) -> (done: Result<(), UniverseError>)
        requires
            old(self).wf(),
        ensures
            final(self).wf(),
            final(self).reseeded(*old(self), Seeding::Symmetric, draws@, done),
    {
        self.randomise_with(Seeding::Symmetric, draws)
    }

    /// What a reseeding leaves behind: on success the seeded grid of the
    /// same extents, kept as the initial cells too; on refusal the universe
    /// as it was. It is refused with `InvalidDimension` where the seeding
    /// has no place in the extents, and else with `InvalidLength` where
    /// there are fewer draws than it makes.
    pub open spec fn reseeded(
        &self,
        before: Universe,
        seeding: Seeding,
        draws: Seq<bool>,
        done: Result<(), UniverseError>,
    ) -> bool {
        let height = before@.height;
        let width = before@.width;
        match done {
            Ok(_) => {
                &&& seeding_fits(seeding, height, width)
                &&& draws_needed(seeding, height, width) <= draws.len()
                &&& self@ == seeded(seeding, height, width, draws)
                &&& self.initial() == self@.cells
            },
            Err(UniverseError::InvalidDimension) => {
                &&& !seeding_fits(seeding, height, width)
                &&& self@ == before@
                &&& self.initial() == before.initial()
            },
            Err(UniverseError::InvalidLength) => {
                &&& seeding_fits(seeding, height, width)
                &&& draws.len() < draws_needed(seeding, height, width)
                &&& self@ == before@
                &&& self.initial() == before.initial()
            },
        }
    }

    /// Seeds the universe anew from `draws`, in the chosen way.
    pub fn randomise_with(&mut self, seeding: Seeding, draws: &[bool]) -> (done: Result<
        (),
        UniverseError,
    >)
        requires
            old(self).wf(),
        ensures
            final(self).wf(),
            final(self).reseeded(*old(self), seeding, draws@, done),
    {
        let made = match seeding {
            Seeding::Window => Self::random_cells(self.height, self.width, draws),
            Seeding::Symmetric => Self::random_symmetric(self.height, self.width, draws),
        };
        match made {
            Ok(cells) => {
                self.cells = cells;
                self.initial_cells = self.cells.clone();
                Ok(())
            },
            Err(e) => Err(e),
        }
    }

    /// Makes every cell dead, the initial cells too, and keeps the extents.
    pub fn clear(&mut self)
        requires
            old(self).wf(),
        ensures
            final(self).wf(),
            final(self)@ == old(self)@.cleared(),
            final(self).initial() == final(self)@.cells,
    {
        let size = (self.height * self.width) as usize;
        self.cells = FixedBitSet::with_capacity(size);
        self.initial_cells = self.cells.clone();
    }

    /// The number of columns.
    pub fn width(&self) -> (width: u32)
        ensures
            width == self@.width,
    {
        self.width
    }

    /// The number of rows.
    pub fn height(&self) -> (height: u32)
        ensures
            height == self@.height,
    {
        self.height
    }

    /// What setting an extent leaves behind: on success the dead grid of
    /// the new extents; on refusal, which comes where the new extents are
    /// not valid, the universe as it was. The initial cells stay either way.
    pub open spec fn resized(
        &self,
        before: Universe,
        height: int,
        width: int,
        done: Result<(), UniverseError>,
    ) -> bool {
        &&& self.initial() == before.initial()
        &&& match done {
            Ok(_) => valid_extents(height, width) && self@ == dead_grid(height, width),
            Err(e) => {
                &&& e == UniverseError::InvalidDimension
                &&& !valid_extents(height, width)
                &&& self@ == before@
            },
        }
    }

    /// Whatever the universe held, after an extent has been set it has the
    /// new extents and no live cell.
    pub proof fn lemma_resized_dead(&self, before: Universe, height: int, width: int)
        requires
            self.resized(before, height, width, Ok(())),
        ensures
            self.wf(),
            self@.height == height,
            self@.width == width,
            self@.cells.len() == height * width,
            self@.all_dead(),
    {
    }

    /// Sets the width of the universe. All cells are dead afterwards.
    pub fn set_width(&mut self, width: u32) -> (done: Result<(), UniverseError>)
        requires
            old(self).wf(),
        ensures
            final(self).wf(),
            final(self).resized(*old(self), old(self)@.height, width as int, done),
    {
        if width == 0 {
            return Err(UniverseError::InvalidDimension);
        }
        match self.height.checked_mul(width) {
            Some(size) => {
                self.width = width;
                self.cells = FixedBitSet::with_capacity(size as usize);
                Ok(())
            },
            None => Err(UniverseError::InvalidDimension),
        }
    }

    /// Sets the height of the universe. All cells are dead afterwards.
    pub fn set_height(&mut self, height: u32) -> (done: Result<(), UniverseError>)
        requires
            old(self).wf(),
        ensures
            final(self).wf(),
            final(self).resized(*old(self), height as int, old(self)@.width, done),
    {
        if height == 0 {
            return Err(UniverseError::InvalidDimension);
        }
        match height.checked_mul(self.width) {
            Some(size) => {
                self.height = height;
                self.cells = FixedBitSet::with_capacity(size as usize);
                Ok(())
            },
            None => Err(UniverseError::InvalidDimension),
        }
    }

    /// The cells as 32-bit blocks: cell `i` is bit `i % 32` of block
    /// `i / 32`. The view lasts until the universe is next changed.
    pub fn cells(&self) -> (words: &[u32])
        ensures
            packed_in_words(words@, self@.cells),
    {
        self.cells.as_slice()
    }

    /// The cells of the last seeding, as 32-bit blocks like `cells`.
    pub fn initial_cells(&self) -> (words: &[u32])
        ensures
            packed_in_words(words@, self.initial()),
    {
        self.initial_cells.as_slice()
    }

    /// Replaces the cells by the first `width * height` bits of `bytes`,
    /// cell `i` from bit `i % 8` of byte `i / 8`. Too short a buffer is
    /// refused and changes nothing.
    pub fn set_state(&mut self, bytes: &[u8]) -> (done: Result<(), UniverseError>)
        requires
            old(self).wf(),
        ensures
            final(self).wf(),
            final(self).initial() == old(self).initial(),
            final(self)@.width == old(self)@.width,
            final(self)@.height == old(self)@.height,
            match done {
                Ok(_) => {
                    &&& bytes_for(old(self)@.cells.len() as int) <= bytes.len()
                    &&& final(self)@.cells == unpacked(bytes@, old(self)@.cells.len() as int)
                },
                Err(e) => {
                    &&& e == UniverseError::InvalidLength
                    &&& bytes.len() < bytes_for(old(self)@.cells.len() as int)
                    &&& final(self)@ == old(self)@
                },
            },
    {
        let size = (self.height * self.width) as usize;
        let needed = if size % 8 == 0 {
            size / 8
        } else {
            size / 8 + 1
        };
        if bytes.len() < needed {
            return Err(UniverseError::InvalidLength);
        }
        let mut cells = FixedBitSet::with_capacity(size);
        let mut i: usize = 0;
        while i < size
            invariant
                i <= size,
                bytes_for(size as int) <= bytes.len(),
                contents(cells).len() == size,
                forall|k: int| 0 <= k < i ==> contents(cells)[k] == byte_bit(bytes@[k / 8], k % 8),
            decreases size - i,
        {
            let byte = bytes[i / 8];
            let shift = (i % 8) as u8;
            cells.set(i, (byte >> shift) & 1u8 == 1u8);
            i += 1;
        }
        self.cells = cells;
        Ok(())
    }

    fn get_index(&self, row: u32, column: u32) -> (idx: usize)
        requires
            self.wf(),
            row < self@.height,
            column < self@.width,
        ensures
            idx == self@.index(row as int, column as int),
            idx < self@.cells.len(),
    {
        proof {
            lemma_index(row as int, column as int, self.height as int, self.width as int);
        }
        (row * self.width + column) as usize
    }

    fn population(&self, row: u32, column: u32) -> (count: u8)
        requires
            self.wf(),
            row < self@.height,
            column < self@.width,
        ensures
            count == if self@.cell(row as int, column as int) {
                1int
            } else {
                0int
            },
    {
        let idx = self.get_index(row, column);
        if self.cells.contains(idx) {
            1
        } else {
            0
        }
    }

    /// Counts the live cells among the eight neighbours of the cell that
    /// (`row`, `column`) names on the torus.
    #[verifier::rlimit(40)]
    pub fn live_neighbor_count(&self, row: u32, column: u32) -> (count: u8)
        requires
            self.wf(),
        ensures
            count == self@.live_neighbors(row as int, column as int),
    {
        let row_here = row % self.height;
        let column_here = column % self.width;
        let north = if row_here == 0 {
            self.height - 1
        } else {
            row_here - 1
        };
        let south = if row_here == self.height - 1 {
            0
        } else {
            row_here + 1
        };
        let west = if column_here == 0 {
            self.width - 1
        } else {
            column_here - 1
        };
        let east = if column_here == self.width - 1 {
            0
        } else {
            column_here + 1
        };
        proof {
            lemma_adjacent(row as int, self.height as int);
            lemma_adjacent(column as int, self.width as int);
        }
        let ghost grid = self@;
        let ghost (r, c) = (row as int, column as int);
        let nw = self.population(north, west);
        assert(nw == grid.population(r - 1, c - 1));
        let n = self.population(north, column_here);
        assert(n == grid.population(r - 1, c));
        let ne = self.population(north, east);
        assert(ne == grid.population(r - 1, c + 1));
        let w = self.population(row_here, west);
        assert(w == grid.population(r, c - 1));
        let e = self.population(row_here, east);
        assert(e == grid.population(r, c + 1));
        let sw = self.population(south, west);
        assert(sw == grid.population(r + 1, c - 1));
        let s = self.population(south, column_here);
        assert(s == grid.population(r + 1, c));
        let se = self.population(south, east);
        assert(se == grid.population(r + 1, c + 1));
        nw + n + ne + w + e + sw + s + se
    }

    /// Computes the next generation from the present one into a buffer of
    /// its own.
    fn next_generation(&self) -> (next: FixedBitSet)
        requires
            self.wf(),
        ensures
            contents(next) == self@.step().cells,
    {
        let mut next = self.cells.clone();
        let ghost grid = self@;
        let mut row: u32 = 0;
        while row < self.height
            invariant
                self.wf(),
                grid == self@,
                row <= self.height,
                contents(next).len() == grid.cells.len(),
                forall|i: int|
                    0 <= i < row * grid.width ==> contents(next)[i] == grid.step().cells[i],
            decreases self.height - row,
        {
            let mut col: u32 = 0;
            while col < self.width
                invariant
                    self.wf(),
                    grid == self@,
                    row < self.height,
                    col <= self.width,
                    contents(next).len() == grid.cells.len(),
                    forall|i: int|
                        0 <= i < row * grid.width + col ==> contents(next)[i]
                            == grid.step().cells[i],
                decreases self.width - col,
            {
                let idx = self.get_index(row, col);
                let cell = self.cells.contains(idx);
                let live_neighbors = self.live_neighbor_count(row, col);
                proof {
                    lemma_index(row as int, col as int, grid.height, grid.width);
                    lemma_wrap(row as int, grid.height);
                    lemma_wrap(col as int, grid.width);
                }
                next.set(idx, rule(cell, live_neighbors));
                col += 1;
            }
            proof {
                assert((row + 1) * grid.width == row * grid.width + grid.width)
                    by (nonlinear_arith);
            }
            row += 1;
        }
        next
    }

    /// Advances the universe by one generation.
    pub fn tick(&mut self)
        requires
            old(self).wf(),
        ensures
            final(self).wf(),
            final(self)@ == old(self)@.step(),
            final(self).initial() == old(self).initial(),
    {
        proof {
            reveal_with_fuel(Grid::step_n, 2);
        }
        self.tick_many(1);
    }

    /// Advances the universe by `ticks` generations, each computed from
    /// the whole of the one before.
    pub fn tick_many(&mut self, ticks: usize)
        requires
            old(self).wf(),
        ensures
            final(self).wf(),
            final(self)@ == old(self)@.step_n(ticks as nat),
            final(self).initial() == old(self).initial(),
    {
        let mut done: usize = 0;
        while done < ticks
            invariant
                self.wf(),
                done <= ticks,
                self@ == old(self)@.step_n(done as nat),
                self.initial() == old(self).initial(),
            decreases ticks - done,
        {
            let next = self.next_generation();
            self.cells = next;
            done += 1;
        }
    }

    /// Flips the one cell that (`row`, `column`) names on the torus.
    pub fn toggle_cell(&mut self, row: u32, column: u32)
        requires
            old(self).wf(),
        ensures
            final(self).wf(),
            final(self)@ == old(self)@.toggled(row as int, column as int),
            final(self).initial() == old(self).initial(),
    {
        let idx = self.get_index(row % self.height, column % self.width);
        let alive = self.cells.contains(idx);
        self.cells.set(idx, !alive);
    }

    /// Sets alive the cell that (`row`, `col`) names on the torus.
    fn set_alive(&mut self, row: i64, col: i64)
        requires
            old(self).wf(),
        ensures
            final(self).wf(),
            final(self)@.width == old(self)@.width,
            final(self)@.height == old(self)@.height,
            final(self)@.cells == old(self)@.cells.update(
                old(self)@.wrapped_index(row as int, col as int),
                true,
            ),
            final(self).initial() == old(self).initial(),
    {
        proof {
            lemma_reduce(row as int, self.height as int);
            lemma_reduce(col as int, self.width as int);
        }
        let r = row.checked_rem_euclid(self.height as i64).unwrap();
        let c = col.checked_rem_euclid(self.width as i64).unwrap();
        let idx = self.get_index(r as u32, c as u32);
        self.cells.set(idx, true);
    }

    /// Sets alive every cell that one of `points` names.
    fn stamp(&mut self, points: &Vec<(i64, i64)>)
        requires
            old(self).wf(),
        ensures
            final(self).wf(),
            final(self)@ == old(self)@.stamped(wide_points_of(points@)),
            final(self).initial() == old(self).initial(),
    {
        let ghost all = wide_points_of(points@);
        proof {
            old(self)@.lemma_stamped_empty();
            assert(all.take(0) =~= Seq::<(int, int)>::empty());
        }
        let mut k: usize = 0;
        while k < points.len()
            invariant
                self.wf(),
                k <= points.len(),
                all == wide_points_of(points@),
                self@ == old(self)@.stamped(all.take(k as int)),
                self.initial() == old(self).initial(),
            decreases points.len() - k,
        {
            let (row, col) = points[k];
            proof {
                old(self)@.lemma_stamped_push(all.take(k as int), all[k as int]);
                assert(all.take(k as int).push(all[k as int]) =~= all.take(k + 1));
            }
            self.set_alive(row, col);
            k += 1;
        }
        proof {
            assert(all.take(k as int) =~= all);
        }
    }

    /// Stamps a glider whose lowest, rightmost cell is (`row`, `col`).
    pub fn add_glider(&mut self, row: u32, col: u32)
        requires
            old(self).wf(),
        ensures
            final(self).wf(),
            final(self)@ == old(self)@.stamped(glider(row as int, col as int)),
            final(self).initial() == old(self).initial(),
    {
        let row = row as i64;
        let col = col as i64;
        let points = vec![
            (row - 2, col - 1),
            (row - 1, col),
            (row, col - 2),
            (row, col - 1),
            (row, col),
        ];
        proof {
            assert(wide_points_of(points@) =~= glider(row as int, col as int));
        }
        self.stamp(&points);
    }

    /// Stamps a pulsar with its centre at (`row`, `col`).
    pub fn add_pulsar(&mut self, row: u32, col: u32)
        requires
            old(self).wf(),
        ensures
            final(self).wf(),
            final(self)@ == old(self)@.stamped(pulsar(row as int, col as int)),
            final(self).initial() == old(self).initial(),
    {
        let ghost start = self@;
        let ghost (r, c) = (row as int, col as int);
        self.stamp(&pulsar_points(row, col, 1, 1));
        self.stamp(&pulsar_points(row, col, 1, -1));
        self.stamp(&pulsar_points(row, col, -1, 1));
        self.stamp(&pulsar_points(row, col, -1, -1));
        proof {
            let q1 = pulsar_quarter(r, c, 1, 1);
            let q2 = pulsar_quarter(r, c, 1, -1);
            let q3 = pulsar_quarter(r, c, -1, 1);
            let q4 = pulsar_quarter(r, c, -1, -1);
            start.lemma_stamped_twice(q1, q2);
            start.lemma_stamped_twice(q1 + q2, q3);
            start.lemma_stamped_twice(q1 + q2 + q3, q4);
        }
    }

    /// The dead and alive values of the whole universe.
    pub fn get_cells(&self) -> (cells: &FixedBitSet)
        ensures
            contents(*cells) == self@.cells,
    {
        &self.cells
    }

    /// Sets alive every cell that one of `cells` names: each pair is a row
    /// and a column, reduced modulo the height and the width, so that
    /// negative and outlying coordinates wrap around.
    pub fn set_cells(&mut self, cells: &[(i32, i32)])
        requires
            old(self).wf(),
        ensures
            final(self).wf(),
            final(self)@ == old(self)@.stamped(points_of(cells@)),
            final(self).initial() == old(self).initial(),
    {
        let ghost all = points_of(cells@);
        proof {
            old(self)@.lemma_stamped_empty();
            assert(all.take(0) =~= Seq::<(int, int)>::empty());
        }
        let mut k: usize = 0;
        while k < cells.len()
            invariant
                self.wf(),
                k <= cells.len(),
                all == points_of(cells@),
                self@ == old(self)@.stamped(all.take(k as int)),
                self.initial() == old(self).initial(),
            decreases cells.len() - k,
        {
            let (row, col) = cells[k];
            proof {
                old(self)@.lemma_stamped_push(all.take(k as int), all[k as int]);
                assert(all.take(k as int).push(all[k as int]) =~= all.take(k + 1));
            }
            self.set_alive(row as i64, col as i64);
            k += 1;
        }
        proof {
            assert(all.take(k as int) =~= all);
        }
    }
}

/// The twelve points of one quarter of a pulsar.
fn pulsar_points(row: u32, col: u32, q_row: i64, q_col: i64) -> (points: Vec<(i64, i64)>)
    requires
        q_row == 1 || q_row == -1,
        q_col == 1 || q_col == -1,
    ensures
        wide_points_of(points@) == pulsar_quarter(
            row as int,
            col as int,
            q_row as int,
            q_col as int,
        ),
{
    let row = row as i64;
    let col = col as i64;
    let points = vec![
        (row + q_row * 1, col + q_col * 2),
        (row + q_row * 1, col + q_col * 3),
        (row + q_row * 1, col + q_col * 4),
        (row + q_row * 2, col + q_col * 1),
        (row + q_row * 3, col + q_col * 1),
        (row + q_row * 4, col + q_col * 1),
        (row + q_row * 6, col + q_col * 2),
        (row + q_row * 6, col + q_col * 3),
        (row + q_row * 6, col + q_col * 4),
        (row + q_row * 2, col + q_col * 6),
        (row + q_row * 3, col + q_col * 6),
        (row + q_row * 4, col + q_col * 6),
    ];
    proof {
        assert(wide_points_of(points@) =~= pulsar_quarter(
            row as int,
            col as int,
            q_row as int,
            q_col as int,
        ));
    }
    points
}

/// Seeding a new universe takes 55 draws.
pub proof fn lemma_default_draws()
    ensures
        symmetric_draws(DEFAULT_EXTENT as int, DEFAULT_EXTENT as int) == DEFAULT_DRAWS,
{
    reveal_with_fuel(band_before, 11);
}

} // verus!
