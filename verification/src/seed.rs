//! Seeding a grid from a supply of random draws.
//!
//! The library draws nothing itself: a caller hands in the booleans, one
//! for each draw that a pattern makes, in the order in which they are made.
//! The same draws always give the same grid.

use crate::bitset::contents;
use crate::error::UniverseError;
use crate::grid::{lemma_index, lemma_position, valid_extents, Grid};
use crate::universe::Universe;
use fixedbitset::FixedBitSet;
use vstd::prelude::*;

verus! {

/// The side of the window that the plain seeding fills, less one.
pub const SPAWN_SIZE: u32 = 10;

/// The first row and column of the band that the symmetric seeding fills.
pub const BAND_START: u32 = 40;

/// The two ways of seeding a universe.
#[derive(Debug, Clone, Copy, PartialEq, Eq, Structural)]
pub enum Seeding {
    /// One draw for each cell of a window around the centre.
    Window,
    /// One draw for each pair of the band, shown at its eight mirror
    /// images.
    Symmetric,
}

/// The first row (or column) of the window in a grid of that many rows.
pub open spec fn window_min(extent: int) -> int {
    extent / 2 - SPAWN_SIZE / 2
}

/// The last row (or column) of the window that lies inside the grid.
pub open spec fn window_max(extent: int) -> int {
    if window_min(extent) + SPAWN_SIZE < extent {
        window_min(extent) + SPAWN_SIZE
    } else {
        extent - 1
    }
}

/// The number of rows (or columns) of the window inside the grid.
pub open spec fn window_span(extent: int) -> int {
    window_max(extent) - window_min(extent) + 1
}

/// Whether the window starts inside the grid.
pub open spec fn window_fits(height: int, width: int) -> bool {
    SPAWN_SIZE / 2 <= height / 2 && SPAWN_SIZE / 2 <= width / 2
}

/// Whether (`row`, `col`) lies in the window.
pub open spec fn in_window(height: int, width: int, row: int, col: int) -> bool {
    window_min(height) <= row <= window_max(height) && window_min(width) <= col <= window_max(
        width,
    )
}

/// The number of draws that the plain seeding makes.
pub open spec fn window_draws(height: int, width: int) -> int {
    window_span(height) * window_span(width)
}

/// Which draw decides the window cell (`row`, `col`): the cells are drawn
/// row by row.
pub open spec fn window_draw(height: int, width: int, row: int, col: int) -> int {
    (row - window_min(height)) * window_span(width) + (col - window_min(width))
}

/// The grid that the plain seeding makes of `draws`: a window cell is alive
/// where its draw is true, every other cell is dead.
pub open spec fn window_seed(height: int, width: int, draws: Seq<bool>) -> Grid {
    Grid {
        width,
        height,
        cells: Seq::new(
            (height * width) as nat,
            |i: int|
                in_window(height, width, i / width, i % width) && draws[window_draw(
                    height,
                    width,
                    i / width,
                    i % width,
                )],
        ),
    }
}

/// Whether (`x`, `y`) is a pair of the band: `x` runs from the band's start
/// to the middle column, `y` from `x` to the middle row.
pub open spec fn in_band(height: int, width: int, x: int, y: int) -> bool {
    BAND_START <= x <= y && x < width / 2 && y < height / 2
}

/// Whether every mirror image of every pair of the band lies inside the
/// grid.
pub open spec fn band_fits(height: int, width: int) -> bool {
    width / 2 <= BAND_START || height / 2 <= width
}

/// The number of pairs of the band whose first member is `x`.
pub open spec fn band_row(height: int, x: int) -> int {
    if x < height / 2 {
        height / 2 - x
    } else {
        0
    }
}

/// The number of pairs of the band whose first member is below `x`.
pub open spec fn band_before(height: int, x: int) -> int
    decreases x,
{
    if x <= BAND_START {
        0
    } else {
        band_before(height, x - 1) + band_row(height, x - 1)
    }
}

/// Which draw decides the pair (`x`, `y`): the pairs are drawn in the order
/// of `x`, and for one `x` in the order of `y`.
pub open spec fn band_draw(height: int, x: int, y: int) -> int {
    band_before(height, x) + (y - x)
}

/// The number of draws that the symmetric seeding makes.
pub open spec fn symmetric_draws(height: int, width: int) -> int {
    if width / 2 <= BAND_START {
        0
    } else {
        band_before(height, width / 2)
    }
}

/// Whether (`row`, `col`) is one of the eight mirror images of the pair
/// (`x`, `y`): (y, x) and (x, y), each also flipped top to bottom, left to
/// right, and both.
pub open spec fn mirrored(height: int, width: int, x: int, y: int, row: int, col: int) -> bool {
    ||| (row == y || row == height - 1 - y) && (col == x || col == width - 1 - x)
    ||| (row == x || row == height - 1 - x) && (col == y || col == width - 1 - y)
}

/// The distance of place `i` from the nearer edge of an extent.
pub open spec fn fold(i: int, extent: int) -> int {
    if i <= extent - 1 - i {
        i
    } else {
        extent - 1 - i
    }
}

/// The pair whose draw the cell (`row`, `col`) shows, if any pair has it
/// among its mirror images. In a grid at least as wide as high there is at
/// most one such pair. In a higher grid the band reaches past the middle
/// column, a cell can belong to several pairs, and it shows the one that is
/// drawn last.
pub open spec fn band_pair(height: int, width: int, row: int, col: int) -> Option<(int, int)> {
    let a = fold(row, height);
    let b = fold(col, width);
    if in_band(height, width, a, width - 1 - b) {
        Some((a, width - 1 - b))
    } else if in_band(height, width, a, b) {
        Some((a, b))
    } else if in_band(height, width, b, a) {
        Some((b, a))
    } else {
        None
    }
}

/// The grid that the symmetric seeding makes of `draws`: a cell is alive
/// where the draw of its pair is true, and dead where it has no pair.
pub open spec fn symmetric_seed(height: int, width: int, draws: Seq<bool>) -> Grid {
    Grid {
        width,
        height,
        cells: Seq::new(
            (height * width) as nat,
            |i: int|
                match band_pair(height, width, i / width, i % width) {
                    Some(pair) => draws[band_draw(height, pair.0, pair.1)],
                    None => false,
                },
        ),
    }
}

/// The grid that the chosen seeding makes of `draws`.
pub open spec fn seeded(seeding: Seeding, height: int, width: int, draws: Seq<bool>) -> Grid {
    match seeding {
        Seeding::Window => window_seed(height, width, draws),
        Seeding::Symmetric => symmetric_seed(height, width, draws),
    }
}

/// Whether the chosen seeding has a place in a grid of these extents.
pub open spec fn seeding_fits(seeding: Seeding, height: int, width: int) -> bool {
    match seeding {
        Seeding::Window => window_fits(height, width),
        Seeding::Symmetric => band_fits(height, width),
    }
}

/// The number of draws that the chosen seeding makes.
pub open spec fn draws_needed(seeding: Seeding, height: int, width: int) -> int {
    match seeding {
        Seeding::Window => window_draws(height, width),
        Seeding::Symmetric => symmetric_draws(height, width),
    }
}

/// Whether the pair `p` is drawn before the pair (`x`, `y`).
spec fn drawn_before(p: (int, int), x: int, y: int) -> bool {
    p.0 < x || (p.0 == x && p.1 < y)
}

/// The pair whose draw the cell (`row`, `col`) shows when the pairs before
/// (`x`, `y`) have been drawn and no other.
spec fn band_pair_before(height: int, width: int, row: int, col: int, x: int, y: int) -> Option<
    (int, int),
> {
    let a = fold(row, height);
    let b = fold(col, width);
    if in_band(height, width, a, width - 1 - b) && drawn_before((a, width - 1 - b), x, y) {
        Some((a, width - 1 - b))
    } else if in_band(height, width, a, b) && drawn_before((a, b), x, y) {
        Some((a, b))
    } else if in_band(height, width, b, a) && drawn_before((b, a), x, y) {
        Some((b, a))
    } else {
        None
    }
}

/// What a cell shows of `draws` when its pair is `pair`.
spec fn shown(height: int, draws: Seq<bool>, pair: Option<(int, int)>) -> bool {
    match pair {
        Some(p) => draws[band_draw(height, p.0, p.1)],
        None => false,
    }
}

/// Drawing the pair (`x`, `y`) changes what its mirror images show, and
/// nothing else.
proof fn lemma_pair_drawn(height: int, width: int, x: int, y: int, row: int, col: int)
    requires
        valid_extents(height, width),
        band_fits(height, width),
        in_band(height, width, x, y),
        0 <= row < height,
        0 <= col < width,
    ensures
        mirrored(height, width, x, y, row, col) ==> band_pair_before(
            height,
            width,
            row,
            col,
            x,
            y + 1,
        ) == Some((x, y)),
        !mirrored(height, width, x, y, row, col) ==> band_pair_before(
            height,
            width,
            row,
            col,
            x,
            y + 1,
        ) == band_pair_before(height, width, row, col, x, y),
{
}

/// When the pairs with first member `x` are done, the next pair is
/// (`x + 1`, `x + 1`).
proof fn lemma_row_drawn(height: int, width: int, x: int, y: int, row: int, col: int)
    requires
        BAND_START <= x,
        y >= x,
        y >= height / 2,
    ensures
        band_pair_before(height, width, row, col, x, y) == band_pair_before(
            height,
            width,
            row,
            col,
            x + 1,
            x + 1,
        ),
{
}

/// Before the first pair nothing is shown; after the last, everything.
proof fn lemma_band_ends(height: int, width: int, x: int, row: int, col: int)
    ensures
        band_pair_before(height, width, row, col, BAND_START as int, BAND_START as int) == None::<
            (int, int),
        >,
        x >= width / 2 ==> band_pair_before(height, width, row, col, x, x) == band_pair(
            height,
            width,
            row,
            col,
        ),
{
}

/// The count of pairs grows with `x`.
proof fn lemma_band_before_grows(height: int, x1: int, x2: int)
    requires
        x1 <= x2,
    ensures
        0 <= band_before(height, x1) <= band_before(height, x2),
    decreases x2 - BAND_START,
{
    if x2 <= BAND_START {
    } else if x1 == x2 {
        lemma_band_before_grows(height, x1 - 1, x2 - 1);
    } else {
        lemma_band_before_grows(height, x1, x2 - 1);
    }
}

/// From the middle row on the count of pairs stays as it is.
proof fn lemma_band_before_flat(height: int, x1: int, x2: int)
    requires
        BAND_START <= x1 <= x2,
        height / 2 <= x1,
    ensures
        band_before(height, x2) == band_before(height, x1),
    decreases x2 - x1,
{
    if x1 < x2 {
        lemma_band_before_flat(height, x1, x2 - 1);
    }
}

/// Every pair of the band has a draw of its own among those that the
/// seeding makes.
pub proof fn lemma_band_draw_in_range(height: int, width: int, x: int, y: int)
    requires
        in_band(height, width, x, y),
    ensures
        0 <= band_draw(height, x, y) < symmetric_draws(height, width),
{
    lemma_band_before_grows(height, x, x);
    lemma_band_before_grows(height, x + 1, width / 2);
}

/// The pair that a cell shows is the last to be drawn of the pairs that
/// have the cell among their mirror images; a cell that shows none is the
/// image of none.
pub proof fn lemma_band_pair_last(height: int, width: int, row: int, col: int, x: int, y: int)
    requires
        valid_extents(height, width),
        band_fits(height, width),
        0 <= row < height,
        0 <= col < width,
    ensures
        band_pair(height, width, row, col) matches Some(p) ==> in_band(height, width, p.0, p.1)
            && mirrored(height, width, p.0, p.1, row, col),
        in_band(height, width, x, y) && mirrored(height, width, x, y, row, col) ==> (band_pair(
            height,
            width,
            row,
            col,
        ) matches Some(p) && (x < p.0 || (x == p.0 && y <= p.1))),
        height <= width && in_band(height, width, x, y) && mirrored(height, width, x, y, row, col)
            ==> band_pair(height, width, row, col) == Some((x, y)),
{
}

/// A symmetric seed is its own mirror image from left to right and from top
/// to bottom, whatever the draws.
pub proof fn lemma_symmetric_seed_flips(
    height: int,
    width: int,
    draws: Seq<bool>,
    row: int,
    col: int,
)
    requires
        valid_extents(height, width),
        band_fits(height, width),
        0 <= row < height,
        0 <= col < width,
    ensures
        symmetric_seed(height, width, draws).cell(row, col) == symmetric_seed(
            height,
            width,
            draws,
        ).cell(row, width - 1 - col),
        symmetric_seed(height, width, draws).cell(row, col) == symmetric_seed(
            height,
            width,
            draws,
        ).cell(height - 1 - row, col),
{
    lemma_index(row, col, height, width);
    lemma_index(row, width - 1 - col, height, width);
    lemma_index(height - 1 - row, col, height, width);
}

/// The symmetric seed of a square grid is also its own mirror image in both
/// diagonals, whatever the draws.
pub proof fn lemma_symmetric_seed_diagonals(size: int, draws: Seq<bool>, row: int, col: int)
    requires
        valid_extents(size, size),
        0 <= row < size,
        0 <= col < size,
    ensures
        symmetric_seed(size, size, draws).cell(row, col) == symmetric_seed(size, size, draws).cell(
            col,
            row,
        ),
        symmetric_seed(size, size, draws).cell(row, col) == symmetric_seed(size, size, draws).cell(
            size - 1 - col,
            size - 1 - row,
        ),
{
    lemma_index(row, col, size, size);
    lemma_index(col, row, size, size);
    lemma_index(size - 1 - col, size - 1 - row, size, size);
}

/// In a grid at least as wide as high, a live cell of a symmetric seed lies
/// at least `BAND_START` cells from every edge. (In a higher grid the band
/// runs past the middle column, and its mirror images reach the sides.)
pub proof fn lemma_symmetric_seed_band(
    height: int,
    width: int,
    draws: Seq<bool>,
    row: int,
    col: int,
)
    requires
        valid_extents(height, width),
        height <= width,
        0 <= row < height,
        0 <= col < width,
        symmetric_seed(height, width, draws).cell(row, col),
    ensures
        BAND_START <= fold(row, height),
        BAND_START <= fold(col, width),
{
    lemma_index(row, col, height, width);
}

impl Universe {
    /// The number of draws that a seeding makes in a grid of the given
    /// extents, or `InvalidDimension` where the extents are not valid or
    /// the seeding has no place in them.
    pub fn draws_needed(seeding: Seeding, height: u32, width: u32) -> (count: Result<
        usize,
        UniverseError,
    >)
        ensures
            match count {
                Ok(n) => {
                    &&& valid_extents(height as int, width as int)
                    &&& seeding_fits(seeding, height as int, width as int)
                    &&& n == draws_needed(seeding, height as int, width as int)
                },
                Err(e) => {
                    &&& e == UniverseError::InvalidDimension
                    &&& !(valid_extents(height as int, width as int) && seeding_fits(
                        seeding,
                        height as int,
                        width as int,
                    ))
                },
            },
    {
        if height == 0 || width == 0 || height.checked_mul(width).is_none() {
            return Err(UniverseError::InvalidDimension);
        }
        match seeding {
            Seeding::Window => {
                let half = SPAWN_SIZE / 2;
                if height / 2 < half || width / 2 < half {
                    return Err(UniverseError::InvalidDimension);
                }
                let rows = window_end(height) - (height / 2 - half) + 1;
                let cols = window_end(width) - (width / 2 - half) + 1;
                assert(rows * cols <= 121) by (nonlinear_arith)
                    requires
                        0 <= rows <= 11,
                        0 <= cols <= 11,
                ;
                Ok((rows * cols) as usize)
            },
            Seeding::Symmetric => {
                let mid_x = width / 2;
                let mid_y = height / 2;
                if mid_x > BAND_START && mid_y > width {
                    return Err(UniverseError::InvalidDimension);
                }
                // Beyond the middle row a column of the band holds no pair.
                let end = if mid_x < mid_y {
                    mid_x
                } else {
                    mid_y
                };
                let mut count: u64 = 0;
                let mut x: u32 = BAND_START;
                while x < end
                    invariant
                        BAND_START <= x,
                        mid_y == height / 2,
                        end <= mid_y,
                        x <= end || x == BAND_START,
                        count == band_before(height as int, x as int),
                        count <= (x - BAND_START) * mid_y,
                    decreases end - x,
                {
                    proof {
                        assert((x + 1 - BAND_START) * mid_y == (x - BAND_START) * mid_y + mid_y)
                            by (nonlinear_arith);
                        assert((x - BAND_START) * mid_y <= 0x8000_0000 * 0x8000_0000)
                            by (nonlinear_arith)
                            requires
                                0 <= x - BAND_START <= 0x8000_0000,
                                0 <= mid_y <= 0x8000_0000,
                        ;
                    }
                    count += (mid_y - x) as u64;
                    x += 1;
                }
                proof {
                    assert((x - BAND_START) * mid_y <= height * width) by (nonlinear_arith)
                        requires
                            0 <= x - BAND_START <= width,
                            0 <= mid_y <= height,
                    ;
                    if x < mid_x {
                        lemma_band_before_flat(height as int, x as int, mid_x as int);
                    }
                }
                Ok(count as usize)
            },
        }
    }

    /// Seeds a grid of the given extents plainly: one draw for each cell of
    /// the window, row by row; every cell outside the window is dead. Draws
    /// beyond those are not read.
    pub fn random_cells(height: u32, width: u32, draws: &[bool]) -> (seeded: Result<
        FixedBitSet,
        UniverseError,
    >)
        ensures
            match seeded {
                Ok(cells) => {
                    &&& valid_extents(height as int, width as int)
                    &&& window_fits(height as int, width as int)
                    &&& window_draws(height as int, width as int) <= draws.len()
                    &&& contents(cells) == window_seed(height as int, width as int, draws@).cells
                },
                Err(UniverseError::InvalidDimension) => !(valid_extents(
                    height as int,
                    width as int,
                ) && window_fits(height as int, width as int)),
                Err(UniverseError::InvalidLength) => {
                    &&& valid_extents(height as int, width as int)
                    &&& window_fits(height as int, width as int)
                    &&& draws.len() < window_draws(height as int, width as int)
                },
            },
    {
        if height == 0 || width == 0 {
            return Err(UniverseError::InvalidDimension);
        }
        let size = match height.checked_mul(width) {
            Some(size) => size,
            None => {
                return Err(UniverseError::InvalidDimension);
            },
        };
        let half = SPAWN_SIZE / 2;
        if height / 2 < half || width / 2 < half {
            return Err(UniverseError::InvalidDimension);
        }
        let spawn_min_x = width / 2 - half;
        let spawn_max_x = window_end(width);
        let spawn_min_y = height / 2 - half;
        let spawn_max_y = window_end(height);
        let rows = spawn_max_y - spawn_min_y + 1;
        let cols = spawn_max_x - spawn_min_x + 1;
        let ghost h = height as int;
        let ghost w = width as int;
        proof {
            assert(rows * cols <= 121) by (nonlinear_arith)
                requires
                    0 <= rows <= 11,
                    0 <= cols <= 11,
            ;
        }
        if draws.len() < (rows * cols) as usize {
            return Err(UniverseError::InvalidLength);
        }
        let mut cells = FixedBitSet::with_capacity(size as usize);
        let mut used: usize = 0;
        let mut row = spawn_min_y;
        while row <= spawn_max_y
            invariant
                valid_extents(h, w),
                h == height,
                w == width,
                spawn_min_x == window_min(w),
                spawn_max_x == window_max(w),
                spawn_min_y == window_min(h),
                spawn_max_y == window_max(h),
                spawn_max_x < width,
                spawn_max_y < height,
                rows == window_span(h),
                cols == window_span(w),
                rows * cols <= draws.len(),
                spawn_min_y <= row <= spawn_max_y + 1,
                used == (row - spawn_min_y) * cols,
                contents(cells).len() == h * w,
                forall|i: int|
                    0 <= i < h * w ==> contents(cells)[i] == (in_window(h, w, i / w, i % w) && i
                        / w < row && draws@[window_draw(h, w, i / w, i % w)]),
            decreases spawn_max_y + 1 - row,
        {
            let mut col = spawn_min_x;
            while col <= spawn_max_x
                invariant
                    valid_extents(h, w),
                    h == height,
                    w == width,
                    spawn_min_x == window_min(w),
                    spawn_max_x == window_max(w),
                    spawn_min_y == window_min(h),
                    spawn_max_y == window_max(h),
                    spawn_max_x < width,
                    spawn_max_y < height,
                    rows == window_span(h),
                    cols == window_span(w),
                    rows * cols <= draws.len(),
                    spawn_min_y <= row <= spawn_max_y,
                    spawn_min_x <= col <= spawn_max_x + 1,
                    used == window_draw(h, w, row as int, col as int),
                    contents(cells).len() == h * w,
                    forall|i: int|
                        0 <= i < h * w ==> contents(cells)[i] == (in_window(h, w, i / w, i % w)
                            && (i / w < row || (i / w == row && i % w < col))
                            && draws@[window_draw(h, w, i / w, i % w)]),
                decreases spawn_max_x + 1 - col,
            {
                proof {
                    lemma_index(row as int, col as int, h, w);
                    assert((row - spawn_min_y) * cols + (col - spawn_min_x) < rows * cols)
                        by (nonlinear_arith)
                        requires
                            0 <= row - spawn_min_y < rows,
                            0 <= col - spawn_min_x < cols,
                    ;
                }
                let i = (row * width + col) as usize;
                cells.set(i, draws[used]);
                used += 1;
                proof {
                    assert forall|k: int| 0 <= k < h * w implies contents(cells)[k] == (in_window(
                        h,
                        w,
                        k / w,
                        k % w,
                    ) && (k / w < row || (k / w == row && k % w < col + 1))
                        && draws@[window_draw(h, w, k / w, k % w)]) by {
                        lemma_position(k, h, w);
                    }
                }
                col += 1;
            }
            proof {
                assert((row + 1 - spawn_min_y) * cols == (row - spawn_min_y) * cols + cols)
                    by (nonlinear_arith);
            }
            row += 1;
        }
        Ok(cells)
    }

    /// Seeds a grid of the given extents symmetrically: one draw for each
    /// pair (`x`, `y`) of the band, written to the eight mirror images of
    /// the pair. The pairs take their draws in the order of `x`, then of
    /// `y`; draws beyond those are not read.
    #[verifier::rlimit(40)]
    pub fn random_symmetric(height: u32, width: u32, draws: &[bool]) -> (seeded: Result<
        FixedBitSet,
        UniverseError,
    >)
        ensures
            match seeded {
                Ok(cells) => {
                    &&& valid_extents(height as int, width as int)
                    &&& band_fits(height as int, width as int)
                    &&& symmetric_draws(height as int, width as int) <= draws.len()
                    &&& contents(cells) == symmetric_seed(
                        height as int,
                        width as int,
                        draws@,
                    ).cells
                },
                Err(UniverseError::InvalidDimension) => !(valid_extents(
                    height as int,
                    width as int,
                ) && band_fits(height as int, width as int)),
                Err(UniverseError::InvalidLength) => {
                    &&& valid_extents(height as int, width as int)
                    &&& band_fits(height as int, width as int)
                    &&& draws.len() < symmetric_draws(height as int, width as int)
                },
            },
    {
        if height == 0 || width == 0 {
            return Err(UniverseError::InvalidDimension);
        }
        let size = match height.checked_mul(width) {
            Some(size) => size,
            None => {
                return Err(UniverseError::InvalidDimension);
            },
        };
        let start = BAND_START;
        let mid_x = width / 2;
        let mid_y = height / 2;
        if mid_x > start && mid_y > width {
            return Err(UniverseError::InvalidDimension);
        }
        let ghost h = height as int;
        let ghost w = width as int;
        let mut cells = FixedBitSet::with_capacity(size as usize);
        let mut used: usize = 0;
        let mut x = start;
        proof {
            assert forall|i: int| 0 <= i < h * w implies contents(cells)[i] == shown(
                h,
                draws@,
                band_pair_before(h, w, i / w, i % w, x as int, x as int),
            ) by {
                lemma_band_ends(h, w, x as int, i / w, i % w);
            }
        }
        while x < mid_x
            invariant
                valid_extents(h, w),
                band_fits(h, w),
                h == height,
                w == width,
                mid_x == width / 2,
                mid_y == height / 2,
                start == BAND_START,
                start <= x,
                x <= mid_x || x == start,
                used == band_before(h, x as int),
                used <= draws.len(),
                contents(cells).len() == h * w,
                forall|i: int|
                    0 <= i < h * w ==> contents(cells)[i] == shown(
                        h,
                        draws@,
                        band_pair_before(h, w, i / w, i % w, x as int, x as int),
                    ),
            decreases mid_x - x,
        {
            let mut y = x;
            while y < mid_y
                invariant
                    valid_extents(h, w),
                    band_fits(h, w),
                    h == height,
                    w == width,
                    mid_x == width / 2,
                    mid_y == height / 2,
                    start == BAND_START,
                    start <= x < mid_x,
                    x <= y,
                    y <= mid_y || y == x,
                    used == band_draw(h, x as int, y as int),
                    used <= draws.len(),
                    contents(cells).len() == h * w,
                    forall|i: int|
                        0 <= i < h * w ==> contents(cells)[i] == shown(
                            h,
                            draws@,
                            band_pair_before(h, w, i / w, i % w, x as int, y as int),
                        ),
                decreases mid_y - y,
            {
                proof {
                    lemma_band_draw_in_range(h, w, x as int, y as int);
                }
                if used >= draws.len() {
                    return Err(UniverseError::InvalidLength);
                }
                let cell = draws[used];
                used += 1;
                paint_mirrors(&mut cells, height, width, x, y, cell);
                proof {
                    assert forall|i: int| 0 <= i < h * w implies contents(cells)[i] == shown(
                        h,
                        draws@,
                        band_pair_before(h, w, i / w, i % w, x as int, y + 1),
                    ) by {
                        lemma_position(i, h, w);
                        lemma_pair_drawn(h, w, x as int, y as int, i / w, i % w);
                    }
                }
                y += 1;
            }
            proof {
                assert forall|i: int| 0 <= i < h * w implies contents(cells)[i] == shown(
                    h,
                    draws@,
                    band_pair_before(h, w, i / w, i % w, x + 1, x + 1),
                ) by {
                    lemma_row_drawn(h, w, x as int, y as int, i / w, i % w);
                }
            }
            x += 1;
        }
        proof {
            assert forall|i: int| 0 <= i < h * w implies contents(cells)[i] == symmetric_seed(
                h,
                w,
                draws@,
            ).cells[i] by {
                lemma_band_ends(h, w, x as int, i / w, i % w);
            }
        }
        Ok(cells)
    }
}

/// Writes `cell` to the eight mirror images of the pair (`x`, `y`).
#[verifier::rlimit(40)]
fn paint_mirrors(cells: &mut FixedBitSet, height: u32, width: u32, x: u32, y: u32, cell: bool)
    requires
        valid_extents(height as int, width as int),
        in_band(height as int, width as int, x as int, y as int),
        y < width,
        contents(*old(cells)).len() == height * width,
    ensures
        contents(*final(cells)).len() == height * width,
        forall|i: int|
            0 <= i < height * width ==> #[trigger] contents(*final(cells))[i] == if mirrored(
                height as int,
                width as int,
                x as int,
                y as int,
                i / (width as int),
                i % (width as int),
            ) {
                cell
            } else {
                contents(*old(cells))[i]
            },
{
    let ghost h = height as int;
    let ghost w = width as int;
    let top = height - 1 - y;
    let low = height - 1 - x;
    let right = width - 1 - x;
    let far = width - 1 - y;
    proof {
        lemma_index(y as int, x as int, h, w);
        lemma_index(x as int, y as int, h, w);
        lemma_index(top as int, x as int, h, w);
        lemma_index(low as int, y as int, h, w);
        lemma_index(y as int, right as int, h, w);
        lemma_index(x as int, far as int, h, w);
        lemma_index(top as int, right as int, h, w);
        lemma_index(low as int, far as int, h, w);
    }

    let i1 = (y * width + x) as usize;
    cells.set(i1, cell);

    let i2 = (x * width + y) as usize;
    cells.set(i2, cell);

    let i3 = (top * width + x) as usize;
    cells.set(i3, cell);

    let i4 = (low * width + y) as usize;
    cells.set(i4, cell);

    let i5 = (y * width + right) as usize;
    cells.set(i5, cell);

    let i6 = (x * width + far) as usize;
    cells.set(i6, cell);

    let i7 = (top * width + right) as usize;
    cells.set(i7, cell);

    let i8 = (low * width + far) as usize;
    cells.set(i8, cell);

    proof {
        assert forall|i: int| 0 <= i < h * w implies #[trigger] contents(*cells)[i] == if mirrored(
            h,
            w,
            x as int,
            y as int,
            i / w,
            i % w,
        ) {
            cell
        } else {
            contents(*old(cells))[i]
        } by {
            lemma_position(i, h, w);
        }
    }
}

/// The last row of the window that lies inside a grid of `extent` rows.
fn window_end(extent: u32) -> (last: u32)
    requires
        SPAWN_SIZE / 2 <= extent / 2,
    ensures
        last == window_max(extent as int),
        window_min(extent as int) <= last < extent,
        last - window_min(extent as int) <= SPAWN_SIZE,
{
    let first = extent / 2 - SPAWN_SIZE / 2;
    if first + SPAWN_SIZE < extent {
        first + SPAWN_SIZE
    } else {
        extent - 1
    }
}

} // verus!
