//! The shapes that a universe can stamp, as lists of points.

use vstd::prelude::*;

verus! {

/// The five cells of a glider whose lowest, rightmost cell is (`row`,
/// `col`).
pub open spec fn glider(row: int, col: int) -> Seq<(int, int)> {
    seq![(row - 2, col - 1), (row - 1, col), (row, col - 2), (row, col - 1), (row, col)]
}

/// The twelve cells of the quarter of a pulsar that lies from its centre
/// (`row`, `col`) in the direction (`q_row`, `q_col`), each of them 1 or -1.
pub open spec fn pulsar_quarter(row: int, col: int, q_row: int, q_col: int) -> Seq<(int, int)> {
    seq![
        (row + q_row * 1, col + q_col * 2),
        (row + q_row * 1, col + q_col * 3),
        (row + q_row * 1, col + q_col * 4),
        (row + q_row * 2, col + q_col * 1),
        (row + q_row * 3, col + q_col * 1),
        (row + q_row * 4, col + q_col * 1),
        (row + q_row * 6, col + q_col * 2),
        (row + q_row * 6, col + q_col * 3),
        (row + q_row * 6, col + q_col * 4),
        (row + q_row * 2, col + q_col * 6),
        (row + q_row * 3, col + q_col * 6),
        (row + q_row * 4, col + q_col * 6),
    ]
}

/// The forty-eight cells of a pulsar with its centre at (`row`, `col`).
pub open spec fn pulsar(row: int, col: int) -> Seq<(int, int)> {
    pulsar_quarter(row, col, 1, 1) + pulsar_quarter(row, col, 1, -1) + pulsar_quarter(
        row,
        col,
        -1,
        1,
    ) + pulsar_quarter(row, col, -1, -1)
}

/// A list of signed coordinate pairs as points of the plane.
pub open spec fn points_of(pairs: Seq<(i32, i32)>) -> Seq<(int, int)> {
    Seq::new(pairs.len(), |k: int| (pairs[k].0 as int, pairs[k].1 as int))
}

/// A list of wide signed coordinate pairs as points of the plane.
pub open spec fn wide_points_of(pairs: Seq<(i64, i64)>) -> Seq<(int, int)> {
    Seq::new(pairs.len(), |k: int| (pairs[k].0 as int, pairs[k].1 as int))
}

} // verus!
