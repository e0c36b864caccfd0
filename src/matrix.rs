//! Flattening a table into one contiguous row-major buffer.
//!
//! The buffer is always a fresh copy, so its layout never depends on how the
//! table's columns are stored.

use vstd::prelude::*;
use crate::frame::Frame;

verus! {

/// `n_rows` rows of `n_cols` values; the value at row `i`, column `j` is
/// `data[i * n_cols + j]`.
pub struct DenseMatrix<T> {
    pub data: Vec<T>,
    pub n_rows: usize,
    pub n_cols: usize,
}

/// Why a table could not be flattened.
#[derive(Debug, Clone, Copy, PartialEq, Eq)]
pub enum MatrixError {
    /// The cell at this row and column is missing.
    MissingValue { row: usize, column: usize },
}

impl<T: Copy> DenseMatrix<T> {
    /// The buffer holds exactly `n_rows * n_cols` values.
    pub open spec fn wf(&self) -> bool {
        self.data@.len() == self.n_rows * self.n_cols
    }

    /// The value at row `i`, column `j`.
    pub open spec fn at(&self, i: int, j: int) -> T {
        self.data@[i * self.n_cols + j]
    }

    /// `self` holds the cells of `frame`, row by row.
    pub open spec fn flattens(&self, frame: &Frame<T>) -> bool {
        &&& self.wf()
        &&& self.n_rows == frame.height
        &&& self.n_cols == frame.columns@.len()
        &&& forall|i: int, j: int|
            0 <= i < frame.height && 0 <= j < frame.columns@.len() ==> frame.cell(i, j) == Some(
                #[trigger] self.at(i, j),
            )
    }
}

/// Every cell of `frame` is present.
pub open spec fn no_missing<T: Copy>(frame: &Frame<T>) -> bool {
    forall|i: int, j: int|
        0 <= i < frame.height && 0 <= j < frame.columns@.len() ==> (#[trigger] frame.cell(i, j)) is Some
}

/// Cell `(i, j)` comes before cell `(row, column)` in row-major order.
pub open spec fn before(i: int, j: int, row: int, column: int) -> bool {
    i < row || (i == row && j < column)
}

/// `(row, column)` is the first missing cell of `frame` in row-major order.
pub open spec fn first_missing_cell<T: Copy>(frame: &Frame<T>, row: usize, column: usize) -> bool {
    &&& row < frame.height
    &&& column < frame.columns@.len()
    &&& frame.cell(row as int, column as int) is None
    &&& forall|i: int, j: int|
        0 <= i < frame.height && 0 <= j < frame.columns@.len() && before(i, j, row as int, column as int)
            ==> (#[trigger] frame.cell(i, j)) is Some
}

proof fn lemma_row_major(r: int, c: int, i: int, w: int)
    requires
        0 <= r < i,
        0 <= c < w,
    ensures
        0 <= r * w + c < i * w,
        r * w + c + 1 <= i * w,
{
    assert(r * w + c < i * w) by (nonlinear_arith)
        requires
            0 <= r < i,
            0 <= c < w,
    ;
    assert(0 <= r * w) by (nonlinear_arith)
        requires
            0 <= r,
            0 <= c < w,
    ;
}

/// Copies the cells of `frame` into a row-major buffer. Fails at the first
/// missing cell in row-major order.
pub fn to_dense_matrix<T: Copy>(frame: &Frame<T>) -> (r: Result<DenseMatrix<T>, MatrixError>)
    requires
        frame.wf(),
        frame.height * frame.columns@.len() <= usize::MAX,
    ensures
        r is Ok <==> no_missing(frame),
        r matches Ok(m) ==> m.flattens(frame),
        r matches Err(MatrixError::MissingValue { row, column }) ==> first_missing_cell(frame, row, column),
{
    let h: usize = frame.height();
    let w: usize = frame.width();
    let mut data: Vec<T> = Vec::new();
    let mut i: usize = 0;
    while i < h
        invariant
            frame.wf(),
            h == frame.height,
            w == frame.columns@.len(),
            h * w <= usize::MAX,
            i <= h,
            data@.len() == i * w,
            forall|r: int, c: int|
                0 <= r < i && 0 <= c < w ==> frame.cell(r, c) == Some(#[trigger] data@[r * w + c]),
            forall|r: int, c: int|
                0 <= r < i && 0 <= c < w ==> (#[trigger] frame.cell(r, c)) is Some,
        decreases h - i,
    {
        let mut j: usize = 0;
        while j < w
            invariant
                frame.wf(),
                h == frame.height,
                w == frame.columns@.len(),
                h * w <= usize::MAX,
                i < h,
                j <= w,
                data@.len() == i * w + j,
                forall|r: int, c: int|
                    0 <= r < i && 0 <= c < w ==> frame.cell(r, c) == Some(#[trigger] data@[r * w + c]),
                forall|c: int| 0 <= c < j ==> frame.cell(i as int, c) == Some(#[trigger] data@[i * w + c]),
                forall|r: int, c: int|
                    0 <= r < h && 0 <= c < w && before(r, c, i as int, j as int) ==> (#[trigger] frame.cell(
                        r,
                        c,
                    )) is Some,
            decreases w - j,
        {
            assert(frame.columns@[j as int]@.len() == h);
            match frame.columns[j][i] {
                Some(v) => {
                    proof {
                        assert((i + 1) * w <= h * w) by (nonlinear_arith)
                            requires
                                i < h,
                                0 <= w,
                        ;
                        assert((i + 1) * w == i * w + w) by (nonlinear_arith);
                    }
                    let ghost old_data = data@;
                    data.push(v);
                    proof {
                        assert forall|r: int, c: int| 0 <= r < i && 0 <= c < w implies frame.cell(r, c)
                            == Some(#[trigger] data@[r * w + c]) by {
                            lemma_row_major(r, c, i as int, w as int);
                            assert(data@[r * w + c] == old_data[r * w + c]);
                        }
                        assert forall|c: int| 0 <= c < j + 1 implies frame.cell(i as int, c) == Some(
                            #[trigger] data@[i * w + c],
                        ) by {
                            if c < j {
                                assert(data@[i * w + c] == old_data[i * w + c]);
                            }
                        }
                    }
                },
                None => {
                    return Err(MatrixError::MissingValue { row: i, column: j });
                },
            }
            j = j + 1;
        }
        proof {
            assert((i + 1) * w == i * w + w) by (nonlinear_arith);
            assert forall|r: int, c: int| 0 <= r < i + 1 && 0 <= c < w implies frame.cell(r, c)
                == Some(#[trigger] data@[r * w + c]) by {
                if r < i {
                } else {
                    assert(frame.cell(i as int, c) == Some(data@[i * w + c]));
                }
            }
        }
        i = i + 1;
    }
    let m = DenseMatrix { data, n_rows: h, n_cols: w };
    proof {
        assert forall|r: int, c: int| 0 <= r < h && 0 <= c < w implies frame.cell(r, c) == Some(
            #[trigger] m.at(r, c),
        ) by {
            assert(frame.cell(r, c) == Some(data@[r * w + c]));
        }
    }
    Ok(m)
}

} // verus!
