//! [`MatrixView`] type
use crate::matrix::range_valid;
use crate::matrix::Matrix;
use crate::matrix::MatrixError;
use crate::scalar::Scalar;
use vstd::prelude::*;

verus! {

/// Used to virtually represent a submatrix of a given parent matrix
///
/// It holds only a borrow of the parent and the selected 1-based inclusive
/// ranges; nothing is copied until [`MatrixView::to_matrix`], whose contract
/// pins its result to the same value that [`Matrix::submatrix`] returns for
/// the same ranges.
pub struct MatrixView<'a, T: Scalar> {
    parent: &'a Matrix<T>,
    row_range: (usize, usize),
    col_range: (usize, usize),
}

impl<'a, T: Scalar> MatrixView<'a, T> {
    /// The parent matrix, as specifications see it.
    pub closed spec fn sparent(&self) -> Matrix<T> {
        *self.parent
    }

    /// The selected 1-based inclusive row range, as specifications see it.
    pub closed spec fn srow_range(&self) -> (usize, usize) {
        self.row_range
    }

    /// The selected 1-based inclusive column range, as specifications see it.
    pub closed spec fn scol_range(&self) -> (usize, usize) {
        self.col_range
    }

    /// Well-formed: the parent is well-formed and the ranges select a
    /// non-empty block inside it. [`MatrixView::new`] establishes this.
    pub open spec fn wf(&self) -> bool {
        &&& self.sparent().wf()
        &&& range_valid(
            self.srow_range().0 as int,
            self.srow_range().1 as int,
            self.sparent().srows() as int,
        )
        &&& range_valid(
            self.scol_range().0 as int,
            self.scol_range().1 as int,
            self.sparent().scols() as int,
        )
    }

    /// Creates a new [`MatrixView`]
    ///
    /// # Arguments
    /// * `parent` - reference to parent [`Matrix`]
    /// * `row_range` - 1-based inclusive range of rows, as `(start, end)`
    /// * `col_range` - 1-based inclusive range of columns, as `(start, end)`
    ///
    /// # Errors
    /// [`MatrixError::InvalidRange`] when a range is empty or reaches outside
    /// the parent
    pub fn new(
        parent: &'a Matrix<T>,
        row_range: (usize, usize),
        col_range: (usize, usize),
    ) -> (r: Result<MatrixView<'a, T>, MatrixError>)
        requires
            parent.wf(),
        ensures
            r is Ok <==> range_valid(
                row_range.0 as int,
                row_range.1 as int,
                parent.srows() as int,
            ) && range_valid(col_range.0 as int, col_range.1 as int, parent.scols() as int),
            r is Ok ==> r.unwrap().sparent() == *parent && r.unwrap().srow_range() == row_range
                && r.unwrap().scol_range() == col_range && r.unwrap().wf(),
            !range_valid(row_range.0 as int, row_range.1 as int, parent.srows() as int) ==> (
            r->Err_0) == (MatrixError::InvalidRange {
                start: row_range.0,
                end: row_range.1,
                limit: parent.srows() as usize,
            }),
            range_valid(row_range.0 as int, row_range.1 as int, parent.srows() as int)
                && !range_valid(col_range.0 as int, col_range.1 as int, parent.scols() as int)
                ==> (r->Err_0) == (MatrixError::InvalidRange {
                start: col_range.0,
                end: col_range.1,
                limit: parent.scols() as usize,
            }),
    {
        let rows = parent.rows();
        let cols = parent.cols();
        if !(1 <= row_range.0 && row_range.0 <= row_range.1 && row_range.1 <= rows) {
            return Err(MatrixError::InvalidRange {
                start: row_range.0,
                end: row_range.1,
                limit: rows,
            });
        }
        if !(1 <= col_range.0 && col_range.0 <= col_range.1 && col_range.1 <= cols) {
            return Err(MatrixError::InvalidRange {
                start: col_range.0,
                end: col_range.1,
                limit: cols,
            });
        }
        Ok(MatrixView { parent, row_range, col_range })
    }

    /// Reads the selected block out of the parent matrix into an owned
    /// [`Matrix`]: the same value, entry for entry, that
    /// [`Matrix::submatrix`] returns for the ranges this view holds. May be
    /// called any number of times; the parent is never changed.
    pub fn to_matrix(&self) -> (m: Matrix<T>)
        requires
            self.wf(),
        ensures
            m.srows() == self.srow_range().1 - self.srow_range().0 + 1,
            m.scols() == self.scol_range().1 - self.scol_range().0 + 1,
            m.sdata() == self.sparent().sub_seq(
                self.srow_range().0 as int,
                self.srow_range().1 as int,
                self.scol_range().0 as int,
                self.scol_range().1 as int,
            ),
            m.wf(),
    {
        match self.parent.submatrix(self.row_range, self.col_range) {
            Ok(m) => m,
            Err(_) => {
                proof {
                    assert(false);
                }
                vstd::pervasive::unreached()
            },
        }
    }
}

impl<T: Scalar> Matrix<T> {
    /// Returns a [`MatrixView`] (virtual, zero-copy) of this matrix based on
    /// 1-based inclusive ranges
    ///
    /// # Arguments
    /// * `row_range` - 1-based inclusive range of rows, as `(start, end)`
    /// * `col_range` - 1-based inclusive range of columns, as `(start, end)`
    ///
    /// # Errors
    /// [`MatrixError::InvalidRange`] when a range is empty or reaches outside
    /// the matrix
    pub fn view<'a>(
        &'a self,
        row_range: (usize, usize),
        col_range: (usize, usize),
    ) -> (r: Result<MatrixView<'a, T>, MatrixError>)
        requires
            self.wf(),
        ensures
            r is Ok <==> range_valid(row_range.0 as int, row_range.1 as int, self.srows() as int)
                && range_valid(col_range.0 as int, col_range.1 as int, self.scols() as int),
            r is Ok ==> r.unwrap().sparent() == *self && r.unwrap().srow_range() == row_range
                && r.unwrap().scol_range() == col_range && r.unwrap().wf(),
            !range_valid(row_range.0 as int, row_range.1 as int, self.srows() as int) ==> (
            r->Err_0) == (MatrixError::InvalidRange {
                start: row_range.0,
                end: row_range.1,
                limit: self.srows() as usize,
            }),
            range_valid(row_range.0 as int, row_range.1 as int, self.srows() as int)
                && !range_valid(col_range.0 as int, col_range.1 as int, self.scols() as int) ==> (
            r->Err_0) == (MatrixError::InvalidRange {
                start: col_range.0,
                end: col_range.1,
                limit: self.scols() as usize,
            }),
    {
        MatrixView::new(self, row_range, col_range)
    }
}

} // verus!
