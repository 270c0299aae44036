//! [`Matrix`] type
use crate::scalar::Scalar;
use crate::text::dec_rep;
use vstd::prelude::*;

verus! {

/// Errors reported by matrix operations
#[derive(Debug, Clone, Copy, PartialEq, Eq, Structural)]
pub enum MatrixError {
    /// The data handed to `new` or `insert` does not fill the matrix
    DimensionMismatch { expected: usize, actual: usize },
    /// A 1-based index fell outside the matrix
    OutOfBounds { row: usize, col: usize, rows: usize, cols: usize },
    /// A 1-based inclusive range was empty or fell outside the matrix
    InvalidRange { start: usize, end: usize, limit: usize },
    /// An inverse was asked of a non-square matrix
    NotSquare { rows: usize, cols: usize },
    /// An inverse was asked of a matrix without full rank
    Singular,
}

impl MatrixError {
    /// The display text of this error
    pub fn message(&self) -> (r: String)
        ensures
            self is DimensionMismatch ==> r@ == "dimension mismatch: expected "@ + dec_rep(
                self->DimensionMismatch_expected as int,
            ) + " values, got "@ + dec_rep(self->DimensionMismatch_actual as int),
            self is OutOfBounds ==> r@ == "index out of bounds: requested ("@ + dec_rep(
                self->OutOfBounds_row as int,
            ) + ", "@ + dec_rep(self->OutOfBounds_col as int) + "), matrix is "@ + dec_rep(
                self->OutOfBounds_rows as int,
            ) + seq!['x'] + dec_rep(self->OutOfBounds_cols as int),
            self is InvalidRange ==> r@ == "invalid range: "@ + dec_rep(
                self->InvalidRange_start as int,
            ) + "..="@ + dec_rep(self->InvalidRange_end as int) + " does not fit 1..="@ + dec_rep(
                self->InvalidRange_limit as int,
            ),
            self is NotSquare ==> r@ == "matrix is not square: "@ + dec_rep(
                self->NotSquare_rows as int,
            ) + seq!['x'] + dec_rep(self->NotSquare_cols as int),
            self is Singular ==> r@ == "matrix is singular"@,
    {
        let mut s = String::new();
        match self {
            MatrixError::DimensionMismatch { expected, actual } => {
                s.push_str("dimension mismatch: expected ");
                s.push_str(crate::text::fmt_usize(*expected).as_str());
                s.push_str(" values, got ");
                s.push_str(crate::text::fmt_usize(*actual).as_str());
                proof {
                    assert(s@ =~= "dimension mismatch: expected "@ + dec_rep(*expected as int)
                        + " values, got "@ + dec_rep(*actual as int));
                }
            },
            MatrixError::OutOfBounds { row, col, rows, cols } => {
                s.push_str("index out of bounds: requested (");
                s.push_str(crate::text::fmt_usize(*row).as_str());
                s.push_str(", ");
                s.push_str(crate::text::fmt_usize(*col).as_str());
                s.push_str("), matrix is ");
                s.push_str(crate::text::fmt_usize(*rows).as_str());
                s.push('x');
                s.push_str(crate::text::fmt_usize(*cols).as_str());
                proof {
                    assert(s@ =~= "index out of bounds: requested ("@ + dec_rep(*row as int)
                        + ", "@ + dec_rep(*col as int) + "), matrix is "@ + dec_rep(*rows as int)
                        + seq!['x'] + dec_rep(*cols as int));
                }
            },
            MatrixError::InvalidRange { start, end, limit } => {
                s.push_str("invalid range: ");
                s.push_str(crate::text::fmt_usize(*start).as_str());
                s.push_str("..=");
                s.push_str(crate::text::fmt_usize(*end).as_str());
                s.push_str(" does not fit 1..=");
                s.push_str(crate::text::fmt_usize(*limit).as_str());
                proof {
                    assert(s@ =~= "invalid range: "@ + dec_rep(*start as int) + "..="@ + dec_rep(
                        *end as int,
                    ) + " does not fit 1..="@ + dec_rep(*limit as int));
                }
            },
            MatrixError::NotSquare { rows, cols } => {
                s.push_str("matrix is not square: ");
                s.push_str(crate::text::fmt_usize(*rows).as_str());
                s.push('x');
                s.push_str(crate::text::fmt_usize(*cols).as_str());
                proof {
                    assert(s@ =~= "matrix is not square: "@ + dec_rep(*rows as int) + seq!['x']
                        + dec_rep(*cols as int));
                }
            },
            MatrixError::Singular => {
                s.push_str("matrix is singular");
                proof {
                    assert(s@ =~= "matrix is singular"@);
                }
            },
        }
        s
    }
}

/// A 1-based inclusive index range `(start, end)` lies inside `1..=limit` and
/// selects at least one index.
pub open spec fn range_valid(start: int, end: int, limit: int) -> bool {
    1 <= start && start <= end && end <= limit
}

/// Used for storing matrices and doing matrix operations
///
/// The entries are stored row-major in a flat buffer: the entry at 1-based row
/// `r`, column `c` sits at offset `(r-1)*cols + (c-1)`. Construct with
/// [`Matrix::new`], or with [`Matrix::empty`] followed by [`Matrix::insert`];
/// row reduce with [`Matrix::echelon`] and [`Matrix::reduced_echelon`].
#[derive(Debug, Clone)]
pub struct Matrix<T: Scalar> {
    pub(crate) data: Vec<T>,
    pub(crate) rows: usize,
    pub(crate) cols: usize,
}

impl<T: Scalar> Matrix<T> {
    /// The flat row-major contents, as specifications see them.
    pub open(crate) spec fn sdata(&self) -> Seq<T> {
        self.data@
    }

    /// The row count, as specifications see it.
    pub open(crate) spec fn srows(&self) -> nat {
        self.rows as nat
    }

    /// The column count, as specifications see it.
    pub open(crate) spec fn scols(&self) -> nat {
        self.cols as nat
    }

    /// The declared size fits the address space.
    pub open spec fn dims_ok(&self) -> bool {
        self.srows() * self.scols() <= usize::MAX
    }

    /// Well-formed: the backing buffer exactly fills the declared dimensions.
    /// Every operation but the transient [`Matrix::empty`] state keeps this.
    pub open spec fn wf(&self) -> bool {
        self.sdata().len() == self.srows() * self.scols()
    }

    /// The entry at 0-based row `r`, column `c`.
    pub open spec fn at(&self, r: int, c: int) -> T {
        self.sdata()[r * self.scols() + c]
    }

    /// The 0-based row `r` as a sequence.
    pub open spec fn row_seq(&self, r: int) -> Seq<T> {
        self.sdata().subrange(r * self.scols(), (r + 1) * self.scols())
    }

    /// The flat contents of the sub-region selected by the 1-based inclusive
    /// row range `r1..=r2` and column range `c1..=c2`.
    pub open spec fn sub_seq(&self, r1: int, r2: int, c1: int, c2: int) -> Seq<T> {
        Seq::new(
            (((r2 - r1 + 1) * (c2 - c1 + 1)) as nat),
            |k: int| self.at(r1 - 1 + k / (c2 - c1 + 1), c1 - 1 + k % (c2 - c1 + 1)),
        )
    }

    /// Creates an empty matrix with the given size,
    /// and pre-allocates a container for storing future values
    ///
    /// # Arguments
    /// * `rows` - row count of matrix
    /// * `cols` - column count of matrix
    pub fn empty(rows: usize, cols: usize) -> (r: Matrix<T>)
        requires
            rows * cols <= usize::MAX,
        ensures
            r.srows() == rows,
            r.scols() == cols,
            r.sdata().len() == 0,
            r.dims_ok(),
    {
        let data: Vec<T> = Vec::with_capacity(rows * cols);
        Matrix { data, rows, cols }
    }

    /// Creates a matrix filled with data in the flat slice `array`
    ///
    /// # Arguments
    /// * `rows` - row count of matrix
    /// * `cols` - column count of matrix
    /// * `array` - flat row-major slice with the entries
    ///
    /// # Errors
    /// [`MatrixError::DimensionMismatch`] when the length of the given slice
    /// does not equal `rows * cols`
    pub fn new(rows: usize, cols: usize, array: &[T]) -> (r: Result<Matrix<T>, MatrixError>)
        requires
            rows * cols <= usize::MAX,
        ensures
            r is Ok <==> array@.len() == rows * cols,
            r is Ok ==> r.unwrap().srows() == rows && r.unwrap().scols() == cols
                && r.unwrap().sdata() == array@ && r.unwrap().wf() && r.unwrap().dims_ok(),
            r is Err ==> (r->Err_0) == (MatrixError::DimensionMismatch {
                expected: (rows * cols) as usize,
                actual: array@.len() as usize,
            }),
    {
        let expected: usize = rows * cols;
        if array.len() != expected {
            return Err(MatrixError::DimensionMismatch { expected, actual: array.len() });
        }
        let mut matrix = Self::empty(rows, cols);
        match matrix.insert(array) {
            Ok(()) => Ok(matrix),
            Err(e) => Err(e),
        }
    }

    /// Replaces the backing buffer with the entries of `array`
    ///
    /// # Errors
    /// [`MatrixError::DimensionMismatch`] when the length of the given slice
    /// does not equal `rows * cols`; the matrix is then left unchanged
    pub fn insert(&mut self, array: &[T]) -> (r: Result<(), MatrixError>)
        requires
            old(self).dims_ok(),
        ensures
            final(self).srows() == old(self).srows(),
            final(self).scols() == old(self).scols(),
            r is Ok <==> array@.len() == old(self).srows() * old(self).scols(),
            r is Ok ==> final(self).sdata() == array@ && final(self).wf(),
            r is Err ==> final(self).sdata() == old(self).sdata() && (r->Err_0)
                == (MatrixError::DimensionMismatch {
                expected: (old(self).srows() * old(self).scols()) as usize,
                actual: array@.len() as usize,
            }),
    {
        let expected: usize = self.rows * self.cols;
        if array.len() != expected {
            return Err(MatrixError::DimensionMismatch { expected, actual: array.len() });
        }
        let mut data: Vec<T> = Vec::with_capacity(expected);
        let mut i: usize = 0;
        while i < array.len()
            invariant
                i <= array@.len(),
                data@.len() == i,
                forall|j: int| 0 <= j < i ==> data@[j] == array@[j],
            decreases array@.len() - i,
        {
            data.push(array[i]);
            i += 1;
        }
        proof {
            assert(data@ =~= array@);
        }
        self.data = data;
        Ok(())
    }

    /// Returns the count of rows of matrix
    pub fn rows(&self) -> (r: usize)
        ensures
            r as nat == self.srows(),
    {
        self.rows
    }

    /// Returns the count of columns of matrix
    pub fn cols(&self) -> (r: usize)
        ensures
            r as nat == self.scols(),
    {
        self.cols
    }

    /// Returns the length of the matrix (flattened): the count of populated
    /// entries
    pub fn len(&self) -> (r: usize)
        ensures
            r as nat == self.sdata().len(),
    {
        self.data.len()
    }

    /// Returns the reserved size of the matrix: `rows * cols`, which exceeds
    /// [`Matrix::len`] only on the empty construction state
    pub fn capacity(&self) -> (r: usize)
        requires
            self.dims_ok(),
        ensures
            r as nat == self.srows() * self.scols(),
    {
        self.rows * self.cols
    }

    /// Checks if matrix is empty (not populated yet)
    pub fn is_empty(&self) -> (r: bool)
        ensures
            r == (self.sdata().len() == 0),
    {
        self.data.len() == 0
    }

    /// Returns the value at given 1-based `row` and `col`
    ///
    /// # Errors
    /// [`MatrixError::OutOfBounds`] when either index is `0` or exceeds the
    /// matrix size
    pub fn get(&self, row: usize, col: usize) -> (r: Result<T, MatrixError>)
        requires
            self.wf(),
        ensures
            r is Ok <==> 1 <= row <= self.srows() && 1 <= col <= self.scols(),
            r is Ok ==> r.unwrap() == self.at(row - 1, col - 1),
            r is Err ==> (r->Err_0) == (MatrixError::OutOfBounds {
                row,
                col,
                rows: self.srows() as usize,
                cols: self.scols() as usize,
            }),
    {
        if 1 <= row && row <= self.rows && 1 <= col && col <= self.cols {
            // reading the length tells the verifier that rows * cols fits in usize
            let _n: usize = self.data.len();
            proof {
                assert((row - 1) * self.scols() <= (row - 1) * self.scols() + (col - 1) < self.srows()
                    * self.scols()) by (nonlinear_arith)
                    requires
                        1 <= row <= self.srows(),
                        1 <= col <= self.scols(),
                ;
            }
            Ok(self.data[(row - 1) * self.cols + (col - 1)])
        } else {
            Err(MatrixError::OutOfBounds { row, col, rows: self.rows, cols: self.cols })
        }
    }

    /// Creates a submatrix from the original matrix by selecting specific rows
    /// and columns.
    ///
    /// The ranges are **1-based and inclusive**, given as `(start, end)`
    /// pairs, to match how matrix sizes are spoken of.
    ///
    /// # Arguments
    /// * `row_range` - inclusive range of rows to include (starting at 1)
    /// * `col_range` - inclusive range of columns to include (starting at 1)
    ///
    /// # Errors
    /// [`MatrixError::InvalidRange`] when a range is empty or reaches outside
    /// the matrix
    pub fn submatrix(&self, row_range: (usize, usize), col_range: (usize, usize)) -> (r: Result<
        Matrix<T>,
        MatrixError,
    >)
        requires
            self.wf(),
        ensures
            r is Ok <==> range_valid(row_range.0 as int, row_range.1 as int, self.srows() as int)
                && range_valid(col_range.0 as int, col_range.1 as int, self.scols() as int),
            r is Ok ==> r.unwrap().srows() == row_range.1 - row_range.0 + 1,
            r is Ok ==> r.unwrap().scols() == col_range.1 - col_range.0 + 1,
            r is Ok ==> r.unwrap().sdata() == self.sub_seq(
                row_range.0 as int,
                row_range.1 as int,
                col_range.0 as int,
                col_range.1 as int,
            ) && r.unwrap().wf(),
            !range_valid(row_range.0 as int, row_range.1 as int, self.srows() as int) ==> (
            r->Err_0) == (MatrixError::InvalidRange {
                start: row_range.0,
                end: row_range.1,
                limit: self.srows() as usize,
            }),
            range_valid(row_range.0 as int, row_range.1 as int, self.srows() as int)
                && !range_valid(col_range.0 as int, col_range.1 as int, self.scols() as int) ==> (
            r->Err_0) == (MatrixError::InvalidRange {
                start: col_range.0,
                end: col_range.1,
                limit: self.scols() as usize,
            }),
    {
        let (r1, r2) = row_range;
        let (c1, c2) = col_range;
        if !(1 <= r1 && r1 <= r2 && r2 <= self.rows) {
            return Err(MatrixError::InvalidRange { start: r1, end: r2, limit: self.rows });
        }
        if !(1 <= c1 && c1 <= c2 && c2 <= self.cols) {
            return Err(MatrixError::InvalidRange { start: c1, end: c2, limit: self.cols });
        }
        let height: usize = r2 - r1 + 1;
        let width: usize = c2 - c1 + 1;
        // reading the length tells the verifier that rows * cols fits in usize
        let _n: usize = self.data.len();
        proof {
            assert(height * width <= self.srows() * self.scols()) by (nonlinear_arith)
                requires
                    1 <= height <= self.srows(),
                    1 <= width <= self.scols(),
            ;
        }
        let mut data: Vec<T> = Vec::with_capacity(height * width);
        let mut i: usize = 0;
        while i < height
            invariant
                self.wf(),
                self.sdata().len() <= usize::MAX,
                1 <= r1 <= r2 <= self.srows(),
                1 <= c1 <= c2 <= self.scols(),
                height == r2 - r1 + 1,
                width == c2 - c1 + 1,
                i <= height,
                data@.len() == i * width,
                forall|k: int| 0 <= k < i * width ==> data@[k] == self.sub_seq(
                    r1 as int,
                    r2 as int,
                    c1 as int,
                    c2 as int,
                )[k],
            decreases height - i,
        {
            let mut j: usize = 0;
            proof {
                assert((i + 1) * width <= height * width && height * width <= self.srows()
                    * self.scols() && i * width + width == (i + 1) * width) by (nonlinear_arith)
                    requires
                        0 <= i < height,
                        1 <= width,
                        height <= self.srows(),
                        width <= self.scols(),
                ;
            }
            while j < width
                invariant
                    self.wf(),
                    self.sdata().len() <= usize::MAX,
                    1 <= r1 <= r2 <= self.srows(),
                    1 <= c1 <= c2 <= self.scols(),
                    height == r2 - r1 + 1,
                    width == c2 - c1 + 1,
                    i < height,
                    j <= width,
                    i * width + width <= height * width,
                    i * width + width <= self.srows() * self.scols(),
                    data@.len() == i * width + j,
                    forall|k: int| 0 <= k < i * width + j ==> data@[k] == self.sub_seq(
                        r1 as int,
                        r2 as int,
                        c1 as int,
                        c2 as int,
                    )[k],
                decreases width - j,
            {
                let row: usize = r1 + i;
                let col: usize = c1 + j;
                proof {
                    assert((row - 1) * self.scols() <= (row - 1) * self.scols() + (col - 1)
                        < self.srows() * self.scols()) by (nonlinear_arith)
                        requires
                            1 <= row <= self.srows(),
                            1 <= col <= self.scols(),
                    ;
                }
                let entry: T = self.data[(row - 1) * self.cols + (col - 1)];
                data.push(entry);
                proof {
                    let k = i * width + j;
                    vstd::arithmetic::div_mod::lemma_fundamental_div_mod_converse(
                        k as int,
                        width as int,
                        i as int,
                        j as int,
                    );
                    assert(data@[k as int] == self.sub_seq(
                        r1 as int,
                        r2 as int,
                        c1 as int,
                        c2 as int,
                    )[k as int]);
                }
                j += 1;
            }
            i += 1;
        }
        proof {
            assert(data@ =~= self.sub_seq(r1 as int, r2 as int, c1 as int, c2 as int));
        }
        Ok(Matrix { data, rows: height, cols: width })
    }

    /// Rounds every entry to `decimals` decimal digits, through the scalar's
    /// own rounding
    ///
    /// Useful for rounding off floating point errors after elimination
    ///
    /// # Arguments
    /// * `decimals` - amount of decimals that should count
    pub fn truncate(&self, decimals: usize) -> (r: Matrix<T>)
        requires
            self.wf(),
        ensures
            r.srows() == self.srows(),
            r.scols() == self.scols(),
            r.sdata() == seq_round(self.sdata(), decimals),
            r.wf(),
    {
        let mut data: Vec<T> = Vec::with_capacity(self.data.len());
        let mut i: usize = 0;
        while i < self.data.len()
            invariant
                data@.len() == i,
                i <= self.sdata().len(),
                forall|j: int| 0 <= j < i ==> data@[j] == self.sdata()[j].sround(decimals),
            decreases self.sdata().len() - i,
        {
            data.push(self.data[i].round_dp(decimals));
            i += 1;
        }
        proof {
            assert(data@ =~= seq_round(self.sdata(), decimals));
        }
        Matrix { data, rows: self.rows, cols: self.cols }
    }

    /// The text of the first `j` entries of the row `s`, each entry's display
    /// text followed by a single space.
    pub open spec fn row_text_upto(s: Seq<T>, j: int) -> Seq<char>
        decreases j,
    {
        if j <= 0 {
            Seq::empty()
        } else {
            Self::row_text_upto(s, j - 1) + s[j - 1].stext() + seq![' ']
        }
    }

    /// The text of the first `i` grid lines: each row's entries followed by a
    /// newline.
    pub open spec fn grid_text_upto(&self, i: int) -> Seq<char>
        decreases i,
    {
        if i <= 0 {
            Seq::empty()
        } else {
            self.grid_text_upto(i - 1) + Self::row_text_upto(
                self.row_seq(i - 1),
                self.scols() as int,
            ) + seq!['\n']
        }
    }

    /// The full display text of the matrix: the line `Matrix`, then one line
    /// per row, entries space-separated with a trailing space before each
    /// newline.
    pub open spec fn rendered(&self) -> Seq<char> {
        "Matrix"@ + seq!['\n'] + self.grid_text_upto(self.srows() as int)
    }

    /// Renders the matrix as `Matrix` followed by one line per row, entries
    /// separated by single spaces
    pub fn render(&self) -> (r: String)
        requires
            self.wf(),
        ensures
            r@ == self.rendered(),
    {
        let mut s = String::new();
        s.push_str("Matrix");
        s.push('\n');
        // reading the length tells the verifier that rows * cols fits in usize
        let _n: usize = self.data.len();
        let mut i: usize = 0;
        proof {
            assert(s@ =~= "Matrix"@ + seq!['\n'] + self.grid_text_upto(0));
        }
        while i < self.rows
            invariant
                self.wf(),
                self.sdata().len() <= usize::MAX,
                i <= self.srows(),
                s@ == "Matrix"@ + seq!['\n'] + self.grid_text_upto(i as int),
            decreases self.srows() - i,
        {
            let mut j: usize = 0;
            while j < self.cols
                invariant
                    self.wf(),
                    self.sdata().len() <= usize::MAX,
                    i < self.srows(),
                    j <= self.scols(),
                    s@ == "Matrix"@ + seq!['\n'] + self.grid_text_upto(i as int)
                        + Self::row_text_upto(self.row_seq(i as int), j as int),
                decreases self.scols() - j,
            {
                proof {
                    assert(0 <= i * self.scols() && i * self.scols() <= i * self.scols() + j
                        < self.srows() * self.scols() && i * self.scols() + self.scols() == (i + 1)
                        * self.scols() && (i + 1) * self.scols() <= self.srows() * self.scols())
                        by (nonlinear_arith)
                        requires
                            0 <= i < self.srows(),
                            0 <= j < self.scols(),
                    ;
                    assert(self.row_seq(i as int)[j as int] == self.sdata()[i * self.scols() + j]);
                }
                let entry: T = self.data[i * self.cols + j];
                s.push_str(entry.to_text().as_str());
                s.push(' ');
                proof {
                    assert(s@ =~= "Matrix"@ + seq!['\n'] + self.grid_text_upto(i as int)
                        + Self::row_text_upto(self.row_seq(i as int), j + 1));
                }
                j += 1;
            }
            s.push('\n');
            proof {
                assert(s@ =~= "Matrix"@ + seq!['\n'] + self.grid_text_upto(i + 1));
            }
            i += 1;
        }
        s
    }
}

/// Every entry of `s` rounded to `decimals` decimal digits.
pub open spec fn seq_round<T: Scalar>(s: Seq<T>, decimals: usize) -> Seq<T> {
    s.map(|i: int, x: T| x.sround(decimals))
}

/// Two well-formed matrices of the same dimensions whose rows all agree hold
/// the same flat data.
pub proof fn lemma_rows_determine_data<T: Scalar>(a: &Matrix<T>, b: &Matrix<T>)
    requires
        a.wf(),
        b.wf(),
        a.srows() == b.srows(),
        a.scols() == b.scols(),
        forall|i: int| 0 <= i < a.srows() ==> a.row_seq(i) == b.row_seq(i),
    ensures
        a.sdata() == b.sdata(),
{
    let s = a.scols() as int;
    if s == 0 {
        assert(a.sdata().len() == a.srows() * 0) by (nonlinear_arith)
            requires
                a.sdata().len() == a.srows() * a.scols(),
                a.scols() == 0,
        ;
        assert(b.sdata().len() == b.srows() * 0) by (nonlinear_arith)
            requires
                b.sdata().len() == b.srows() * b.scols(),
                b.scols() == 0,
        ;
        assert(a.sdata() =~= b.sdata());
    } else {
        assert forall|k: int| 0 <= k < a.sdata().len() implies a.sdata()[k] == b.sdata()[k] by {
            let q = k / s;
            let r = k % s;
            vstd::arithmetic::div_mod::lemma_fundamental_div_mod(k, s);
            vstd::arithmetic::div_mod::lemma_mod_bound(k, s);
            assert(0 <= q < a.srows() && q * s + r == k && 0 <= q * s && (q + 1) * s <= a.srows()
                * s && q * s + s == (q + 1) * s) by (nonlinear_arith)
                requires
                    0 <= k < a.srows() * s,
                    k == s * q + r,
                    0 <= r < s,
                    0 < s,
            ;
            assert(a.sdata()[k] == a.row_seq(q)[r]);
            assert(b.sdata()[k] == b.row_seq(q)[r]);
        }
        assert(a.sdata() =~= b.sdata());
    }
}

/// Rounding commutes with taking a subrange.
pub proof fn lemma_seq_round_subrange<T: Scalar>(s: Seq<T>, a: int, b: int, decimals: usize)
    requires
        0 <= a <= b <= s.len(),
    ensures
        seq_round(s, decimals).subrange(a, b) == seq_round(s.subrange(a, b), decimals),
{
    assert(seq_round(s, decimals).subrange(a, b) =~= seq_round(s.subrange(a, b), decimals));
}

/// Law: rounding to a fixed number of decimals is idempotent, entry for
/// entry. Together with the contract of [`Matrix::truncate`], which pins its
/// result's contents to [`seq_round`] of its input's contents, this says that
/// truncating an already-truncated matrix changes nothing:
/// `a.truncate(d).truncate(d)` equals `a.truncate(d)`, for any `d`.
pub proof fn lemma_truncate_idempotent<T: Scalar>(s: Seq<T>, decimals: usize)
    ensures
        seq_round(seq_round(s, decimals), decimals) == seq_round(s, decimals),
{
    assert forall|i: int| 0 <= i < s.len() implies seq_round(seq_round(s, decimals), decimals)[i]
        == seq_round(s, decimals)[i] by {
        s[i].lemma_round_idempotent(decimals);
    }
    assert(seq_round(seq_round(s, decimals), decimals) =~= seq_round(s, decimals));
}

/// Use `row_eq` to check if two matrices are row equivalent.
/// This method only checks for exact structural equality: rows, columns, and
/// data.
impl<T: Scalar> PartialEq for Matrix<T> {
    fn eq(&self, other: &Self) -> (r: bool) {
        if self.rows != other.rows || self.cols != other.cols || self.data.len()
            != other.data.len() {
            return false;
        }
        let mut i: usize = 0;
        while i < self.data.len()
            invariant
                self.sdata().len() == other.sdata().len(),
                i <= self.sdata().len(),
                forall|j: int| 0 <= j < i ==> self.sdata()[j] == other.sdata()[j],
            decreases self.sdata().len() - i,
        {
            if !self.data[i].eq_val(other.data[i]) {
                return false;
            }
            i += 1;
        }
        proof {
            assert(self.sdata() =~= other.sdata());
        }
        true
    }
}

impl<T: Scalar> vstd::std_specs::cmp::PartialEqSpecImpl for Matrix<T> {
    open spec fn obeys_eq_spec() -> bool {
        true
    }

    open spec fn eq_spec(&self, other: &Self) -> bool {
        self.srows() == other.srows() && self.scols() == other.scols() && self.sdata()
            == other.sdata()
    }
}

impl<T: Scalar> Eq for Matrix<T> {

}

} // verus!
