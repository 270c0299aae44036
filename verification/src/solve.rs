//! Heavier [`Matrix`] operations: Gaussian elimination, Gauss-Jordan
//! reduction and inversion
use crate::matrix::Matrix;
use crate::matrix::MatrixError;
use crate::matrix::lemma_seq_round_subrange;
use crate::matrix::seq_round;
use crate::row::row_lead;
use crate::row::row_scaled;
use crate::row::row_sub_scaled;
use crate::row::swap_rows;
use crate::row::Row;
use crate::scalar::Scalar;
use vstd::prelude::*;

verus! {

/// The entry sequences of a vector of rows.
pub(crate) open spec fn rows_view<T: Scalar>(rows: Seq<Row<T>>) -> Seq<Seq<T>> {
    rows.map(|i: int, r: Row<T>| r.svals())
}

/// The row that partial pivoting selects for column `col`: scanning onward
/// from `i` with current best candidate `best`, a row wins only by strictly
/// greater magnitude, so the earliest greatest row is kept.
pub open spec fn pivot_scan<T: Scalar>(rows: Seq<Seq<T>>, col: int, best: int, i: int) -> int
    decreases rows.len() - i,
{
    if i < 0 || i >= rows.len() {
        best
    } else if rows[i][col].sabs_gt(rows[best][col]) {
        pivot_scan(rows, col, i, i + 1)
    } else {
        pivot_scan(rows, col, best, i + 1)
    }
}

/// One column of forward elimination: from row `i` down, each row loses its
/// own multiple of the pivot row `completed`, which zeroes column `col` there.
pub open spec fn eliminate_below<T: Scalar>(
    rows: Seq<Seq<T>>,
    completed: int,
    col: int,
    i: int,
) -> Seq<Seq<T>>
    decreases rows.len() - i,
{
    if i < 0 || i >= rows.len() {
        rows
    } else {
        let factor = rows[i][col].sdiv(rows[completed][col]);
        eliminate_below(
            rows.update(i, row_sub_scaled(rows[i], rows[completed], factor)),
            completed,
            col,
            i + 1,
        )
    }
}

/// Forward elimination with partial pivoting over the columns `col` up to
/// `limit`, with `completed` rows already pivoted: for each column, the
/// largest-magnitude candidate row is swapped up; a near-zero pivot makes the
/// column non-pivotal and is skipped; otherwise the column is cleared below
/// the pivot. Returns the transformed rows and the count of pivot rows.
pub open spec fn echelon_from<T: Scalar>(
    rows: Seq<Seq<T>>,
    completed: int,
    col: int,
    limit: int,
) -> (Seq<Seq<T>>, int)
    decreases limit - col,
{
    if col < 0 || col >= limit || completed >= rows.len() {
        (rows, completed)
    } else {
        let p = pivot_scan(rows, col, completed, completed + 1);
        let swapped = rows.update(completed, rows[p]).update(p, rows[completed]);
        if swapped[completed][col].snear_zero() {
            echelon_from(swapped, completed, col + 1, limit)
        } else {
            let cleared = eliminate_below(swapped, completed, col, completed + 1);
            echelon_from(cleared, completed + 1, col + 1, limit)
        }
    }
}

/// One row after the normalization pass of Gauss-Jordan reduction: a row with
/// a leading (first not-near-zero) entry is scaled by the reciprocal of that
/// entry; a row without one stays as it is.
pub open spec fn normalized_row<T: Scalar>(row: Seq<T>) -> Seq<T> {
    let lead = row_lead(row, 0);
    if lead < row.len() {
        row_scaled(row, T::sone().sdiv(row[lead]))
    } else {
        row
    }
}

/// The normalization pass of Gauss-Jordan reduction: every row normalized,
/// each independently of the others.
pub open spec fn normalize_rows<T: Scalar>(rows: Seq<Seq<T>>) -> Seq<Seq<T>> {
    Seq::new(rows.len(), |i: int| normalized_row(rows[i]))
}

/// Column `pivot_col` cleared in every row but the pivot row `p`: each other
/// row loses its own multiple of the pivot row.
pub open spec fn clear_column<T: Scalar>(rows: Seq<Seq<T>>, p: int, pivot_col: int) -> Seq<
    Seq<T>,
> {
    Seq::new(
        rows.len(),
        |t: int|
            if t == p {
                rows[p]
            } else {
                row_sub_scaled(rows[t], rows[p], rows[t][pivot_col])
            },
    )
}

/// The back-substitution pass of Gauss-Jordan reduction, from pivot row `p`
/// down: each row with a leading entry has its leading column cleared in every
/// other row, above and below.
pub open spec fn back_substitute<T: Scalar>(rows: Seq<Seq<T>>, p: int) -> Seq<Seq<T>>
    decreases rows.len() - p,
{
    if p < 0 || p >= rows.len() {
        rows
    } else {
        let lead = row_lead(rows[p], 0);
        let updated = if lead < rows[p].len() {
            clear_column(rows, p, lead)
        } else {
            rows
        };
        back_substitute(updated, p + 1)
    }
}

/// Row `i` of an identity block of size `n`: one at position `i`, zero
/// elsewhere.
pub open spec fn identity_row<T: Scalar>(i: int, n: int) -> Seq<T> {
    Seq::new(
        n as nat,
        |j: int|
            if i == j {
                T::sone()
            } else {
                T::szero()
            },
    )
}

/// The whole Gauss-Jordan pipeline on a sequence of rows, with pivots sought
/// in the first `limit` columns: forward elimination, rounding to `decimals`
/// digits, normalization, back substitution. Returns the reduced rows, still
/// to be rounded once more, and the pivot count of the forward phase.
pub open spec fn reduced_pipeline<T: Scalar>(rows: Seq<Seq<T>>, limit: int, decimals: usize) -> (
    Seq<Seq<T>>,
    int,
) {
    let e = echelon_from(rows, 0, 0, limit);
    let rounded = e.0.map(|i: int, r: Seq<T>| seq_round(r, decimals));
    (back_substitute(normalize_rows(rounded), 0), e.1)
}

/// Views of a row vector after an update are the views updated.
pub(crate) proof fn lemma_rows_view_update<T: Scalar>(rows: Seq<Row<T>>, i: int, r: Row<T>)
    requires
        0 <= i < rows.len(),
    ensures
        rows_view(rows.update(i, r)) == rows_view(rows).update(i, r.svals()),
{
    assert(rows_view(rows.update(i, r)) =~= rows_view(rows).update(i, r.svals()));
}

impl<T: Scalar> Matrix<T> {
    /// All rows of the matrix, as sequences.
    pub open spec fn rows_of(&self) -> Seq<Seq<T>> {
        Seq::new(self.srows(), |i: int| self.row_seq(i))
    }

    /// What forward elimination computes on this matrix before the final
    /// rounding, together with how many pivot rows it completes.
    pub open spec fn echelon_spec(&self, augmented_size: int) -> (Seq<Seq<T>>, int) {
        echelon_from(self.rows_of(), 0, 0, self.scols() - augmented_size)
    }

    /// What Gauss-Jordan reduction computes on this matrix before the final
    /// rounding, together with how many pivot rows the forward phase found:
    /// the echelon rows, rounded as `echelon_aug` hands them over, then
    /// normalized and back-substituted.
    pub open spec fn reduced_spec(&self, augmented_size: int) -> (Seq<Seq<T>>, int) {
        reduced_pipeline(
            self.rows_of(),
            self.scols() - augmented_size,
            Self::ROUND_DECIMALS,
        )
    }

    /// This matrix with an identity block appended to the right of every row:
    /// the augmented matrix that `inverse` eliminates.
    pub open spec fn augmented_rows(&self) -> Seq<Seq<T>> {
        Seq::new(
            self.srows(),
            |i: int| self.row_seq(i) + identity_row(i, self.srows() as int),
        )
    }

    /// The Gauss-Jordan reduction of the augmented matrix, with its identity
    /// block excluded from the pivot search, and the pivot count of its
    /// forward phase: what `inverse` extracts its result from.
    pub open spec fn inverse_reduction(&self) -> (Seq<Seq<T>>, int) {
        reduced_pipeline(self.augmented_rows(), self.srows() as int, Self::ROUND_DECIMALS)
    }

    /// The rows of this matrix's reduced row-echelon form, exactly as
    /// `reduced_echelon` with no augmented part returns them.
    pub open spec fn reduced_form(&self) -> Seq<Seq<T>> {
        Seq::new(
            self.srows(),
            |i: int| seq_round(self.reduced_spec(0).0[i], Self::ROUND_DECIMALS),
        )
    }
    /// Copies each matrix row out into its own [`Row`]
    fn extract_rows(&self) -> (rows: Vec<Row<T>>)
        requires
            self.wf(),
        ensures
            rows@.len() == self.srows(),
            forall|i: int| 0 <= i < rows@.len() ==> (#[trigger] rows@[i]).svals()
                == self.row_seq(i),
            forall|i: int| 0 <= i < rows@.len() ==> (#[trigger] rows@[i]).svals().len()
                == self.scols(),
    {
        // reading the length tells the verifier that rows * cols fits in usize
        let _n: usize = self.data.len();
        let mut rows: Vec<Row<T>> = Vec::with_capacity(self.rows);
        let mut i: usize = 0;
        while i < self.rows
            invariant
                self.wf(),
                self.sdata().len() <= usize::MAX,
                i <= self.srows(),
                rows@.len() == i,
                forall|q: int| 0 <= q < i ==> (#[trigger] rows@[q]).svals() == self.row_seq(q),
            decreases self.srows() - i,
        {
            let mut values: Vec<T> = Vec::with_capacity(self.cols);
            let mut j: usize = 0;
            while j < self.cols
                invariant
                    self.wf(),
                    self.sdata().len() <= usize::MAX,
                    i < self.srows(),
                    j <= self.scols(),
                    values@.len() == j,
                    forall|k: int| 0 <= k < j ==> values@[k] == self.sdata()[i * self.scols() + k],
                decreases self.scols() - j,
            {
                proof {
                    assert(i * self.scols() <= i * self.scols() + j < self.srows() * self.scols())
                        by (nonlinear_arith)
                        requires
                            0 <= i < self.srows(),
                            0 <= j < self.scols(),
                    ;
                }
                values.push(self.data[i * self.cols + j]);
                j += 1;
            }
            proof {
                assert((i + 1) * self.scols() == i * self.scols() + self.scols())
                    by (nonlinear_arith);
                assert(i * self.scols() + self.scols() <= self.srows() * self.scols())
                    by (nonlinear_arith)
                    requires
                        0 <= i < self.srows(),
                ;
                assert(values@ =~= self.row_seq(i as int));
            }
            rows.push(Row { values });
            i += 1;
        }
        proof {
            assert forall|q: int| 0 <= q < rows@.len() implies (#[trigger] rows@[q]).svals().len()
                == self.scols() by {
                assert(0 <= q * self.scols() && (q + 1) * self.scols() <= self.srows()
                    * self.scols() && (q + 1) * self.scols() - q * self.scols() == self.scols())
                    by (nonlinear_arith)
                    requires
                        0 <= q < self.srows(),
                ;
                assert(rows@[q].svals() == self.row_seq(q));
            }
        }
        rows
    }

    /// Reassembles a matrix from its rows
    fn from_rows(rows: Vec<Row<T>>) -> (m: Matrix<T>)
        requires
            rows@.len() >= 1,
            forall|i: int| 0 <= i < rows@.len() ==> (#[trigger] rows@[i]).svals().len()
                == rows@[0].svals().len(),
            rows@.len() * rows@[0].svals().len() <= usize::MAX,
        ensures
            m.srows() == rows@.len(),
            m.scols() == rows@[0].svals().len(),
            m.wf(),
            forall|i: int| 0 <= i < rows@.len() ==> m.row_seq(i) == (#[trigger] rows@[i]).svals(),
    {
        let nrows: usize = rows.len();
        let ncols: usize = rows[0].len();
        let mut data: Vec<T> = Vec::with_capacity(nrows * ncols);
        let mut i: usize = 0;
        while i < nrows
            invariant
                nrows as nat == rows@.len(),
                forall|q: int| 0 <= q < rows@.len() ==> (#[trigger] rows@[q]).svals().len()
                    == ncols as nat,
                nrows * ncols <= usize::MAX,
                i <= nrows,
                data@.len() == i * ncols,
                forall|q: int, k: int| 0 <= q < i && 0 <= k < ncols ==> data@[q * ncols + k] == (
                #[trigger] rows@[q].svals()[k]),
            decreases nrows - i,
        {
            proof {
                assert(i * ncols + ncols == (i + 1) * ncols && (i + 1) * ncols <= nrows * ncols)
                    by (nonlinear_arith)
                    requires
                        0 <= i < nrows,
                        0 <= ncols,
                ;
            }
            let mut j: usize = 0;
            while j < ncols
                invariant
                    nrows as nat == rows@.len(),
                    forall|q: int| 0 <= q < rows@.len() ==> (#[trigger] rows@[q]).svals().len()
                        == ncols as nat,
                    i < nrows,
                    j <= ncols,
                    i * ncols + ncols <= nrows * ncols,
                    nrows * ncols <= usize::MAX,
                    data@.len() == i * ncols + j,
                    forall|q: int, k: int| 0 <= q < i && 0 <= k < ncols ==> data@[q * ncols + k]
                        == (#[trigger] rows@[q].svals()[k]),
                    forall|k: int| 0 <= k < j ==> data@[i * ncols + k] == (#[trigger] rows@[
                        i as int
                    ].svals()[k]),
                decreases ncols - j,
            {
                data.push(rows[i].get(j));
                proof {
                    assert forall|q: int, k: int| 0 <= q < i && 0 <= k < ncols implies 0 <= (
                    #[trigger] (q * ncols + k)) && q * ncols + k < i * ncols + j by {
                        assert(0 <= q * ncols + k && q * ncols + k < i * ncols) by (
                        nonlinear_arith)
                            requires
                                0 <= q < i,
                                0 <= k < ncols,
                        ;
                    }
                }
                j += 1;
            }
            i += 1;
        }
        let m = Matrix { data, rows: nrows, cols: ncols };
        proof {
            assert forall|i: int| 0 <= i < rows@.len() implies m.row_seq(i) == (
            #[trigger] rows@[i]).svals() by {
                assert((i + 1) * ncols <= nrows * ncols && i * ncols + ncols == (i + 1) * ncols && 0
                    <= i * ncols) by (nonlinear_arith)
                    requires
                        0 <= i < nrows,
                        0 <= ncols,
                ;
                assert forall|k: int| 0 <= k < ncols implies m.row_seq(i)[k] == rows@[i].svals()[k]
                by {
                    assert(m.row_seq(i)[k] == m.sdata()[i * ncols + k]);
                }
                assert(m.row_seq(i) =~= rows@[i].svals());
            }
        }
        m
    }

    /// Forward elimination with partial pivoting, on the decomposed rows;
    /// returns the rows and the count of pivot rows that were completed
    fn echelon_rows(&self, augmented_size: usize) -> (res: (Vec<Row<T>>, usize))
        requires
            self.wf(),
            augmented_size <= self.scols(),
        ensures
            res.0@.len() == self.srows(),
            forall|i: int| 0 <= i < res.0@.len() ==> (#[trigger] res.0@[i]).svals().len()
                == self.scols(),
            res.1 <= self.srows(),
            rows_view(res.0@) == self.echelon_spec(augmented_size as int).0,
            res.1 as int == self.echelon_spec(augmented_size as int).1,
            self.echelon_spec(augmented_size as int).0.len() == self.srows(),
            forall|i: int| 0 <= i < self.srows() ==> (#[trigger] self.echelon_spec(
                augmented_size as int,
            ).0[i]).len() == self.scols(),
    {
        let nrows: usize = self.rows;
        let ncols: usize = self.cols;
        let mut rows = self.extract_rows();
        proof {
            assert(rows_view(rows@) =~= self.rows_of());
        }
        let limit: usize = ncols - augmented_size;
        let mut completed: usize = 0;
        let mut current_col: usize = 0;
        while current_col < limit && completed < nrows
            invariant
                rows@.len() == nrows as nat,
                forall|q: int| 0 <= q < rows@.len() ==> (#[trigger] rows@[q]).svals().len()
                    == ncols as nat,
                limit <= ncols,
                completed <= nrows,
                current_col <= limit,
                echelon_from(
                    rows_view(rows@),
                    completed as int,
                    current_col as int,
                    limit as int,
                ) == echelon_from(self.rows_of(), 0, 0, limit as int),
            decreases limit - current_col,
        {
            let ghost entry_rows = rows@;
            let ghost entry_view = rows_view(rows@);
            // partial pivoting: take the row with the largest magnitude in this
            // column, earliest occurrence first
            let mut best: usize = completed;
            let mut i: usize = completed + 1;
            while i < nrows
                invariant
                    rows@ == entry_rows,
                    rows@.len() == nrows as nat,
                    forall|q: int| 0 <= q < rows@.len() ==> (#[trigger] rows@[q]).svals().len()
                        == ncols as nat,
                    current_col < ncols,
                    completed < nrows,
                    completed <= best < nrows,
                    completed < i <= nrows,
                    pivot_scan(rows_view(rows@), current_col as int, best as int, i as int)
                        == pivot_scan(
                        rows_view(rows@),
                        current_col as int,
                        completed as int,
                        completed + 1,
                    ),
                decreases nrows - i,
            {
                if rows[i].get(current_col).abs_gt(rows[best].get(current_col)) {
                    best = i;
                }
                i += 1;
            }
            proof {
                assert(best as int == pivot_scan(
                    entry_view,
                    current_col as int,
                    completed as int,
                    completed + 1,
                ));
            }
            swap_rows(&mut rows, completed, best);
            proof {
                lemma_rows_view_update(entry_rows, completed as int, entry_rows[best as int]);
                lemma_rows_view_update(
                    entry_rows.update(completed as int, entry_rows[best as int]),
                    best as int,
                    entry_rows[completed as int],
                );
                assert(rows_view(rows@) == entry_view.update(
                    completed as int,
                    entry_view[best as int],
                ).update(best as int, entry_view[completed as int]));
            }
            let ghost swapped_view = rows_view(rows@);
            let pivot: T = rows[completed].get(current_col);
            if !pivot.near_zero() {
                // clear the column below the pivot row
                let mut i: usize = completed + 1;
                while i < nrows
                    invariant
                        rows@.len() == nrows as nat,
                        forall|q: int| 0 <= q < rows@.len() ==> (#[trigger] rows@[q]).svals().len()
                            == ncols as nat,
                        current_col < ncols,
                        completed < nrows,
                        completed < i <= nrows,
                        !pivot.snear_zero(),
                        rows_view(rows@)[completed as int] == swapped_view[completed as int],
                        pivot == swapped_view[completed as int][current_col as int],
                        eliminate_below(
                            rows_view(rows@),
                            completed as int,
                            current_col as int,
                            i as int,
                        ) == eliminate_below(
                            swapped_view,
                            completed as int,
                            current_col as int,
                            completed + 1,
                        ),
                    decreases nrows - i,
                {
                    let entry: T = rows[i].get(current_col);
                    proof {
                        entry.lemma_div_pre(pivot);
                    }
                    let factor: T = entry.div_by(pivot);
                    let new_row = rows[i].sub_scaled(&rows[completed], factor);
                    proof {
                        lemma_rows_view_update(rows@, i as int, new_row);
                    }
                    rows[i] = new_row;
                    i += 1;
                }
                proof {
                    assert(rows_view(rows@) == eliminate_below(
                        swapped_view,
                        completed as int,
                        current_col as int,
                        completed + 1,
                    ));
                    assert(echelon_from(
                        entry_view,
                        completed as int,
                        current_col as int,
                        limit as int,
                    ) == echelon_from(
                        rows_view(rows@),
                        completed + 1,
                        current_col + 1,
                        limit as int,
                    ));
                }
                completed += 1;
            } else {
                proof {
                    assert(echelon_from(
                        entry_view,
                        completed as int,
                        current_col as int,
                        limit as int,
                    ) == echelon_from(
                        swapped_view,
                        completed as int,
                        current_col + 1,
                        limit as int,
                    ));
                }
            }
            current_col += 1;
        }
        proof {
            assert(echelon_from(
                rows_view(rows@),
                completed as int,
                current_col as int,
                limit as int,
            ) == (rows_view(rows@), completed as int));
            assert forall|i: int| 0 <= i < self.srows() implies (#[trigger] rows_view(rows@)[
            i]).len() == self.scols() by {
                assert(rows_view(rows@)[i] == rows@[i].svals());
            }
        }
        (rows, completed)
    }

    /// Forward elimination rounded to [`Matrix::ROUND_DECIMALS`], with the
    /// pivot count of the elimination kept for the callers that need it
    fn echelon_counted(&self, augmented_size: usize) -> (res: (Matrix<T>, usize))
        requires
            self.wf(),
            self.srows() >= 1,
            augmented_size <= self.scols(),
        ensures
            res.0.srows() == self.srows(),
            res.0.scols() == self.scols(),
            res.0.wf(),
            forall|i: int| 0 <= i < self.srows() ==> (#[trigger] res.0.row_seq(i)) == seq_round(
                self.echelon_spec(augmented_size as int).0[i],
                Self::ROUND_DECIMALS,
            ),
            res.1 as int == self.echelon_spec(augmented_size as int).1,
            res.1 <= self.srows(),
            self.echelon_spec(augmented_size as int).0.len() == self.srows(),
            forall|i: int| 0 <= i < self.srows() ==> (#[trigger] self.echelon_spec(
                augmented_size as int,
            ).0[i]).len() == self.scols(),
    {
        let (rows, completed) = self.echelon_rows(augmented_size);
        let ghost rv = rows_view(rows@);
        // reading the length tells the verifier that rows * cols fits in usize
        let _n: usize = self.data.len();
        let matrix = Matrix::from_rows(rows);
        let m = matrix.truncate(Self::ROUND_DECIMALS);
        proof {
            assert forall|i: int| 0 <= i < self.srows() implies (#[trigger] m.row_seq(i))
                == seq_round(
                self.echelon_spec(augmented_size as int).0[i],
                Self::ROUND_DECIMALS,
            ) by {
                assert(0 <= i * matrix.scols() && i * matrix.scols() <= (i + 1) * matrix.scols()
                    && (i + 1) * matrix.scols() <= matrix.srows() * matrix.scols())
                    by (nonlinear_arith)
                    requires
                        0 <= i < matrix.srows(),
                        0 <= matrix.scols(),
                ;
                lemma_seq_round_subrange(
                    matrix.sdata(),
                    i * matrix.scols(),
                    (i + 1) * matrix.scols(),
                    Self::ROUND_DECIMALS,
                );
                assert(matrix.row_seq(i) == rv[i]);
            }
        }
        (m, completed)
    }

    /// Reduces given matrix to echelon form \
    /// use [`Matrix::echelon_aug`] for reducing with an augmented part
    pub fn echelon(&self) -> (m: Matrix<T>)
        requires
            self.wf(),
            self.srows() >= 1,
        ensures
            m.srows() == self.srows(),
            m.scols() == self.scols(),
            m.wf(),
            forall|i: int| 0 <= i < self.srows() ==> (#[trigger] m.row_seq(i)) == seq_round(
                self.echelon_spec(0).0[i],
                Self::ROUND_DECIMALS,
            ),
    {
        self.echelon_aug(0)
    }

    /// Reduces given matrix to echelon form: forward elimination with partial
    /// pivoting, rounded to [`Matrix::ROUND_DECIMALS`] decimals at the end.
    /// The contract pins every row of the result to [`Matrix::echelon_spec`].
    ///
    /// # Arguments
    /// * `augmented_size` - amount of columns of the augmented part, which are
    ///   excluded from the pivot search but still receive the row operations;
    ///   0 if no augmented part
    pub fn echelon_aug(&self, augmented_size: usize) -> (m: Matrix<T>)
        requires
            self.wf(),
            self.srows() >= 1,
            augmented_size <= self.scols(),
        ensures
            m.srows() == self.srows(),
            m.scols() == self.scols(),
            m.wf(),
            forall|i: int| 0 <= i < self.srows() ==> (#[trigger] m.row_seq(i)) == seq_round(
                self.echelon_spec(augmented_size as int).0[i],
                Self::ROUND_DECIMALS,
            ),
            self.echelon_spec(augmented_size as int).0.len() == self.srows(),
            forall|i: int| 0 <= i < self.srows() ==> (#[trigger] self.echelon_spec(
                augmented_size as int,
            ).0[i]).len() == self.scols(),
    {
        let (m, _completed) = self.echelon_counted(augmented_size);
        m
    }

    /// How many decimal digits every elimination result is rounded to, to
    /// suppress round-off noise in the scalar arithmetic
    pub const ROUND_DECIMALS: usize = 5;

    /// Gauss-Jordan reduction on rows already in echelon form: normalizes each
    /// leading entry to one, then clears each pivot column above and below;
    /// returns the reduced matrix and the count of pivots of the forward phase
    fn reduced_counted(&self, augmented_size: usize) -> (res: (Matrix<T>, usize))
        requires
            self.wf(),
            self.srows() >= 1,
            augmented_size <= self.scols(),
        ensures
            res.0.srows() == self.srows(),
            res.0.scols() == self.scols(),
            res.0.wf(),
            forall|i: int| 0 <= i < self.srows() ==> (#[trigger] res.0.row_seq(i)) == seq_round(
                self.reduced_spec(augmented_size as int).0[i],
                Self::ROUND_DECIMALS,
            ),
            res.1 as int == self.reduced_spec(augmented_size as int).1,
            res.1 <= self.srows(),
            self.reduced_spec(augmented_size as int).0.len() == self.srows(),
            forall|i: int| 0 <= i < self.srows() ==> (#[trigger] self.reduced_spec(
                augmented_size as int,
            ).0[i]).len() == self.scols(),
    {
        let nrows: usize = self.rows;
        let ncols: usize = self.cols;
        let (echelon_form, completed) = self.echelon_counted(augmented_size);
        let ghost rounded = self.echelon_spec(augmented_size as int).0.map(
            |i: int, r: Seq<T>| seq_round(r, Self::ROUND_DECIMALS),
        );
        let mut rows = echelon_form.extract_rows();
        proof {
            assert(rows_view(rows@) =~= rounded);
        }

        // normalize: scale each row so its leading entry becomes one
        let mut i: usize = 0;
        while i < nrows
            invariant
                rows@.len() == nrows as nat,
                rounded.len() == nrows as nat,
                forall|q: int| 0 <= q < rows@.len() ==> (#[trigger] rows@[q]).svals().len()
                    == ncols as nat,
                i <= nrows,
                forall|q: int| 0 <= q < i ==> rows_view(rows@)[q] == normalize_rows(rounded)[q],
                forall|q: int| i <= q < nrows ==> rows_view(rows@)[q] == rounded[q],
            decreases nrows - i,
        {
            match rows[i].leading() {
                Some(idx) => {
                    let lead: T = rows[i].get(idx);
                    proof {
                        T::sone().lemma_div_pre(lead);
                    }
                    let scale: T = T::one().div_by(lead);
                    let new_row = rows[i].scaled(scale);
                    proof {
                        lemma_rows_view_update(rows@, i as int, new_row);
                        assert(new_row.svals() == normalized_row(rounded[i as int]));
                    }
                    rows[i] = new_row;
                },
                None => {
                    proof {
                        assert(rows_view(rows@)[i as int] == normalized_row(rounded[i as int]));
                    }
                },
            }
            i += 1;
        }
        let ghost normalized = normalize_rows(rounded);
        proof {
            assert(rows_view(rows@) =~= normalized);
        }

        // back substitution: clear each pivot column in every other row
        let mut p: usize = 0;
        while p < nrows
            invariant
                rows@.len() == nrows as nat,
                forall|q: int| 0 <= q < rows@.len() ==> (#[trigger] rows@[q]).svals().len()
                    == ncols as nat,
                p <= nrows,
                normalized.len() == nrows as nat,
                back_substitute(rows_view(rows@), p as int) == back_substitute(normalized, 0),
            decreases nrows - p,
        {
            let ghost entry_rows = rows@;
            let ghost entry_view = rows_view(rows@);
            match rows[p].leading() {
                Some(pivot_col) => {
                    let mut t: usize = 0;
                    while t < nrows
                        invariant
                            rows@.len() == nrows as nat,
                            entry_view.len() == nrows as nat,
                            forall|q: int| 0 <= q < rows@.len() ==> (
                            #[trigger] rows@[q]).svals().len() == ncols as nat,
                            p < nrows,
                            pivot_col < ncols,
                            t <= nrows,
                            rows_view(rows@)[p as int] == entry_view[p as int],
                            forall|q: int| t <= q < nrows ==> rows_view(rows@)[q] == entry_view[q],
                            forall|q: int| 0 <= q < t && q != p ==> rows_view(rows@)[q]
                                == clear_column(entry_view, p as int, pivot_col as int)[q],
                        decreases nrows - t,
                    {
                        if t != p {
                            let factor: T = rows[t].get(pivot_col);
                            let new_row = rows[t].sub_scaled(&rows[p], factor);
                            proof {
                                lemma_rows_view_update(rows@, t as int, new_row);
                            }
                            rows[t] = new_row;
                        }
                        t += 1;
                    }
                    proof {
                        assert(rows_view(rows@) =~= clear_column(
                            entry_view,
                            p as int,
                            pivot_col as int,
                        ));
                        assert(pivot_col as int == row_lead(entry_view[p as int], 0));
                        assert(back_substitute(entry_view, p as int) == back_substitute(
                            rows_view(rows@),
                            p + 1,
                        ));
                    }
                },
                None => {
                    proof {
                        assert(rows@[p as int].svals() == entry_view[p as int]);
                        assert(!(row_lead(entry_view[p as int], 0) < entry_view[p as int].len()));
                        assert(back_substitute(entry_view, p as int) == back_substitute(
                            rows_view(rows@),
                            p + 1,
                        ));
                    }
                },
            }
            p += 1;
        }
        proof {
            assert(back_substitute(rows_view(rows@), nrows as int) == rows_view(rows@));
        }
        let ghost final_view = rows_view(rows@);
        proof {
            assert forall|i: int| 0 <= i < self.srows() implies (#[trigger] final_view[i]).len()
                == self.scols() by {
                assert(final_view[i] == rows@[i].svals());
            }
        }
        // reading the length tells the verifier that rows * cols fits in usize
        let _n: usize = echelon_form.len();
        let matrix = Matrix::from_rows(rows);
        let m = matrix.truncate(Self::ROUND_DECIMALS);
        proof {
            assert forall|i: int| 0 <= i < self.srows() implies (#[trigger] m.row_seq(i))
                == seq_round(
                self.reduced_spec(augmented_size as int).0[i],
                Self::ROUND_DECIMALS,
            ) by {
                assert(0 <= i * matrix.scols() && i * matrix.scols() <= (i + 1) * matrix.scols()
                    && (i + 1) * matrix.scols() <= matrix.srows() * matrix.scols())
                    by (nonlinear_arith)
                    requires
                        0 <= i < matrix.srows(),
                        0 <= matrix.scols(),
                ;
                lemma_seq_round_subrange(
                    matrix.sdata(),
                    i * matrix.scols(),
                    (i + 1) * matrix.scols(),
                    Self::ROUND_DECIMALS,
                );
                assert(matrix.row_seq(i) == final_view[i]);
            }
        }
        (m, completed)
    }

    /// Reduces given matrix to reduced echelon form \
    /// use [`Matrix::echelon`] for echelon form
    ///
    /// # Arguments
    /// * `augmented_size` - amount of columns of the augmented part, 0 if no
    ///   augmented part
    pub fn reduced_echelon(&self, augmented_size: usize) -> (m: Matrix<T>)
        requires
            self.wf(),
            self.srows() >= 1,
            augmented_size <= self.scols(),
        ensures
            m.srows() == self.srows(),
            m.scols() == self.scols(),
            m.wf(),
            forall|i: int| 0 <= i < self.srows() ==> (#[trigger] m.row_seq(i)) == seq_round(
                self.reduced_spec(augmented_size as int).0[i],
                Self::ROUND_DECIMALS,
            ),
            self.reduced_spec(augmented_size as int).0.len() == self.srows(),
            forall|i: int| 0 <= i < self.srows() ==> (#[trigger] self.reduced_spec(
                augmented_size as int,
            ).0[i]).len() == self.scols(),
    {
        let (m, _completed) = self.reduced_counted(augmented_size);
        m
    }

    /// Check if given matrices are row equivalent: whether both reduce to the
    /// same reduced echelon form
    ///
    /// # Arguments
    /// * `other` - other [`Matrix`]
    pub fn row_eq(&self, other: &Matrix<T>) -> (r: bool)
        requires
            self.wf(),
            other.wf(),
            self.srows() >= 1,
            other.srows() >= 1,
        ensures
            r == (self.srows() == other.srows() && self.scols() == other.scols()
                && self.reduced_form() == other.reduced_form()),
    {
        let a = self.reduced_echelon(0);
        let b = other.reduced_echelon(0);
        let r = a == b;
        proof {
            if r {
                assert forall|i: int| 0 <= i < self.srows() implies self.reduced_form()[i]
                    == other.reduced_form()[i] by {
                    assert(a.row_seq(i) == b.row_seq(i));
                }
                assert(self.reduced_form() =~= other.reduced_form());
            } else {
                if self.srows() == other.srows() && self.scols() == other.scols()
                    && self.reduced_form() == other.reduced_form() {
                    assert forall|i: int| 0 <= i < a.srows() implies a.row_seq(i) == b.row_seq(
                        i,
                    ) by {
                        assert(self.reduced_form()[i] == other.reduced_form()[i]);
                    }
                    crate::matrix::lemma_rows_determine_data(&a, &b);
                    assert(false);
                }
            }
        }
        r
    }

    /// Computes the inverse of the matrix using [`Matrix::reduced_echelon`]:
    /// appends an identity block, reduces the augmented matrix, and extracts
    /// the right-hand block
    ///
    /// # Errors
    /// [`MatrixError::NotSquare`] when the matrix is not square;
    /// [`MatrixError::Singular`] when the forward elimination finds fewer
    /// pivots than rows, so the matrix has no inverse
    pub fn inverse(&self) -> (r: Result<Matrix<T>, MatrixError>)
        requires
            self.wf(),
            self.srows() >= 1,
            self.srows() == self.scols() ==> self.srows() * (self.scols() + self.srows())
                <= usize::MAX,
        ensures
            self.srows() != self.scols() <==> r == Err::<Matrix<T>, MatrixError>(
                MatrixError::NotSquare {
                    rows: self.srows() as usize,
                    cols: self.scols() as usize,
                },
            ),
            r is Err ==> (r->Err_0) == (MatrixError::NotSquare {
                rows: self.srows() as usize,
                cols: self.scols() as usize,
            }) || (r->Err_0) == MatrixError::Singular,
            r is Ok ==> r.unwrap().srows() == self.srows() && r.unwrap().scols() == self.scols()
                && r.unwrap().wf(),
            self.srows() == self.scols() ==> (r == Err::<Matrix<T>, MatrixError>(
                MatrixError::Singular,
            ) <==> self.inverse_reduction().1 < self.srows()),
            r is Ok ==> forall|i: int| 0 <= i < self.srows() ==> (#[trigger] r.unwrap().row_seq(i))
                == seq_round(
                seq_round(self.inverse_reduction().0[i], Self::ROUND_DECIMALS).subrange(
                    self.srows() as int,
                    2 * (self.srows() as int),
                ),
                Self::ROUND_DECIMALS,
            ),
    {
        if self.rows != self.cols {
            return Err(MatrixError::NotSquare { rows: self.rows, cols: self.cols });
        }
        let n: usize = self.rows;
        proof {
            assert(n + n <= n * (n + n)) by (nonlinear_arith)
                requires
                    n >= 1,
            ;
        }
        let aug_cols: usize = self.cols + n;

        // append an identity block to the right of every row
        // reading the length tells the verifier that the augmented size fits in usize
        let _len: usize = self.data.len();
        let mut out_data: Vec<T> = Vec::with_capacity(n * aug_cols);
        let mut row: usize = 0;
        while row < n
            invariant
                self.wf(),
                self.sdata().len() <= usize::MAX,
                self.srows() == n,
                self.scols() == n,
                aug_cols == n + n,
                n * aug_cols <= usize::MAX,
                row <= n,
                out_data@.len() == row * aug_cols,
                forall|q: int, k: int| 0 <= q < row && 0 <= k < aug_cols ==> (#[trigger] out_data@[
                    q * aug_cols + k
                ]) == self.augmented_rows()[q][k],
            decreases n - row,
        {
            proof {
                assert(row * aug_cols + aug_cols == (row + 1) * aug_cols && (row + 1) * aug_cols
                    <= n * aug_cols) by (nonlinear_arith)
                    requires
                        0 <= row < n,
                        0 <= aug_cols,
                ;
            }
            let mut j: usize = 0;
            while j < n
                invariant
                    self.wf(),
                    self.sdata().len() <= usize::MAX,
                    self.srows() == n,
                    self.scols() == n,
                    row < n,
                    j <= n,
                    row * aug_cols + aug_cols <= n * aug_cols,
                    n * aug_cols <= usize::MAX,
                    aug_cols == n + n,
                    out_data@.len() == row * aug_cols + j,
                    forall|q: int, k: int| 0 <= q < row && 0 <= k < aug_cols ==> (
                    #[trigger] out_data@[q * aug_cols + k]) == self.augmented_rows()[q][k],
                    forall|k: int| 0 <= k < j ==> (#[trigger] out_data@[row * aug_cols + k])
                        == self.augmented_rows()[row as int][k],
                decreases n - j,
            {
                proof {
                    assert(0 <= row * self.scols() && row * self.scols() <= row * self.scols() + j
                        < self.srows() * self.scols() && (row + 1) * self.scols() <= self.srows()
                        * self.scols() && row * self.scols() + self.scols() == (row + 1)
                        * self.scols()) by (nonlinear_arith)
                        requires
                            0 <= row < self.srows(),
                            0 <= j < self.scols(),
                    ;
                }
                out_data.push(self.data[row * self.cols + j]);
                proof {
                    assert forall|q: int, k: int| 0 <= q < row && 0 <= k < aug_cols implies 0 <= (
                    #[trigger] (q * aug_cols + k)) && q * aug_cols + k < row * aug_cols + j by {
                        assert(0 <= q * aug_cols + k && q * aug_cols + k < row * aug_cols) by (
                        nonlinear_arith)
                            requires
                                0 <= q < row,
                                0 <= k < aug_cols,
                        ;
                    }
                    assert(self.augmented_rows()[row as int] == self.row_seq(row as int)
                        + identity_row(row as int, n as int));
                    assert(self.row_seq(row as int)[j as int] == self.sdata()[row * self.scols()
                        + j]);
                    assert(out_data@[row * aug_cols + j] == self.augmented_rows()[row as int][
                    j as int]);
                }
                j += 1;
            }
            let mut col: usize = 0;
            while col < n
                invariant
                    row < n,
                    col <= n,
                    row * aug_cols + aug_cols <= n * aug_cols,
                    n * aug_cols <= usize::MAX,
                    aug_cols == n + n,
                    self.srows() == n,
                    self.scols() == n,
                    self.wf(),
                    out_data@.len() == row * aug_cols + n + col,
                    forall|q: int, k: int| 0 <= q < row && 0 <= k < aug_cols ==> (
                    #[trigger] out_data@[q * aug_cols + k]) == self.augmented_rows()[q][k],
                    forall|k: int| 0 <= k < n + col ==> (#[trigger] out_data@[row * aug_cols + k])
                        == self.augmented_rows()[row as int][k],
                decreases n - col,
            {
                if row == col {
                    out_data.push(T::one());
                } else {
                    out_data.push(T::zero());
                }
                proof {
                    assert forall|q: int, k: int| 0 <= q < row && 0 <= k < aug_cols implies 0 <= (
                    #[trigger] (q * aug_cols + k)) && q * aug_cols + k < row * aug_cols + n
                        + col by {
                        assert(0 <= q * aug_cols + k && q * aug_cols + k < row * aug_cols) by (
                        nonlinear_arith)
                            requires
                                0 <= q < row,
                                0 <= k < aug_cols,
                        ;
                    }
                    assert(0 <= row * self.scols() && row * self.scols() + self.scols() == (row
                        + 1) * self.scols() && (row + 1) * self.scols() <= self.srows()
                        * self.scols()) by (nonlinear_arith)
                        requires
                            0 <= row < self.srows(),
                            0 <= self.scols(),
                    ;
                    assert(self.augmented_rows()[row as int] == self.row_seq(row as int)
                        + identity_row(row as int, n as int));
                    assert(self.row_seq(row as int).len() == self.scols());
                    assert(identity_row::<T>(row as int, n as int)[col as int] == (
                    if row == col {
                        T::sone()
                    } else {
                        T::szero()
                    }));
                    assert(out_data@[row * aug_cols + (n + col)] == self.augmented_rows()[
                    row as int][n + col]);
                }
                col += 1;
            }
            row += 1;
        }
        let augmented = Matrix { data: out_data, rows: n, cols: aug_cols };
        proof {
            assert(n * aug_cols == n * (self.scols() + self.srows()));
            assert forall|i: int| 0 <= i < n implies augmented.row_seq(i)
                == self.augmented_rows()[i] by {
                assert(0 <= i * aug_cols && i * aug_cols + aug_cols == (i + 1) * aug_cols && (i + 1)
                    * aug_cols <= n * aug_cols) by (nonlinear_arith)
                    requires
                        0 <= i < n,
                        0 <= aug_cols,
                ;
                assert(0 <= i * self.scols() && i * self.scols() + self.scols() == (i + 1)
                    * self.scols() && (i + 1) * self.scols() <= self.srows() * self.scols()) by (
                nonlinear_arith)
                    requires
                        0 <= i < self.srows(),
                        0 <= self.scols(),
                ;
                assert forall|k: int| 0 <= k < aug_cols implies augmented.row_seq(i)[k]
                    == self.augmented_rows()[i][k] by {
                    assert(augmented.row_seq(i)[k] == augmented.sdata()[i * aug_cols + k]);
                }
                assert(self.augmented_rows()[i] == self.row_seq(i) + identity_row(
                    i,
                    n as int,
                ));
                assert(self.row_seq(i).len() == self.scols());
                assert(augmented.row_seq(i) =~= self.augmented_rows()[i]);
            }
            assert(augmented.rows_of() =~= self.augmented_rows());
            assert(augmented.reduced_spec(n as int) == self.inverse_reduction());
        }

        let (reduced, pivots) = augmented.reduced_counted(n);
        if pivots < n {
            return Err(MatrixError::Singular);
        }

        match reduced.submatrix((1, n), (n + 1, aug_cols)) {
            Ok(block) => {
                let result = block.truncate(Self::ROUND_DECIMALS);
                proof {
                    assert forall|i: int| 0 <= i < self.srows() implies (
                    #[trigger] result.row_seq(i)) == seq_round(
                        seq_round(self.inverse_reduction().0[i], Self::ROUND_DECIMALS).subrange(
                            self.srows() as int,
                            2 * (self.srows() as int),
                        ),
                        Self::ROUND_DECIMALS,
                    ) by {
                        assert(0 <= i * block.scols() && i * block.scols() + block.scols() == (i
                            + 1) * block.scols() && (i + 1) * block.scols() <= block.srows()
                            * block.scols()) by (nonlinear_arith)
                            requires
                                0 <= i < block.srows(),
                                0 <= block.scols(),
                        ;
                        assert(0 <= i * reduced.scols() && i * reduced.scols() + reduced.scols()
                            == (i + 1) * reduced.scols() && (i + 1) * reduced.scols()
                            <= reduced.srows() * reduced.scols()) by (nonlinear_arith)
                            requires
                                0 <= i < reduced.srows(),
                                0 <= reduced.scols(),
                        ;
                        assert forall|j: int| 0 <= j < n implies block.row_seq(i)[j]
                            == reduced.row_seq(i).subrange(n as int, 2 * (n as int))[j] by {
                            assert(0 <= i * (n as int) + j && i * (n as int) + j < (n as int) * (
                            n as int)) by (nonlinear_arith)
                                requires
                                    0 <= i < n,
                                    0 <= j < n,
                            ;
                            vstd::arithmetic::div_mod::lemma_fundamental_div_mod_converse(
                                i * (n as int) + j,
                                n as int,
                                i,
                                j,
                            );
                            assert(block.row_seq(i)[j] == block.sdata()[i * (n as int) + j]);
                            assert(block.sdata()[i * (n as int) + j] == reduced.at(i, n + j));
                            assert(reduced.row_seq(i).subrange(n as int, 2 * (n as int))[j]
                                == reduced.sdata()[i * reduced.scols() + (n + j)]);
                        }
                        assert(block.row_seq(i) =~= reduced.row_seq(i).subrange(
                            n as int,
                            2 * (n as int),
                        ));
                        lemma_seq_round_subrange(
                            block.sdata(),
                            i * block.scols(),
                            (i + 1) * block.scols(),
                            Self::ROUND_DECIMALS,
                        );
                        assert(reduced.row_seq(i) == seq_round(
                            self.inverse_reduction().0[i],
                            Self::ROUND_DECIMALS,
                        ));
                    }
                }
                Ok(result)
            },
            Err(_) => {
                proof {
                    assert(false);
                }
                Err(MatrixError::Singular)
            },
        }
    }
}

} // verus!
