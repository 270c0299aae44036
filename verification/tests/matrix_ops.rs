use vatnar_linalg::Matrix;
use vatnar_linalg::MatrixError;
use vatnar_linalg::Scalar;
use vstd::prelude::Seq;

/// Double-precision scalar: the number type the matrix engine is meant to run
/// on in practice.
#[derive(Debug, Clone, Copy, PartialEq)]
struct F(f64);

impl Scalar for F {
    // The specification-level items of the trait compile down to plain
    // functions that are never run; these stand-ins satisfy the compiler.
    fn szero() -> F {
        F(0.0)
    }

    fn sone() -> F {
        F(1.0)
    }

    fn sadd(self, rhs: F) -> F {
        self.add(rhs)
    }

    fn ssub(self, rhs: F) -> F {
        self.sub(rhs)
    }

    fn smul(self, rhs: F) -> F {
        self.mul(rhs)
    }

    fn sdiv(self, rhs: F) -> F {
        self.div_by(rhs)
    }

    fn div_pre(self, _rhs: F) -> bool {
        true
    }

    fn sub_pre(self, _rhs: F) -> bool {
        true
    }

    fn snear_zero(self) -> bool {
        self.near_zero()
    }

    fn sabs_gt(self, rhs: F) -> bool {
        self.abs_gt(rhs)
    }

    fn sround(self, decimals: usize) -> F {
        self.round_dp(decimals)
    }

    fn stext(self) -> Seq<char> {
        // specification-level: erased, never run, and Seq has no run-time value
        panic!()
    }

    fn lemma_div_pre(self, _rhs: F) {
    }

    fn lemma_round_idempotent(self, _decimals: usize) {
    }

    fn zero() -> F {
        F(0.0)
    }

    fn one() -> F {
        F(1.0)
    }

    fn add(self, rhs: F) -> F {
        F(self.0 + rhs.0)
    }

    fn sub(self, rhs: F) -> F {
        F(self.0 - rhs.0)
    }

    fn mul(self, rhs: F) -> F {
        F(self.0 * rhs.0)
    }

    fn div_by(self, rhs: F) -> F {
        F(self.0 / rhs.0)
    }

    fn checked_sub(self, rhs: F) -> Option<F> {
        Some(F(self.0 - rhs.0))
    }

    fn near_zero(self) -> bool {
        self.0.abs() < f64::EPSILON
    }

    fn abs_gt(self, rhs: F) -> bool {
        self.0.abs() > rhs.0.abs()
    }

    fn eq_val(self, rhs: F) -> bool {
        self.0 == rhs.0
    }

    fn round_dp(self, decimals: usize) -> F {
        let factor = 10f64.powi(decimals as i32);
        F((self.0 * factor).round() / factor)
    }

    fn to_text(self) -> String {
        format!("{}", self.0)
    }
}

fn fv(xs: &[f64]) -> Vec<F> {
    xs.iter().map(|&x| F(x)).collect()
}

fn fm(rows: usize, cols: usize, xs: &[f64]) -> Matrix<F> {
    Matrix::new(rows, cols, fv(xs).as_slice()).unwrap()
}

fn entry(m: &Matrix<F>, row: usize, col: usize) -> f64 {
    m.get(row, col).unwrap().0
}

#[test]
fn test_matrix() {
    let mut m = Matrix::<F>::empty(2, 2);

    assert_eq!(m.len(), 0);
    m.insert(fv(&[0.0, 0.0, 1.0, 0.0]).as_slice()).unwrap();

    assert_eq!(m.capacity(), 4);

    let m = fv(&[
        1.0, 2.0, 3.0, 4.0,
        5.0, 5.0, 4.0, 3.0,
        2.0, 3.0, -4.0, 3.0,
        3.0, 1.0, 3.0, -4.0,
    ]);

    let m = Matrix::new(4, 4, m.as_slice()).unwrap();
    assert_eq!(m.len(), 16);
    assert_eq!(m.capacity(), 16);

    let _m2 = m.inverse();
}

#[test]
fn test_matrix_eq() {
    let m = fm(4, 4, &[
        1.0, 2.0, 3.0, 4.0,
        5.0, 5.0, 4.0, 3.0,
        2.0, 3.0, -4.0, 3.0,
        3.0, 1.0, 3.0, -4.0,
    ]);

    let n = m.clone();

    assert_eq!(m, n)
}

#[test]
fn test_matrix_reduce() {
    let m = fm(4, 4, &[
        1.0, 2.0, 3.0, 4.0,
        5.0, 5.0, 4.0, 3.0,
        2.0, 3.0, -4.0, 3.0,
        3.0, 1.0, 3.0, -4.0,
    ]);

    let _n = m.echelon();
    let _o = m.reduced_echelon(0);
}

#[test]
fn test_matrix_sub() {
    let m = fm(4, 4, &[
        1.0, 2.0, 3.0, 4.0,
        5.0, 5.0, 4.0, 3.0,
        2.0, 3.0, -4.0, 3.0,
        3.0, 1.0, 3.0, -4.0,
    ]);

    let n = m.submatrix((1, 2), (2, 3)).unwrap();

    println!("m_rows: {} \nm_cols: {} \nm: {}", m.rows(), m.cols(), m.render());
    println!("n_rows: {} \nn_cols: {} \nn: {}", n.rows(), n.cols(), n.render());
    assert_eq!(n.rows(), 2);
    assert_eq!(n.cols(), 2);
    assert_eq!(entry(&n, 1, 1), 2.0);
    assert_eq!(entry(&n, 1, 2), 3.0);
    assert_eq!(entry(&n, 2, 1), 5.0);
    assert_eq!(entry(&n, 2, 2), 4.0);
}

#[test]
fn test_matrix_viewsub() {
    let m = fm(4, 4, &[
        1.0, 2.0, 3.0, 4.0,
        5.0, 5.0, 4.0, 3.0,
        2.0, 3.0, -4.0, 3.0,
        3.0, 1.0, 3.0, -4.0,
    ]);

    let n = m.view((1, 2), (2, 3)).unwrap();
    let n = n.to_matrix();

    println!("m_rows: {} \nm_cols: {} \nm: {}", m.rows(), m.cols(), m.render());
    println!("n_rows: {} \nn_cols: {} \nn: {}", n.rows(), n.cols(), n.render());
    assert_eq!(n, m.submatrix((1, 2), (2, 3)).unwrap());
}

#[test]
fn test_matrix_echelon() {
    let m = fm(4, 4, &[
        1.0, 2.0, 3.0, 4.0,
        5.0, 5.0, 4.0, 3.0,
        2.0, 3.0, -4.0, 3.0,
        3.0, 1.0, 3.0, -4.0,
    ]);
    let n = m.echelon();

    println!("{}", m.render());
    println!("{}", n.render());
}

#[test]
fn test_matrix_echelon2() {
    let m = fm(2, 4, &[
        3.0, -2.0, -3.0, 3.0,
        2.0, 3.0, 3.0, 2.0,
    ]);
    let n = m.echelon();

    let u = m.reduced_echelon(0);

    println!("{}", m.render());
    println!("{}", n.render());
    println!("{}", u.render())
}

#[test]
fn test_matrix_inverse() {
    let m = fm(3, 3, &[
        2.0, 1.0, 1.0,
        1.0, 3.0, 2.0,
        1.0, 0.0, 0.0,
    ]);
    let m_inverse = m.inverse().unwrap();
    println!("{}, {}", m.render(), m_inverse.render())
}

// The output of echelon satisfies the row-echelon shape: every row's leading
// non-zero entry lies strictly right of the one above, and the column below
// each leading entry is zero.
fn assert_echelon_shape(m: &Matrix<F>) {
    let mut previous_lead: Option<usize> = None;
    for r in 1..=m.rows() {
        let mut lead: Option<usize> = None;
        for c in 1..=m.cols() {
            if entry(m, r, c) != 0.0 {
                lead = Some(c);
                break;
            }
        }
        if let Some(c) = lead {
            if let Some(p) = previous_lead {
                assert!(c > p, "row {} leads at column {}, not right of {}", r, c, p);
            }
            for below in (r + 1)..=m.rows() {
                assert_eq!(entry(m, below, c), 0.0, "row {} has a residue under the pivot", below);
            }
            previous_lead = Some(c);
        } else {
            // an all-zero row: every later row must be all zero as well
            for below in (r + 1)..=m.rows() {
                for c in 1..=m.cols() {
                    assert_eq!(entry(m, below, c), 0.0);
                }
            }
        }
    }
}

#[test]
fn test_echelon_invariant() {
    let m = fm(4, 4, &[
        1.0, 2.0, 3.0, 4.0,
        5.0, 5.0, 4.0, 3.0,
        2.0, 3.0, -4.0, 3.0,
        3.0, 1.0, 3.0, -4.0,
    ]);
    assert_echelon_shape(&m.echelon());

    let m = fm(2, 4, &[
        3.0, -2.0, -3.0, 3.0,
        2.0, 3.0, 3.0, 2.0,
    ]);
    assert_echelon_shape(&m.echelon());

    // rank-deficient: a duplicated row must drop out
    let m = fm(3, 3, &[
        1.0, 2.0, 3.0,
        2.0, 4.0, 6.0,
        0.0, 1.0, 1.0,
    ]);
    assert_echelon_shape(&m.echelon());
}

#[test]
fn test_reduced_echelon_idempotent() {
    let m = fm(2, 4, &[
        3.0, -2.0, -3.0, 3.0,
        2.0, 3.0, 3.0, 2.0,
    ]);
    let once = m.reduced_echelon(0);
    let twice = once.reduced_echelon(0);
    assert_eq!(twice, once);

    let m = fm(4, 4, &[
        1.0, 2.0, 3.0, 4.0,
        5.0, 5.0, 4.0, 3.0,
        2.0, 3.0, -4.0, 3.0,
        3.0, 1.0, 3.0, -4.0,
    ]);
    let once = m.reduced_echelon(0);
    assert_eq!(once.reduced_echelon(0), once);
}

#[test]
fn test_truncate_idempotent() {
    let m = fm(2, 2, &[
        1.234567, -0.000004,
        3.999995, 2.5,
    ]);
    for d in 0..8usize {
        let once = m.truncate(d);
        assert_eq!(once.truncate(d), once);
    }
}

#[test]
fn test_inverse_identity() {
    let m = fm(2, 2, &[1.0, 0.0, 0.0, 1.0]);
    let inv = m.inverse().unwrap();
    assert_eq!(inv, fm(2, 2, &[1.0, 0.0, 0.0, 1.0]));
}

#[test]
fn test_echelon_pivot_positions() {
    let m = fm(2, 4, &[
        3.0, -2.0, -3.0, 3.0,
        2.0, 3.0, 3.0, 2.0,
    ]);
    let n = m.echelon();
    // first row keeps its pivot position and value
    assert_eq!(entry(&n, 1, 1), 3.0);
    // the second row's leading entry moved to column 2 or later
    assert_eq!(entry(&n, 2, 1), 0.0);
    assert!(entry(&n, 2, 2) != 0.0);
}

#[test]
fn test_inverse_exact_3x3() {
    let m = fm(3, 3, &[
        2.0, 1.0, 1.0,
        1.0, 3.0, 2.0,
        1.0, 0.0, 0.0,
    ]);
    let inv = m.inverse().unwrap();
    let expected = [
        0.0, 0.0, 1.0,
        -2.0, 1.0, 3.0,
        3.0, -1.0, -5.0,
    ];
    for r in 1..=3 {
        for c in 1..=3 {
            let got = entry(&inv, r, c);
            let want = expected[(r - 1) * 3 + (c - 1)];
            assert!((got - want).abs() < 1e-4, "at ({}, {}): got {}, want {}", r, c, got, want);
        }
    }
}

#[test]
fn test_inverse_roundtrip() {
    let a = fm(3, 3, &[
        2.0, 1.0, 1.0,
        1.0, 3.0, 2.0,
        1.0, 0.0, 0.0,
    ]);
    let inv = a.inverse().unwrap();
    // a * inverse(a) approximates the identity within a fixed tolerance
    for r in 1..=3 {
        for c in 1..=3 {
            let mut sum = 0.0;
            for k in 1..=3 {
                sum += entry(&a, r, k) * entry(&inv, k, c);
            }
            let want = if r == c { 1.0 } else { 0.0 };
            assert!((sum - want).abs() < 1e-4, "at ({}, {}): got {}", r, c, sum);
        }
    }

    let b = fm(2, 2, &[1.0, 2.0, 3.0, 4.0]);
    let inv = b.inverse().unwrap();
    for r in 1..=2 {
        for c in 1..=2 {
            let mut sum = 0.0;
            for k in 1..=2 {
                sum += entry(&b, r, k) * entry(&inv, k, c);
            }
            let want = if r == c { 1.0 } else { 0.0 };
            assert!((sum - want).abs() < 1e-4, "at ({}, {}): got {}", r, c, sum);
        }
    }
}

#[test]
fn test_submatrix_row_constant() {
    let m = fm(4, 4, &[
        1.0, 1.0, 1.0, 1.0,
        4.0, 2.0, 2.0, 6.0,
        3.0, 3.0, 3.0, 3.0,
        4.0, 4.0, 4.0, 4.0,
    ]);
    let sub = m.submatrix((1, 2), (2, 3)).unwrap();
    assert_eq!(sub, fm(2, 2, &[1.0, 1.0, 2.0, 2.0]));
}

#[test]
fn test_new_dimension_mismatch() {
    let r = Matrix::new(2, 2, fv(&[1.0, 2.0, 3.0]).as_slice());
    assert_eq!(r.unwrap_err(), MatrixError::DimensionMismatch { expected: 4, actual: 3 });
}

#[test]
fn test_insert_dimension_mismatch() {
    let mut m = Matrix::<F>::empty(2, 2);
    let r = m.insert(fv(&[1.0, 2.0]).as_slice());
    assert_eq!(r.unwrap_err(), MatrixError::DimensionMismatch { expected: 4, actual: 2 });
    assert!(m.is_empty());
}

#[test]
fn test_get_out_of_bounds() {
    let m = fm(2, 2, &[1.0, 2.0, 3.0, 4.0]);
    assert_eq!(
        m.get(0, 1).unwrap_err(),
        MatrixError::OutOfBounds { row: 0, col: 1, rows: 2, cols: 2 }
    );
    assert_eq!(
        m.get(1, 3).unwrap_err(),
        MatrixError::OutOfBounds { row: 1, col: 3, rows: 2, cols: 2 }
    );
    assert_eq!(entry(&m, 2, 1), 3.0);
}

#[test]
fn test_submatrix_invalid_range() {
    let m = fm(2, 2, &[1.0, 2.0, 3.0, 4.0]);
    assert_eq!(
        m.submatrix((2, 1), (1, 2)).unwrap_err(),
        MatrixError::InvalidRange { start: 2, end: 1, limit: 2 }
    );
    assert_eq!(
        m.submatrix((1, 2), (1, 3)).unwrap_err(),
        MatrixError::InvalidRange { start: 1, end: 3, limit: 2 }
    );
    assert!(m.view((0, 1), (1, 2)).is_err());
}

#[test]
fn test_error_messages() {
    let e = MatrixError::OutOfBounds { row: 3, col: 1, rows: 2, cols: 2 };
    assert_eq!(e.message(), "index out of bounds: requested (3, 1), matrix is 2x2");
    let e = MatrixError::DimensionMismatch { expected: 4, actual: 3 };
    assert_eq!(e.message(), "dimension mismatch: expected 4 values, got 3");
    assert_eq!(MatrixError::Singular.message(), "matrix is singular");
}

#[test]
fn test_inverse_not_square() {
    let m = fm(2, 3, &[1.0, 2.0, 3.0, 4.0, 5.0, 6.0]);
    assert_eq!(m.inverse().unwrap_err(), MatrixError::NotSquare { rows: 2, cols: 3 });
}

#[test]
fn test_inverse_singular() {
    let m = fm(2, 2, &[1.0, 1.0, 1.0, 1.0]);
    assert_eq!(m.inverse().unwrap_err(), MatrixError::Singular);
}

#[test]
fn test_row_eq() {
    let a = fm(2, 2, &[1.0, 0.0, 0.0, 1.0]);
    let b = fm(2, 2, &[2.0, 0.0, 0.0, 3.0]);
    assert!(a.row_eq(&b));
    let c = fm(2, 2, &[1.0, 1.0, 1.0, 1.0]);
    assert!(!a.row_eq(&c));
}

#[test]
fn test_inverse_smallest() {
    let m = fm(1, 1, &[2.0]);
    let inv = m.inverse().unwrap();
    assert_eq!(entry(&inv, 1, 1), 0.5);

    let zero = fm(1, 1, &[0.0]);
    assert_eq!(zero.inverse().unwrap_err(), MatrixError::Singular);
}

#[test]
fn test_echelon_aug_excludes_augmented_columns() {
    // the last column is augmented: it receives row operations but no pivot
    // is sought in it
    let m = fm(2, 3, &[0.0, 1.0, 5.0, 2.0, 4.0, 6.0]);
    let e = m.echelon_aug(1);
    assert_eq!(e, fm(2, 3, &[2.0, 4.0, 6.0, 0.0, 1.0, 5.0]));

    let r = m.reduced_echelon(1);
    assert_eq!(r, fm(2, 3, &[1.0, 0.0, -7.0, 0.0, 1.0, 5.0]));
}

#[test]
fn test_render_grid() {
    let m = Matrix::new(2, 2, &[1i32, 2, 3, 4]).unwrap();
    assert_eq!(m.render(), "Matrix\n1 2 \n3 4 \n");
}
