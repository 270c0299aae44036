//! The [`Scalar`] trait: the arithmetic interface that matrices, vectors and
//! points are built over.
use crate::text::dec_rep;
use crate::text::fmt_i64;
use crate::text::fmt_u64;
use vstd::prelude::*;

verus! {

/// Clamps a mathematical integer into the `i32` range.
pub open spec fn clamp_i32(v: int) -> i32 {
    if v > i32::MAX {
        i32::MAX
    } else if v < i32::MIN {
        i32::MIN
    } else {
        v as i32
    }
}

/// Clamps a mathematical integer into the `u32` range.
pub open spec fn clamp_u32(v: int) -> u32 {
    if v > u32::MAX {
        u32::MAX
    } else if v < 0 {
        0u32
    } else {
        v as u32
    }
}

/// Absolute value of a mathematical integer.
pub open spec fn abs_int(v: int) -> int {
    if v < 0 {
        -v
    } else {
        v
    }
}

/// Division truncated towards zero, the convention of machine division.
pub open spec fn trunc_div_int(a: int, b: int) -> int
    recommends
        b != 0,
{
    if (a < 0) == (b < 0) {
        abs_int(a) / abs_int(b)
    } else {
        -(abs_int(a) / abs_int(b))
    }
}

/// The number types a matrix, vector or point can be built over.
///
/// Every operation carries a specification-level mirror (`sadd` and the
/// rest), so that the contracts of the structures built on top can state their
/// results exactly, whatever the scalar is. Implementations inside this crate
/// are verified against those mirrors; an implementation supplied by a user of
/// the library (for instance over machine floating point, which this crate
/// cannot reason about) is taken at its word.
pub trait Scalar: Sized + Copy {
    /// The additive identity, as specifications see it.
    spec fn szero() -> Self;

    /// The multiplicative identity, as specifications see it.
    spec fn sone() -> Self;

    /// What `add` returns.
    spec fn sadd(self, rhs: Self) -> Self;

    /// What `sub` returns.
    spec fn ssub(self, rhs: Self) -> Self;

    /// What `mul` returns.
    spec fn smul(self, rhs: Self) -> Self;

    /// What `div_by` returns.
    spec fn sdiv(self, rhs: Self) -> Self;

    /// When `div_by` may be called.
    spec fn div_pre(self, rhs: Self) -> bool;

    /// When `checked_sub` returns a value.
    spec fn sub_pre(self, rhs: Self) -> bool;

    /// Whether this value counts as a vanishing pivot during elimination.
    spec fn snear_zero(self) -> bool;

    /// Whether this value has strictly greater magnitude than `rhs`.
    spec fn sabs_gt(self, rhs: Self) -> bool;

    /// What `round_dp` returns: the value rounded to `decimals` decimal digits.
    spec fn sround(self, decimals: usize) -> Self;

    /// What `to_text` renders: the value's display text, character by
    /// character.
    spec fn stext(self) -> Seq<char>;

    fn zero() -> (r: Self)
        ensures
            r == Self::szero(),
    ;

    fn one() -> (r: Self)
        ensures
            r == Self::sone(),
    ;

    fn add(self, rhs: Self) -> (r: Self)
        ensures
            r == self.sadd(rhs),
    ;

    fn sub(self, rhs: Self) -> (r: Self)
        ensures
            r == self.ssub(rhs),
    ;

    fn mul(self, rhs: Self) -> (r: Self)
        ensures
            r == self.smul(rhs),
    ;

    fn div_by(self, rhs: Self) -> (r: Self)
        requires
            self.div_pre(rhs),
        ensures
            r == self.sdiv(rhs),
    ;

    /// Subtraction that reports failure instead of overflowing.
    fn checked_sub(self, rhs: Self) -> (r: Option<Self>)
        ensures
            r == if self.sub_pre(rhs) {
                Some(self.ssub(rhs))
            } else {
                None::<Self>
            },
    ;

    fn near_zero(self) -> (r: bool)
        ensures
            r == self.snear_zero(),
    ;

    fn abs_gt(self, rhs: Self) -> (r: bool)
        ensures
            r == self.sabs_gt(rhs),
    ;

    fn eq_val(self, rhs: Self) -> (r: bool)
        ensures
            r == (self == rhs),
    ;

    fn round_dp(self, decimals: usize) -> (r: Self)
        ensures
            r == self.sround(decimals),
    ;

    /// Renders the value, for the display form of the structures above.
    fn to_text(self) -> (r: String)
        ensures
            r@ == self.stext(),
    ;

    /// Law: a value that is not near zero is a legal divisor.
    proof fn lemma_div_pre(self, rhs: Self)
        requires
            !rhs.snear_zero(),
        ensures
            self.div_pre(rhs),
    ;

    /// Law: rounding to a fixed number of decimals is idempotent.
    proof fn lemma_round_idempotent(self, decimals: usize)
        ensures
            self.sround(decimals).sround(decimals) == self.sround(decimals),
    ;
}

impl Scalar for i32 {
    open spec fn szero() -> Self {
        0i32
    }

    open spec fn sone() -> Self {
        1i32
    }

    open spec fn sadd(self, rhs: Self) -> Self {
        clamp_i32(self + rhs)
    }

    open spec fn ssub(self, rhs: Self) -> Self {
        clamp_i32(self - rhs)
    }

    open spec fn smul(self, rhs: Self) -> Self {
        clamp_i32(self * rhs)
    }

    open spec fn sdiv(self, rhs: Self) -> Self {
        clamp_i32(trunc_div_int(self as int, rhs as int))
    }

    open spec fn div_pre(self, rhs: Self) -> bool {
        rhs != 0
    }

    open spec fn sub_pre(self, rhs: Self) -> bool {
        i32::MIN <= self - rhs <= i32::MAX
    }

    open spec fn snear_zero(self) -> bool {
        self == 0
    }

    open spec fn sabs_gt(self, rhs: Self) -> bool {
        abs_int(self as int) > abs_int(rhs as int)
    }

    open spec fn sround(self, decimals: usize) -> Self {
        self
    }

    open spec fn stext(self) -> Seq<char> {
        dec_rep(self as int)
    }

    fn zero() -> Self {
        0
    }

    fn one() -> Self {
        1
    }

    fn add(self, rhs: Self) -> Self {
        let v: i64 = self as i64 + rhs as i64;
        if v > i32::MAX as i64 {
            i32::MAX
        } else if v < i32::MIN as i64 {
            i32::MIN
        } else {
            v as i32
        }
    }

    fn sub(self, rhs: Self) -> Self {
        let v: i64 = self as i64 - rhs as i64;
        if v > i32::MAX as i64 {
            i32::MAX
        } else if v < i32::MIN as i64 {
            i32::MIN
        } else {
            v as i32
        }
    }

    fn mul(self, rhs: Self) -> Self {
        let a: i64 = self as i64;
        let b: i64 = rhs as i64;
        proof {
            assert(a * b <= 0x4000_0000_0000_0000 && a * b >= -0x4000_0000_0000_0000)
                by (nonlinear_arith)
                requires
                    -0x8000_0000 <= a <= 0x7fff_ffff,
                    -0x8000_0000 <= b <= 0x7fff_ffff,
            ;
        }
        let v: i64 = a * b;
        if v > i32::MAX as i64 {
            i32::MAX
        } else if v < i32::MIN as i64 {
            i32::MIN
        } else {
            v as i32
        }
    }

    fn div_by(self, rhs: Self) -> Self {
        let a: i64 = self as i64;
        let b: i64 = rhs as i64;
        let am: i64 = if a < 0 {
            -a
        } else {
            a
        };
        let bm: i64 = if b < 0 {
            -b
        } else {
            b
        };
        let q: i64 = am / bm;
        let signed: i64 = if (a < 0) == (b < 0) {
            q
        } else {
            -q
        };
        if signed > i32::MAX as i64 {
            i32::MAX
        } else if signed < i32::MIN as i64 {
            i32::MIN
        } else {
            signed as i32
        }
    }

    fn checked_sub(self, rhs: Self) -> Option<Self> {
        let v: i64 = self as i64 - rhs as i64;
        if v > i32::MAX as i64 || v < i32::MIN as i64 {
            None
        } else {
            Some(v as i32)
        }
    }

    fn near_zero(self) -> bool {
        self == 0
    }

    fn abs_gt(self, rhs: Self) -> bool {
        let a: i64 = if self < 0 {
            -(self as i64)
        } else {
            self as i64
        };
        let b: i64 = if rhs < 0 {
            -(rhs as i64)
        } else {
            rhs as i64
        };
        a > b
    }

    fn eq_val(self, rhs: Self) -> bool {
        self == rhs
    }

    fn round_dp(self, decimals: usize) -> Self {
        self
    }

    fn to_text(self) -> String {
        fmt_i64(self as i64)
    }

    proof fn lemma_div_pre(self, rhs: Self) {
    }

    proof fn lemma_round_idempotent(self, decimals: usize) {
    }
}

impl Scalar for u32 {
    open spec fn szero() -> Self {
        0u32
    }

    open spec fn sone() -> Self {
        1u32
    }

    open spec fn sadd(self, rhs: Self) -> Self {
        clamp_u32(self + rhs)
    }

    open spec fn ssub(self, rhs: Self) -> Self {
        clamp_u32(self - rhs)
    }

    open spec fn smul(self, rhs: Self) -> Self {
        clamp_u32(self * rhs)
    }

    open spec fn sdiv(self, rhs: Self) -> Self {
        (self as int / rhs as int) as u32
    }

    open spec fn div_pre(self, rhs: Self) -> bool {
        rhs != 0
    }

    open spec fn sub_pre(self, rhs: Self) -> bool {
        rhs <= self
    }

    open spec fn snear_zero(self) -> bool {
        self == 0
    }

    open spec fn sabs_gt(self, rhs: Self) -> bool {
        self > rhs
    }

    open spec fn sround(self, decimals: usize) -> Self {
        self
    }

    open spec fn stext(self) -> Seq<char> {
        dec_rep(self as int)
    }

    fn zero() -> Self {
        0
    }

    fn one() -> Self {
        1
    }

    fn add(self, rhs: Self) -> Self {
        let v: u64 = self as u64 + rhs as u64;
        if v > u32::MAX as u64 {
            u32::MAX
        } else {
            v as u32
        }
    }

    fn sub(self, rhs: Self) -> Self {
        if rhs > self {
            0
        } else {
            self - rhs
        }
    }

    fn mul(self, rhs: Self) -> Self {
        let a: u64 = self as u64;
        let b: u64 = rhs as u64;
        proof {
            assert(a * b <= 0xffff_fffe_0000_0001) by (nonlinear_arith)
                requires
                    a <= 0xffff_ffff,
                    b <= 0xffff_ffff,
            ;
        }
        let v: u64 = a * b;
        if v > u32::MAX as u64 {
            u32::MAX
        } else {
            v as u32
        }
    }

    fn div_by(self, rhs: Self) -> Self {
        self / rhs
    }

    fn checked_sub(self, rhs: Self) -> Option<Self> {
        if rhs <= self {
            Some(self - rhs)
        } else {
            None
        }
    }

    fn near_zero(self) -> bool {
        self == 0
    }

    fn abs_gt(self, rhs: Self) -> bool {
        self > rhs
    }

    fn eq_val(self, rhs: Self) -> bool {
        self == rhs
    }

    fn round_dp(self, decimals: usize) -> Self {
        self
    }

    fn to_text(self) -> String {
        fmt_u64(self as u64)
    }

    proof fn lemma_div_pre(self, rhs: Self) {
    }

    proof fn lemma_round_idempotent(self, decimals: usize) {
    }
}

} // verus!
