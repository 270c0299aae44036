//! [`Vector2`] type
use crate::scalar::Scalar;
use vstd::prelude::*;

verus! {

/// Holds a vector with coordinates `x`, `y` of a [`Scalar`] type
#[derive(Debug, Clone, Copy, PartialEq)]
pub struct Vector2<T: Scalar> {
    pub x: T,
    pub y: T,
}

impl<T: Scalar> Vector2<T> {
    /// Creates a new vector from coordinates
    pub fn new(x: T, y: T) -> (r: Self)
        ensures
            r.x == x,
            r.y == y,
    {
        Vector2 { x, y }
    }

    /// Componentwise subtraction that reports failure instead of overflowing,
    /// for scalars whose subtraction is partial (unsigned types).
    pub fn checked_sub(self, rhs: Self) -> (r: Option<Vector2<T>>)
        ensures
            r is Some <==> self.x.sub_pre(rhs.x) && self.y.sub_pre(rhs.y),
            r is Some ==> r.unwrap().x == self.x.ssub(rhs.x) && r.unwrap().y == self.y.ssub(
                rhs.y,
            ),
    {
        match (self.x.checked_sub(rhs.x), self.y.checked_sub(rhs.y)) {
            (Some(x), Some(y)) => Some(Vector2 { x, y }),
            _ => None,
        }
    }

    /// Returns dot product of two vectors
    pub fn dot(self, v: Self) -> (r: T)
        ensures
            r == self.x.smul(v.x).sadd(self.y.smul(v.y)),
    {
        self.x.mul(v.x).add(self.y.mul(v.y))
    }

    /// Renders the vector as `[x, y]`
    pub fn to_text(self) -> (r: String)
        ensures
            r@ == seq!['['] + self.x.stext() + seq![',', ' '] + self.y.stext() + seq![']'],
    {
        let mut s = String::new();
        s.push('[');
        s.push_str(self.x.to_text().as_str());
        s.push(',');
        s.push(' ');
        s.push_str(self.y.to_text().as_str());
        s.push(']');
        proof {
            assert(s@ =~= seq!['['] + self.x.stext() + seq![',', ' '] + self.y.stext()
                + seq![']']);
        }
        s
    }
}

impl<T: Scalar> core::ops::Add for Vector2<T> {
    type Output = Vector2<T>;

    /// Componentwise addition
    fn add(self, rhs: Self) -> Vector2<T> {
        Vector2 { x: self.x.add(rhs.x), y: self.y.add(rhs.y) }
    }
}

impl<T: Scalar> vstd::std_specs::ops::AddSpecImpl for Vector2<T> {
    open spec fn obeys_add_spec() -> bool {
        true
    }

    open spec fn add_req(self, rhs: Self) -> bool {
        true
    }

    open spec fn add_spec(self, rhs: Self) -> Self::Output {
        Vector2 { x: self.x.sadd(rhs.x), y: self.y.sadd(rhs.y) }
    }
}

impl<T: Scalar> core::ops::Sub for Vector2<T> {
    type Output = Vector2<T>;

    /// Componentwise subtraction
    fn sub(self, rhs: Self) -> Vector2<T> {
        Vector2 { x: self.x.sub(rhs.x), y: self.y.sub(rhs.y) }
    }
}

impl<T: Scalar> vstd::std_specs::ops::SubSpecImpl for Vector2<T> {
    open spec fn obeys_sub_spec() -> bool {
        true
    }

    open spec fn sub_req(self, rhs: Self) -> bool {
        true
    }

    open spec fn sub_spec(self, rhs: Self) -> Self::Output {
        Vector2 { x: self.x.ssub(rhs.x), y: self.y.ssub(rhs.y) }
    }
}

impl<T: Scalar> core::ops::Mul<T> for Vector2<T> {
    type Output = Vector2<T>;

    /// Scales both coordinates
    fn mul(self, rhs: T) -> Vector2<T> {
        Vector2 { x: self.x.mul(rhs), y: self.y.mul(rhs) }
    }
}

impl<T: Scalar> vstd::std_specs::ops::MulSpecImpl<T> for Vector2<T> {
    open spec fn obeys_mul_spec() -> bool {
        true
    }

    open spec fn mul_req(self, rhs: T) -> bool {
        true
    }

    open spec fn mul_spec(self, rhs: T) -> Self::Output {
        Vector2 { x: self.x.smul(rhs), y: self.y.smul(rhs) }
    }
}

impl<T: Scalar> From<(T, T)> for Vector2<T> {
    /// Create Vector from tuple
    fn from(tuple: (T, T)) -> Vector2<T> {
        Vector2 { x: tuple.0, y: tuple.1 }
    }
}

impl<T: Scalar> vstd::std_specs::convert::FromSpecImpl<(T, T)> for Vector2<T> {
    open spec fn obeys_from_spec() -> bool {
        true
    }

    open spec fn from_spec(tuple: (T, T)) -> Self {
        Vector2 { x: tuple.0, y: tuple.1 }
    }
}

impl<T: Scalar> From<Vector2<T>> for (T, T) {
    /// Create tuple from vector
    fn from(val: Vector2<T>) -> (T, T) {
        (val.x, val.y)
    }
}

impl<T: Scalar> vstd::std_specs::convert::FromSpecImpl<Vector2<T>> for (T, T) {
    open spec fn obeys_from_spec() -> bool {
        true
    }

    open spec fn from_spec(val: Vector2<T>) -> Self {
        (val.x, val.y)
    }
}

} // verus!
