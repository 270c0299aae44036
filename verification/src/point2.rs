//! [`Point2`] type
use crate::scalar::Scalar;
use crate::vector2::Vector2;
use vstd::prelude::*;

verus! {

/// Represents a point in 2d space
/// # Members
/// * `x` and `y` - coordinates of point, of a type which implements [`Scalar`]
#[derive(Debug, Clone, Copy, PartialEq)]
pub struct Point2<T: Scalar> {
    pub x: T,
    pub y: T,
}

impl<T: Scalar> Point2<T> {
    pub fn new(x: T, y: T) -> (r: Point2<T>)
        ensures
            r.x == x,
            r.y == y,
    {
        Point2 { x, y }
    }

    /// Performs a checked subtraction of a vector from a point, reporting
    /// failure instead of overflowing.
    ///
    /// # Arguments
    /// * `rhs` - vector to subtract
    pub fn checked_sub(self, rhs: Vector2<T>) -> (r: Option<Point2<T>>)
        ensures
            r is Some <==> self.x.sub_pre(rhs.x) && self.y.sub_pre(rhs.y),
            r is Some ==> r.unwrap().x == self.x.ssub(rhs.x) && r.unwrap().y == self.y.ssub(
                rhs.y,
            ),
    {
        match (self.x.checked_sub(rhs.x), self.y.checked_sub(rhs.y)) {
            (Some(x), Some(y)) => Some(Point2 { x, y }),
            _ => None,
        }
    }

    /// Renders the point as `(x, y)`
    pub fn to_text(self) -> (r: String)
        ensures
            r@ == seq!['('] + self.x.stext() + seq![',', ' '] + self.y.stext() + seq![')'],
    {
        let mut s = String::new();
        s.push('(');
        s.push_str(self.x.to_text().as_str());
        s.push(',');
        s.push(' ');
        s.push_str(self.y.to_text().as_str());
        s.push(')');
        proof {
            assert(s@ =~= seq!['('] + self.x.stext() + seq![',', ' '] + self.y.stext()
                + seq![')']);
        }
        s
    }
}

impl<T: Scalar> core::ops::Add<Vector2<T>> for Point2<T> {
    type Output = Point2<T>;

    /// Translates the point by a vector
    fn add(self, rhs: Vector2<T>) -> Point2<T> {
        Point2 { x: self.x.add(rhs.x), y: self.y.add(rhs.y) }
    }
}

impl<T: Scalar> vstd::std_specs::ops::AddSpecImpl<Vector2<T>> for Point2<T> {
    open spec fn obeys_add_spec() -> bool {
        true
    }

    open spec fn add_req(self, rhs: Vector2<T>) -> bool {
        true
    }

    open spec fn add_spec(self, rhs: Vector2<T>) -> Self::Output {
        Point2 { x: self.x.sadd(rhs.x), y: self.y.sadd(rhs.y) }
    }
}

impl<T: Scalar> core::ops::Sub<Vector2<T>> for Point2<T> {
    type Output = Point2<T>;

    /// Translates the point backwards along a vector
    fn sub(self, rhs: Vector2<T>) -> Point2<T> {
        Point2 { x: self.x.sub(rhs.x), y: self.y.sub(rhs.y) }
    }
}

impl<T: Scalar> vstd::std_specs::ops::SubSpecImpl<Vector2<T>> for Point2<T> {
    open spec fn obeys_sub_spec() -> bool {
        true
    }

    open spec fn sub_req(self, rhs: Vector2<T>) -> bool {
        true
    }

    open spec fn sub_spec(self, rhs: Vector2<T>) -> Self::Output {
        Point2 { x: self.x.ssub(rhs.x), y: self.y.ssub(rhs.y) }
    }
}

impl<T: Scalar> From<(T, T)> for Point2<T> {
    /// Create point from tuple
    fn from(tuple: (T, T)) -> Point2<T> {
        Point2 { x: tuple.0, y: tuple.1 }
    }
}

impl<T: Scalar> vstd::std_specs::convert::FromSpecImpl<(T, T)> for Point2<T> {
    open spec fn obeys_from_spec() -> bool {
        true
    }

    open spec fn from_spec(tuple: (T, T)) -> Self {
        Point2 { x: tuple.0, y: tuple.1 }
    }
}

impl<T: Scalar> From<Point2<T>> for (T, T) {
    /// Create tuple of point
    fn from(val: Point2<T>) -> (T, T) {
        (val.x, val.y)
    }
}

impl<T: Scalar> vstd::std_specs::convert::FromSpecImpl<Point2<T>> for (T, T) {
    open spec fn obeys_from_spec() -> bool {
        true
    }

    open spec fn from_spec(val: Point2<T>) -> Self {
        (val.x, val.y)
    }
}

} // verus!
