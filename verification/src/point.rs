//! A pair of coordinates.

use vstd::prelude::*;

verus! {

/// A point, or a size, in two dimensions.
#[derive(Debug, PartialEq, Eq)]
pub struct Point2<T> {
    pub x: T,
    pub y: T,
}

impl<T: Copy> Copy for Point2<T> {

}

impl<T: Copy> Clone for Point2<T> {
    fn clone(&self) -> (r: Self)
        ensures
            r == *self,
    {
        *self
    }
}

impl<T> Point2<T> {
    /// The point whose two coordinates are `value`.
    pub fn repeat(value: T) -> (r: Self) where T: Copy
        ensures
            r.x == value,
            r.y == value,
    {
        Point2 { x: value, y: value }
    }

    /// Applies `f` to the `x` coordinate, then to the `y` coordinate.
    pub fn map<U, F: Fn(T) -> U>(self, f: F) -> (r: Point2<U>)
        requires
            f.requires((self.x,)),
            f.requires((self.y,)),
        ensures
            f.ensures((self.x,), r.x),
            f.ensures((self.y,), r.y),
    {
        let x = f(self.x);
        let y = f(self.y);
        Point2 { x, y }
    }

    /// Pairs the coordinates of `self` with those of `other`.
    pub fn zip<U>(self, other: Point2<U>) -> (r: Point2<(T, U)>)
        ensures
            r.x == (self.x, other.x),
            r.y == (self.y, other.y),
    {
        Point2 { x: (self.x, other.x), y: (self.y, other.y) }
    }
}

} // verus!
