//! The "2-D plane of booleans" that is the conceptual model of a bitstream,
//! and the coordinates that address single bits within it.

use vstd::prelude::*;

verus! {

/// An `(x, y)` coordinate.
///
/// This library uses the "graphics" coordinate convention where +x is right
/// and +y is down.
#[derive(Clone, Copy, PartialEq, Eq, Structural, Debug, Hash)]
pub struct Coordinate {
    pub x: usize,
    pub y: usize,
}

impl Coordinate {
    pub fn new(x: usize, y: usize) -> (r: Self)
        ensures
            r.x == x,
            r.y == y,
    {
        Self { x, y }
    }

    /// Offset arithmetic for tile-relative addressing: subtract on the x
    /// axis while adding on the y axis.
    pub fn sub_x_add_y(self, rhs: Self) -> (r: Self)
        requires
            rhs.x <= self.x,
            self.y + rhs.y <= usize::MAX,
        ensures
            r.x == self.x - rhs.x,
            r.y == self.y + rhs.y,
    {
        Self { x: self.x - rhs.x, y: self.y + rhs.y }
    }

    /// Offset arithmetic for tile-relative addressing: add on the x axis
    /// while subtracting on the y axis.
    pub fn add_x_sub_y(self, rhs: Self) -> (r: Self)
        requires
            self.x + rhs.x <= usize::MAX,
            rhs.y <= self.y,
        ensures
            r.x == self.x + rhs.x,
            r.y == self.y - rhs.y,
    {
        Self { x: self.x + rhs.x, y: self.y - rhs.y }
    }

    /// Component-wise sum of two coordinates.
    pub fn add(self, rhs: Self) -> (r: Self)
        requires
            self.x + rhs.x <= usize::MAX,
            self.y + rhs.y <= usize::MAX,
        ensures
            r.x == self.x + rhs.x,
            r.y == self.y + rhs.y,
    {
        Self { x: self.x + rhs.x, y: self.y + rhs.y }
    }

    /// Component-wise difference of two coordinates.
    pub fn sub(self, rhs: Self) -> (r: Self)
        requires
            rhs.x <= self.x,
            rhs.y <= self.y,
        ensures
            r.x == self.x - rhs.x,
            r.y == self.y - rhs.y,
    {
        Self { x: self.x - rhs.x, y: self.y - rhs.y }
    }
}

impl Default for Coordinate {
    fn default() -> (r: Self)
        ensures
            r.x == 0,
            r.y == 0,
    {
        Self { x: 0, y: 0 }
    }
}

/// Trait to be implemented by the struct that owns a bitstream's actual
/// bit data. It is the sole mutation surface of the whole library: every
/// higher layer reads and writes bits only through `get` and `set`.
pub trait BitArray {
    /// Which coordinates lie within the plane.
    spec fn spec_valid(&self, c: Coordinate) -> bool;

    /// The bit stored at a coordinate.
    spec fn spec_get(&self, c: Coordinate) -> bool;

    /// Read one bit. Out-of-range coordinates are a caller error, ruled out
    /// by the precondition.
    fn get(&self, c: Coordinate) -> (r: bool)
        requires
            self.spec_valid(c),
        ensures
            r == self.spec_get(c),
    ;

    /// Write one bit in place, leaving every other bit and the shape of the
    /// plane unchanged.
    fn set(&mut self, c: Coordinate, val: bool)
        requires
            old(self).spec_valid(c),
        ensures
            final(self).spec_get(c) == val,
            forall|c2: Coordinate| c2 != c ==> final(self).spec_get(c2) == old(self).spec_get(c2),
            forall|c2: Coordinate| final(self).spec_valid(c2) == old(self).spec_valid(c2),
    ;
}

} // verus!
