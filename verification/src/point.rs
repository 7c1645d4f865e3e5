//! Integer screen coordinates.

use core::ops::{Add, Sub};
use vstd::prelude::*;

verus! {

/// A position, or a step between two positions, on the integer grid.
#[derive(Copy, Clone, Debug, PartialEq, Eq, Structural)]
pub struct Point {
    pub x: i32,
    pub y: i32,
}

impl Default for Point {
    fn default() -> (p: Point)
        ensures
            p == (Point { x: 0, y: 0 }),
    {
        Point { x: 0, y: 0 }
    }
}

impl Point {
    pub fn new(x: i32, y: i32) -> (p: Point)
        ensures
            p == (Point { x, y }),
    {
        Point { x, y }
    }

    /// The point with the absolute value of each coordinate.
    pub fn abs(self) -> (p: Point)
        requires
            self.x > i32::MIN,
            self.y > i32::MIN,
        ensures
            p.x == if self.x < 0 {
                -self.x
            } else {
                self.x as int
            },
            p.y == if self.y < 0 {
                -self.y
            } else {
                self.y as int
            },
    {
        Point {
            x: if self.x < 0 {
                -self.x
            } else {
                self.x
            },
            y: if self.y < 0 {
                -self.y
            } else {
                self.y
            },
        }
    }

    /// Exchanges the two coordinates.
    pub fn swap_xy(&mut self)
        ensures
            *final(self) == (Point { x: old(self).y, y: old(self).x }),
    {
        core::mem::swap(&mut self.x, &mut self.y);
    }

    /// Whether a coordinate pair lies in the range that a point can hold.
    pub open spec fn representable(x: int, y: int) -> bool {
        i32::MIN <= x <= i32::MAX && i32::MIN <= y <= i32::MAX
    }

    /// Moves the point by `rhs`.
    pub fn add_assign(&mut self, rhs: Point)
        requires
            Point::representable(old(self).x + rhs.x, old(self).y + rhs.y),
        ensures
            final(self).x == old(self).x + rhs.x,
            final(self).y == old(self).y + rhs.y,
    {
        self.x = self.x + rhs.x;
        self.y = self.y + rhs.y;
    }

    /// Moves the point back by `rhs`.
    pub fn sub_assign(&mut self, rhs: Point)
        requires
            Point::representable(old(self).x - rhs.x, old(self).y - rhs.y),
        ensures
            final(self).x == old(self).x - rhs.x,
            final(self).y == old(self).y - rhs.y,
    {
        self.x = self.x - rhs.x;
        self.y = self.y - rhs.y;
    }
}

impl Add for Point {
    type Output = Point;

    fn add(self, other: Point) -> (sum: Point) {
        Point::new(self.x + other.x, self.y + other.y)
    }
}

impl vstd::std_specs::ops::AddSpecImpl for Point {
    open spec fn obeys_add_spec() -> bool {
        true
    }

    open spec fn add_req(self, other: Point) -> bool {
        Point::representable(self.x + other.x, self.y + other.y)
    }

    open spec fn add_spec(self, other: Point) -> Point {
        Point { x: (self.x + other.x) as i32, y: (self.y + other.y) as i32 }
    }
}

impl Sub for Point {
    type Output = Point;

    fn sub(self, rhs: Point) -> (difference: Point) {
        Point::new(self.x - rhs.x, self.y - rhs.y)
    }
}

impl vstd::std_specs::ops::SubSpecImpl for Point {
    open spec fn obeys_sub_spec() -> bool {
        true
    }

    open spec fn sub_req(self, rhs: Point) -> bool {
        Point::representable(self.x - rhs.x, self.y - rhs.y)
    }

    open spec fn sub_spec(self, rhs: Point) -> Point {
        Point { x: (self.x - rhs.x) as i32, y: (self.y - rhs.y) as i32 }
    }
}

} // verus!
