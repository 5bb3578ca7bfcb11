//! Points on the screen.

use vstd::prelude::*;

verus! {

/// A point in screen coordinates; `x` grows to the right and `y` downwards.
#[derive(Clone, Copy)]
pub struct Point {
    x: i32,
    y: i32,
}

impl View for Point {
    type V = (i32, i32);

    closed spec fn view(&self) -> (i32, i32) {
        (self.x, self.y)
    }
}

impl Point {
    pub fn new(x: i32, y: i32) -> (p: Point)
        ensures
            p@ == (x, y),
    {
        Point { x, y }
    }

    /// The point on the diagonal with both coordinates `v`.
    pub fn xy(v: i32) -> (p: Point)
        ensures
            p@ == (v, v),
    {
        Point { x: v, y: v }
    }

    pub fn x(&self) -> (v: i32)
        ensures
            v == self@.0,
    {
        self.x
    }

    pub fn y(&self) -> (v: i32)
        ensures
            v == self@.1,
    {
        self.y
    }
}

} // verus!
