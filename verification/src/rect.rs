//! Axis-aligned rectangles on the tile grid, used for the generated rooms.

use vstd::prelude::*;

verus! {

/// A rectangle given by its four edges.  A room `Rect` built by
/// [`Rect::new`] keeps `lft <= rht` and `top <= bot`.
#[derive(Clone, Copy, Debug, PartialEq, Eq, Structural)]
pub struct Rect {
    pub top: i32,
    pub lft: i32,
    pub bot: i32,
    pub rht: i32,
}

impl Rect {
    /// Builds the rectangle with left edge `lft`, top edge `top`, width
    /// `wid` and height `hgt`.
    pub fn new(lft: i32, top: i32, wid: i32, hgt: i32) -> (r: Rect)
        requires
            i32::MIN <= lft + wid <= i32::MAX,
            i32::MIN <= top + hgt <= i32::MAX,
        ensures
            r.lft == lft,
            r.top == top,
            r.rht == lft + wid,
            r.bot == top + hgt,
    {
        Rect { top, lft, bot: top + hgt, rht: lft + wid }
    }

    /// True exactly when the two rectangles overlap or touch.
    pub fn intersect(&self, other: &Rect) -> (r: bool)
        ensures
            r == (self.lft <= other.rht && self.rht >= other.lft
                && self.top <= other.bot && self.bot >= other.top),
    {
        self.lft <= other.rht && self.rht >= other.lft && self.top <= other.bot
            && self.bot >= other.top
    }

    /// The centre tile of the rectangle, rounding each axis down.
    pub fn center(&self) -> (r: (i32, i32))
        requires
            0 <= self.lft + self.rht <= i32::MAX,
            0 <= self.top + self.bot <= i32::MAX,
        ensures
            r.0 == (self.lft + self.rht) / 2,
            r.1 == (self.top + self.bot) / 2,
    {
        ((self.lft + self.rht) / 2, (self.top + self.bot) / 2)
    }
}

} // verus!
