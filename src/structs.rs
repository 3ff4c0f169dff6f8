//! A plain rectangle with integer sides.
use vstd::prelude::*;

verus! {

#[derive(Debug, Clone, Copy, PartialEq, Eq, Structural)]
pub struct Rect {
    pub w: u32,
    pub h: u32,
}

impl Rect {
    /// Width times height; the product must fit in a `u32`.
    pub fn area(&self) -> (r: u32)
        requires
            self.w * self.h <= u32::MAX,
        ensures
            r == self.w * self.h,
    {
        self.w * self.h
    }

    /// Turns the rectangle into a square of side `s`.
    pub fn make_square(&mut self, s: u32)
        ensures
            *final(self) == (Rect { w: s, h: s }),
    {
        self.w = s;
        self.h = s;
    }
}

/// Area of a borrowed rectangle, as `Rect::area`.
pub fn area_ref(r: &Rect) -> (a: u32)
    requires
        r.w * r.h <= u32::MAX,
    ensures
        a == r.w * r.h,
{
    r.w * r.h
}

} // verus!
