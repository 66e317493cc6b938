use vstd::prelude::*;

verus! {

/// Pixel coordinates: origin at the top left, `y` growing downward.
#[derive(Clone, Copy, Debug, PartialEq, Eq, Structural)]
pub struct Position {
    pub x: u32,
    pub y: u32,
}

/// A width and a height, in pixels.
#[derive(Clone, Copy, Debug, PartialEq, Eq, Structural)]
pub struct Size {
    pub width: u32,
    pub height: u32,
}

impl Size {
    /// Both sides are positive, as a presentation surface demands.
    pub fn has_area(&self) -> (b: bool)
        ensures
            b == (self.width > 0 && self.height > 0),
    {
        self.width > 0 && self.height > 0
    }

    /// The number of pixels, where it fits in `usize`.
    pub fn area(&self) -> (n: Option<usize>)
        ensures
            n == (if self.width * self.height <= usize::MAX {
                Some((self.width * self.height) as usize)
            } else {
                None::<usize>
            }),
    {
        (self.width as usize).checked_mul(self.height as usize)
    }
}

} // verus!
