//! The size of the drawing area, the one piece of state that outlives a frame.
use vstd::prelude::*;

verus! {

/// A viewport of `width` by `height` physical pixels.
#[derive(Clone, Copy, Debug, PartialEq, Eq, Structural)]
pub struct Viewport {
    pub width: u32,
    pub height: u32,
}

impl Viewport {
    pub fn new(width: u32, height: u32) -> (r: Viewport)
        ensures
            r.width == width,
            r.height == height,
    {
        Viewport { width, height }
    }
}

} // verus!
