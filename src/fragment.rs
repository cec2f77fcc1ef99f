//! The first step of the fragment stage: placing a fragment in the plane
//! where the torus is drawn, centred on the viewport and scaled by its
//! height so that the pattern keeps its shape in any window.
use vstd::prelude::*;

use crate::viewport::Viewport;

verus! {

/// The point `(x / den, y / den)` of the normalized plane.
#[derive(Clone, Copy, Debug, PartialEq, Eq, Structural)]
pub struct NormalizedCoord {
    pub x: i64,
    pub y: i64,
    pub den: u32,
}

/// The exact normalized point `(2 * frag - size) / size.y` of a fragment,
/// with the fragment's window coordinate given doubled: `frag_x2 / 2` is its
/// x, `frag_y2 / 2` its y. Doubled, pixel centres and the viewport's centre
/// are whole numbers.
pub open spec fn normalized(frag_x2: int, frag_y2: int, viewport: Viewport) -> (int, int, int) {
    (frag_x2 - viewport.width, frag_y2 - viewport.height, viewport.height as int)
}

/// Maps a fragment into the normalized plane: `p = (2 * frag - size) /
/// size.y`, kept as a fraction over the viewport's height.
pub fn normalize(frag_x2: u32, frag_y2: u32, viewport: Viewport) -> (r: NormalizedCoord)
    ensures
        (r.x as int, r.y as int, r.den as int) == normalized(
            frag_x2 as int,
            frag_y2 as int,
            viewport,
        ),
{
    NormalizedCoord {
        x: frag_x2 as i64 - viewport.width as i64,
        y: frag_y2 as i64 - viewport.height as i64,
        den: viewport.height,
    }
}

/// The centre of the viewport, square or not, is the origin of the
/// normalized plane.
pub proof fn lemma_centre_is_origin(viewport: Viewport)
    ensures
        normalized(viewport.width as int, viewport.height as int, viewport).0 == 0,
        normalized(viewport.width as int, viewport.height as int, viewport).1 == 0,
{
}

} // verus!
