//! A full-screen triangle that shows a signed-distance-field torus: the
//! integer side of its shader stages and the decisions of its host loop.
use vstd::prelude::*;

pub mod fragment;
pub mod host;
pub mod vertex;
pub mod viewport;

verus! {

} // verus!
