//! Integer core of direct RGB-D visual odometry: image and inverse-depth
//! pyramids, image gradients, candidate point selection, extraction of the
//! usable candidates of a keyframe, and the decisions of the
//! Levenberg-Marquardt optimiser that tracks frames against it.
use vstd::prelude::*;

pub mod candidates;
pub mod colormap;
pub mod inverse_depth;
pub mod keyframe;
pub mod lm;
pub mod matrix;
pub mod multires;

verus! {

} // verus!
