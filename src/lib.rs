// Decoders for the skeleton, skin and animation asset formats, and the joint-by-joint
// plan of a pose. Floating-point values travel as their IEEE-754 bit patterns; the
// arithmetic on them is left to the caller.
use vstd::prelude::*;

pub mod bytes;
pub mod hasher;
pub mod values;
pub mod skl;
pub mod skn;
pub mod anm;
pub mod pose;

verus! {

} // verus!
