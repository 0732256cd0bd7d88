use vstd::prelude::*;

pub mod csg;
pub mod layers;
pub mod vp9;

verus! {

} // verus!
