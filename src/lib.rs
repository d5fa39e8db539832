//! Radial launcher menu: adaptive slot geometry and the cursor-driven
//! selection state machine, over an integer model of the ring.
use vstd::prelude::*;

pub mod geometry;
pub mod layout;
pub mod menu;

verus! {

} // verus!
