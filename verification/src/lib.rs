use vstd::prelude::*;

pub mod text;
pub mod hex;
pub mod model;
pub mod config;
pub mod roundtrip;
pub mod nav;
pub mod edit;
pub mod render;
pub mod keys;

verus! {

} // verus!
