use vstd::prelude::*;

pub mod command;
pub mod engine;
pub mod profile;
pub mod state;

verus! {

} // verus!
