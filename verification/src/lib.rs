use vstd::prelude::*;

pub mod database;
pub mod omo;
pub mod provider;
pub mod usage;

verus! {

} // verus!
