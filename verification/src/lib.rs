use vstd::prelude::*;

pub mod canon;
pub mod crawler;
pub mod errors;
pub mod extract;
pub mod frontier;
pub mod page;
pub mod pool;
pub mod sink;

verus! {

} // verus!
