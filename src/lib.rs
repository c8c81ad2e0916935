use vstd::prelude::*;

pub mod batch;
pub mod decimal;
pub mod journey;
pub mod routes;
pub mod table;
pub mod timestamp;

pub use journey::Journey;

verus! {

} // verus!
