use vstd::prelude::*;

pub mod aggregate;
pub mod backlog;
pub mod collector;
pub mod error;
pub mod lines;
pub mod reservoir;
pub mod tokenize;

verus! {

} // verus!
