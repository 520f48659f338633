use vstd::prelude::*;

pub mod input_laws;
pub mod line_laws;
pub mod model;
pub mod numbers;
pub mod paths;
pub mod report;
pub mod session;
pub mod shell;
pub mod solver;
pub mod text;
pub mod viewer;

verus! {

} // verus!
