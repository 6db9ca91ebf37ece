//! Resolving a grid of box-drawing connectors: each ambiguous connector is
//! turned to the one variant its already resolved neighbours force, cell by
//! cell from a few seeds, and the total rotation this takes is counted.
use vstd::prelude::*;

pub mod symbols;
pub mod resolver;
pub mod grid;
pub mod engine;
pub mod greek;
pub mod maze;
pub mod input;

verus! {

} // verus!
