//! A live Game-of-Life viewer: the grid engine, the command decoder for the
//! inbound trigger metadata, and the per-connection session state.

use vstd::prelude::*;

pub mod command;
pub mod grid;
pub mod session;

verus! {

} // verus!
