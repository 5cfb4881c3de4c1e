//! Launches an application by its identifier and supervises the process it
//! starts: when the watched process ends, a successor running from the same
//! install directory is looked for and watched in turn.
use vstd::prelude::*;

pub mod catalog;
pub mod launch;
pub mod locator;
pub mod path;
pub mod process;
pub mod supervisor;

verus! {

} // verus!
