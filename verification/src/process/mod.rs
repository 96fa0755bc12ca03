//! Processes: the snapshot model, the process tree, and tree killing.
pub mod controller;
pub mod descendants;

use vstd::prelude::*;

pub use descendants::descendants_of;

verus! {

/// A process and its parent, as a process listing reports them.
#[derive(Clone, Copy, Debug, PartialEq, Eq, Structural)]
pub struct ProcessSnapshot {
    pub pid: u32,
    pub parent_pid: Option<u32>,
}

} // verus!
