//! The register file that is saved when a thread leaves user space.
use vstd::prelude::*;

verus! {

/// Number of general purpose registers saved for a thread.
pub const NUM_SAVED_REGISTERS: usize = 30;

/// Saved user-space state of a thread: the general purpose registers
/// `x0..x29` and the exception link register (the address execution
/// resumes at).
#[derive(Clone, Copy)]
pub struct State {
    pub x: [u64; 30],
    pub elr: u64,
}

impl Default for State {
    fn default() -> (s: State)
        ensures
            s.elr == 0,
            forall|i: int| 0 <= i < 30 ==> s.x@[i] == 0,
    {
        State { x: [0u64; 30], elr: 0 }
    }
}

} // verus!
