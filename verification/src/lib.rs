//! Verified core of the EstrOS kernel: the data structures and decisions of the
//! schedulers, the message and thread stores, the system-call dispatcher and
//! the exception handler's thread switch, loading processes from ELF files,
//! the device-tree header parser, the random number generator, the driver
//! registry, page attributes and the address arithmetic of the memory
//! subsystem.
use vstd::prelude::*;

pub mod cpu_state;
pub mod rng;
mod ordered_map;
pub mod threads;
pub mod messages;
pub mod scheduler;
pub mod fairness;
pub mod qds;
pub mod syscalls;
pub mod dtb;
pub mod paging;
pub mod drivers;
pub mod arena;
pub mod exceptions;
pub mod elf_load;

verus! {

} // verus!
