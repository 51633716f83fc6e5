//! Snapshot fuzzing of a virtual machine: copy-on-write guest memory, register
//! state, snapshot files, coverage and statistics of a fuzzing session.
pub mod bytes;
pub mod addr_map;
pub mod regs;
pub mod page;
pub mod ept;
pub mod snapshot;
pub mod rng;
pub mod stats;
pub mod vm;
pub mod worker;
pub mod memory;
pub mod primitive;
pub mod access;
pub mod transfers;
pub mod modules;
pub mod coverage;
pub mod session;
pub mod exits;
pub mod case;
pub mod runs;
pub mod case_laws;
pub mod guest_laws;
pub mod dump;
