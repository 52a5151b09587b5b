//! What the correlator remembers about live processes.

pub mod cmdline;
pub mod map;
pub mod runtime;
