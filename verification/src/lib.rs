//! Crash tracing for Linux processes on x86_64: the fixed-layout event records
//! shared between the kernel capture plane and the userspace correlator, the
//! decisions of the tracepoint handlers, the process-state cache, the crash
//! store, the report renderer and the event-loop correlator.

pub mod bytes;
pub mod common;
pub mod correlator;
pub mod db;
pub mod event;
pub mod programs;
pub mod report;
pub mod seqs;
pub mod state;
pub mod text;
