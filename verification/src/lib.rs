//! The core of a test framework: registration data, filtering, the execution plan, the
//! parent/worker protocol and the report writers, stated and proved in Verus.
//!
//! Everything that performs I/O (processes, sockets, files, threads, async runtimes) lives outside
//! of this library and exchanges plain values with it.
pub mod text;
pub mod table;
pub mod args;
pub mod command_line;
pub mod internal;
pub mod selection;
pub mod execution;
pub mod results;
pub mod ipc;
pub mod host_capture;
pub mod hosted;
pub mod bench;
pub mod panic_hook;
pub mod sync;
pub mod output;
pub mod laws;
