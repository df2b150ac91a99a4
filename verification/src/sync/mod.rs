//! The decisions of the test runner: how a test is run, how workers are driven, and how a run is
//! put together.
pub mod run;
pub mod runner;
pub mod thread;
pub mod wire;
pub mod worker;
