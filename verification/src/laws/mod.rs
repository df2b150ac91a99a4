//! What the operations of the library are for, said of what goes into them and what comes out.
pub mod completing;
pub mod detailing;
pub mod ending;
pub mod gathering;
pub mod hosting;
pub mod judging;
pub mod needing;
pub mod planning;
pub mod progress;
pub mod registering;
pub mod reporting;
pub mod running;
pub mod seeing;
pub mod selecting;
pub mod sharing;
pub mod supplying;
pub mod waiting;
pub mod words;
