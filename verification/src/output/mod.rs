//! The report writers: what each of them writes, as text.
pub mod ctrf;
pub mod json;
pub mod junit;
pub mod lines;
pub mod pretty;
pub mod progress;
pub mod select;
pub mod style;
pub mod term_progress;
pub mod terse;
