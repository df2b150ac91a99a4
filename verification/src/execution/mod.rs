//! The execution plan of a run: a tree of suites that hands out tests one by one.
pub mod collect;
pub mod laws;
pub mod materialize;
pub mod node;
pub mod order;
pub mod path;
pub mod pick;
pub mod plan;
pub mod provide;
pub mod prune;
pub mod queries;
pub mod run;
pub mod seen;
pub mod sequential;
pub mod shuffle;
pub mod suite;
pub mod values;
