//! A history of compiler performance measurements.
//!
//! Measurement documents, one for each execution, are read into runs, the
//! runs of one commit are merged, and the runs are kept in two series in
//! order of date: the runs of the whole compiler, and the runs of single
//! benchmarks. From each series a summary is drawn: for each of the last
//! twelve weeks, and for the whole span, how the median time of each phase
//! of each crate has changed.
//!
//! Times are whole ticks of the caller's clock, percentages are millionths
//! of a percent, and a change is kept exactly, as a difference and the
//! figure it is measured against.

pub mod collect;
pub mod date;
pub mod document;
pub mod errors;
pub mod load;
pub mod median;
pub mod order;
pub mod run;
pub mod strmap;
pub mod summary;
pub mod text;
pub mod timing;
pub mod util;
