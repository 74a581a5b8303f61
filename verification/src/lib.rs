//! Reconstruction of gap-free solar-irradiance series from day-bucketed
//! telemetry.
//!
//! Telemetry arrives one calendar day at a time, possibly with the start or
//! the end of a day missing. The modules of this crate sort each day's
//! records, pad the missing edges with zero-valued placeholder samples, join
//! the days, and cut the joined series at the end of the requested span. The
//! decisions that surround remote retrieval and caching are state machines
//! whose transitions are plain functions, so that a caller performs the
//! actual transfers and hands back what came of them.

pub mod assembler;
pub mod calendar;
pub mod day;
pub mod fetch;
pub mod filepath;
pub mod records;
pub mod sample;
pub mod sort;
pub mod text;
pub mod time;
