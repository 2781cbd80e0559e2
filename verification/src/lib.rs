//! Reconstruction of per-entity state timelines from operation traces that
//! report only the completion time and the duration of each operation.
//!
//! The pipeline has three stages: [`record`] turns a raw trace record into an
//! [`record::Operation`] with absolute start and end times, [`aggregate`]
//! scans all operations for the trace epoch, the state registry and the
//! per-entity timelines, and [`emit`] walks the timelines and produces the
//! state-transition events together with the ordering violations. [`header`]
//! describes the trace for whoever renders it, and [`pipeline`] runs the
//! stages in order on raw records.

pub mod record;
pub mod registry;
pub mod aggregate;
pub mod emit;
pub mod header;
pub mod pipeline;
pub mod laws;
