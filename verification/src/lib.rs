//! Heatmap pipeline for GPS activity recordings.
//!
//! The library ingests coordinate tracks (extracted from a tag-based track
//! format by the host, or decoded here from a compact binary telemetry
//! format), cleans out GPS jumps, simplifies the polylines, and aggregates
//! how often near-identical path segments recur across all tracks.
//!
//! Coordinates are held in fixed-point form (units of 1e-5 degree), the
//! precision the pipeline rounds to on extraction, so every stage is exact
//! integer arithmetic.

pub mod aggregate;
pub mod cleaner;
pub mod coord;
pub mod cursor;
pub mod decoder;
pub mod geo;
pub mod pipeline;
pub mod simplify;
