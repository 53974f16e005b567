//! Core of a gridded-dataset ingest pipeline.
//!
//! The library turns a gridded scientific dataset (latitude x longitude x
//! time, several physical variables per cell) into per-location records fit
//! for a document store: each record carries a stable identity derived from
//! its coordinates, a basin classification from an independent 1-degree
//! lookup grid, and aligned per-variable time series with missing-value
//! handling.
//!
//! Coordinates are held as fixed-point micro-degrees (`i64`, a millionth of
//! a degree), and variable samples as the bit patterns of IEEE 754 binary64
//! values (`u64`), so that every rule of the pipeline is stated and proved
//! over plain integers. The I/O shell around the library converts at the
//! boundary.

pub mod coords;
pub mod error;
pub mod fmt;
pub mod mask;
pub mod basin;
pub mod series;
pub mod timefmt;
pub mod record;
