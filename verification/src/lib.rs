//! Tyre-stint analysis and pit-stop strategy scoring for lap-by-lap race telemetry.
//!
//! Every real-valued quantity is held as a fixed-point integer, so that all arithmetic is
//! exact: seconds and degrees in millionths, regression coefficients in billionths.

pub mod config;
pub mod data;
pub mod ingest;
pub mod mean;
pub mod model;
pub mod report;
pub mod sequence;
pub mod stint;
pub mod strategy;
pub mod text;
