//! Interval-driven feed scraping: per-feed refresh scheduling, normalization of
//! feed entries into article records, and create-if-absent persistence.

pub mod cli;
pub mod clock;
pub mod counter;
pub mod error;
pub mod ingest;
pub mod model;
pub mod normalize;
pub mod store;
pub mod text;
