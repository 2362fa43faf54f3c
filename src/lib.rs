//! Converts animation timesheets of two JSON dialects (XDTS and TDTS) into the STS binary
//! layout: schema normalization, keyframe compaction and expansion, and the encoder.

pub mod cells;
pub mod converter;
pub mod keyframes;
pub mod naming;
pub mod numtext;
pub mod parser;
pub mod types;
