//! A line-oriented text-search library: literal and regex matchers over byte
//! lines, an ANSI highlight compositor, and the per-source match pipeline.

pub mod compose;
pub mod config;
pub mod matcher;
pub mod pipeline;
pub mod regex_cap;
pub mod trait_ext;
