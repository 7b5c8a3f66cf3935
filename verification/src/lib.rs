//! Heuristic media-name tagging.
//!
//! Two independent pipelines over plain strings: season/episode capture for
//! TV file names ([`tv`]) and display-name composition for music files
//! ([`music`]), sharing the filename splitter and name normalizer of
//! [`utils`].

pub mod music;
pub mod tv;
pub mod utils;
