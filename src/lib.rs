//! Language detection for source files and language statistics for whole trees.
//!
//! A file is handed to an ordered pipeline of detection strategies that consult an
//! immutable registry of languages; an aggregator sums detected bytes per language.
pub mod blob;
pub mod catalogue;
pub mod classifier;
pub mod generated;
pub mod heuristics;
pub mod keyed;
pub mod language;
pub mod order;
pub mod pattern;
pub mod pipeline;
pub mod repository;
pub mod samples;
pub mod strategy;
pub mod text;
pub mod vendor;

pub use pipeline::detect;
