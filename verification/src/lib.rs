//! Finding and safely reclaiming the disk space that developer caches and build artifacts take.
//!
//! Candidates go through a pipeline: providers discover them on a snapshot of the disk, walks
//! measure them, scores rank them and a filter picks what is shown. Nothing is removed that the
//! path guard has not accepted, and every run leaves a record.
#![allow(unused_imports)]
use vstd::prelude::*;

pub mod text;
pub mod path;
pub mod number;
pub mod format;
pub mod sort;
pub mod model;
pub mod error;
pub mod platform;
pub mod safety;
pub mod disk;
pub mod globbing;
pub mod config;
pub mod discovery;
pub mod journal;
pub mod walk;
pub mod staleness;
pub mod exec;
pub mod report;
pub mod pipeline;
pub mod providers;
pub mod cli;
pub mod web;

verus! {

/// The version that runs are recorded under.
pub const VERSION: &'static str = "0.1.4";

} // verus!
