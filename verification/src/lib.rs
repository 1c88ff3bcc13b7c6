//! Keeps Time Machine backups lean: the rules, parsers and selection logic
//! behind finding build directories to exclude and stale ones to reclaim.

pub mod text;
pub mod schedule;
pub mod paths;
pub mod config;
pub mod defaults;
pub mod rules;
pub mod decay;
pub mod stats;
pub mod cli;
pub mod logging;
pub mod walker;
