//! Budget-depletion attack simulation for a private data service: the attack
//! strategies, the action stream they rewrite, and the bookkeeping that turns
//! the device reports into logged results.

pub mod common_types;
pub mod rng;
pub mod dataset;
pub mod attacks;
pub mod text;
pub mod experiments;
pub mod sorting;
pub mod runtime;
pub mod querier;
pub mod counting;
pub mod workload;
pub mod logs;
pub mod progress;
pub mod reports;
pub mod stats;
pub mod merge_laws;
pub mod display;
