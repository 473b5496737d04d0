//! Serving: configuration, admission and the owner loop.
pub mod admission;
pub mod batch;
pub mod benchmark;
pub mod conduct;
pub mod config;
pub mod corpus;
pub mod decisions;
pub mod generate;
pub mod material;
pub mod owner;
pub mod progress;
pub mod selection;
pub mod step;
pub mod study;
pub mod terms;
pub mod verdicts;
pub mod workload;
