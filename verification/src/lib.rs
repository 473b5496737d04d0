//! Verified core of a language-model inference runtime for the LFM2.5 family.
//!
//! The library holds the decisions of the runtime: how requests are admitted and
//! scheduled, how caches are reserved, filled and released, how a forward pass is
//! routed layer by layer, how command lines are read, how tokens are drafted and
//! sampled, and how calibration, evaluation and precision search are judged.
//! Device work, files and sockets stay with the application around it.
pub mod args;
pub mod bf16;
pub mod cache;
pub mod comparisons;
pub mod engine;
pub mod float;
pub mod generation;
pub mod model;
pub mod num;
pub mod order;
pub mod scheduler;
pub mod settings;
pub mod text;
pub mod words;
