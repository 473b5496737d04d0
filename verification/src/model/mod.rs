//! The model: caches, forward planning, quantisation and its evidence.
pub mod batch_cache;
pub mod bookkeeping;
pub mod calibration;
pub mod checkpoint;
pub mod decode_executor;
pub mod evaluation;
pub mod forward;
pub mod fp8_analysis;
pub mod execution;
pub mod inventory;
pub mod measurements;
pub mod pass_order;
pub mod passes;
pub mod placement;
pub mod prefix;
pub mod profile;
pub mod provenance;
pub mod publication;
pub mod quantization;
pub mod sequence_cache;
pub mod snapshots;
pub mod weights;
