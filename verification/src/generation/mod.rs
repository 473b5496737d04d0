//! Token drafting and sampling.
pub mod choices;
pub mod drafts;
pub mod ngram_drafter;
pub mod sampler;
