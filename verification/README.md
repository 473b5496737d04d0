# lfm25_inference

The decision-making half of an inference runtime for LFM2.5 models, verified with Verus.

A runtime of this kind does two things. It multiplies matrices on a device, and it decides what
to multiply: which requests run, which tokens go where in the key-value cache, which kernel and
which precision serve a projection, when a request is answered or refused, and which fp8 policy
keeps the model's quality. This crate is the second thing. Its functions are executable Rust
with contracts; the device, the clock, the network and machine floats are on the other side of
a boundary of plain values.

## Layout

- `src/args.rs` reads the command line and its environment.
- `src/generation/` drafts tokens from the history of a text, and samples tokens from logits.
- `src/engine/` serves requests: admission, the owner's loop, batches and steps. It also holds
  the plans of benchmarks, of calibration corpora and of precision studies.
- `src/model/` holds the caches with their pages and snapshots, the plans of forward passes, the
  installation of precision policies, calibration statistics and quality metrics.
- `src/float.rs` and `src/bf16.rs` model floating-point values by their bit patterns: orders,
  comparisons and roundings are decided exactly, sums and products stay outside.
- `tests/` runs the library on concrete values.
- `app/` is the program around the library: files, reports, clocks, channels and float
  arithmetic. It talks to a device through the `Backend` trait in `app/backend.rs`; a build
  without a device layer links the one that has no values.

## Reading the contracts

Public proof functions state what holds of several functions together. Among them:

- no two tokens of a batch share a place in the cache, and no request writes into a page that
  another one reads (`model::placement`);
- prefill runs in bf16 whatever policy is installed: every pass over an empty cache or over
  several tokens of a sequence, and every batch with a row of an unfinished prompt. The decode
  executor computes what the batch pass computes, and the production path reads no activations
  back (`model::forward`);
- every row of a step carries the token that its request has at that position
  (`engine::batch`);
- over any number of steps a request gets as many tokens as it asked for, or stops at the end
  of its text (`engine::step`);
- a decode benchmark plans every pair of a context and a batch size once
  (`engine::benchmark`);
- a refused request gives back what it took, and an admitted one has reserved enough pages
  (`engine::admission`);
- rolling a speculative pass back leaves the cache as if only the accepted tokens had been run
  (`model::sequence_cache`).

What is not proved is marked in the source: functions with `external_body` and
`assume_specification` items state what they take from `half`, `serde_json` and the standard
library.
