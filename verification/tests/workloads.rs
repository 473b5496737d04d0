//! Synthetic workloads.
use lfm25_inference::engine::workload::{
    batch_prompts, build_ragged_input, decode_metadata, forced_tokens, probe_prompt,
    repeated_prompt_batch, slot_ids, timed_step, TimedStep, WorkloadError,
};

#[test]
fn timed_steps_cycle_through_tokens() {
    assert_eq!(timed_step(42, 17, 128, 0), Ok(TimedStep { token: 42, position: 128 }));
    assert_eq!(timed_step(42, 17, 128, 18), Ok(TimedStep { token: 43, position: 146 }));
    assert_eq!(timed_step(59, 23, 0, 22), Ok(TimedStep { token: 81, position: 22 }));
    assert_eq!(timed_step(42, 17, u32::MAX as usize, 1), Err(WorkloadError::IndexOverflow));
}

#[test]
fn decode_batches_have_one_row_per_slot() {
    let metadata = decode_metadata(3).unwrap();
    assert_eq!(metadata.request_slots, vec![0, 1, 2]);
    assert_eq!(metadata.segment_offsets, vec![0, 1, 2, 3]);
    assert_eq!(metadata.segment_slots, vec![0, 1, 2]);
    assert_eq!(metadata.output_rows, vec![0, 1, 2]);
    assert_eq!(decode_metadata(0).unwrap().segment_offsets, vec![0]);
    assert!(decode_metadata(u32::MAX as usize + 1).is_err());
    assert_eq!(slot_ids(4).unwrap(), vec![0, 1, 2, 3]);
    assert!(slot_ids(u32::MAX as usize + 2).is_err());
}

#[test]
fn forced_tokens_differ_by_slot_and_step() {
    assert_eq!(forced_tokens(3, 0).unwrap(), vec![5000, 5001, 5002]);
    assert_eq!(forced_tokens(2, 4).unwrap(), vec![5068, 5069]);
    assert!(forced_tokens(0, 4).unwrap().is_empty());
    assert_eq!(forced_tokens(1, 300_000_000), Err(WorkloadError::IndexOverflow));
}

#[test]
fn prompts_are_packed_in_slot_order() {
    let batch = batch_prompts(&vec![vec![7, 8, 9], vec![5]]).unwrap();
    assert_eq!(batch.token_ids, vec![7, 8, 9, 5]);
    assert_eq!(batch.positions, vec![0, 1, 2, 0]);
    assert_eq!(batch.request_slots, vec![0, 0, 0, 1]);
    assert_eq!(batch.segment_offsets, vec![0, 3, 4]);
    assert_eq!(batch.segment_slots, vec![0, 1]);
    assert_eq!(batch.output_rows, vec![2, 3]);
}

#[test]
fn repeated_prompts_start_a_text_in_every_slot() {
    assert_eq!(probe_prompt(1, 4), vec![1, 42, 42, 42]);
    assert!(probe_prompt(1, 0).is_empty());
    let batch = repeated_prompt_batch(1, 2, 3).unwrap();
    assert_eq!(batch.token_ids, vec![1, 42, 1, 42, 1, 42]);
    assert_eq!(batch.segment_offsets, vec![0, 2, 4, 6]);
    assert_eq!(batch.output_rows, vec![1, 3, 5]);
}

#[test]
fn mixed_prompts_differ_by_slot() {
    let batch = build_ragged_input(1, 2, 3).unwrap();
    let token = |slot: u32, position: u32| 100 + ((slot * 1000 + position) * 17 + 43) % 5000;
    assert_eq!(
        batch.token_ids,
        vec![1, token(0, 1), token(0, 2), 1, token(1, 1), token(1, 2)]
    );
    assert_eq!(batch.request_slots, vec![0, 0, 0, 1, 1, 1]);
}
