//! Sequence caches, the serving cache and state snapshots.
use lfm25_inference::cache::KvPageSize;
use lfm25_inference::engine::workload::{batch_prompts, repeated_prompt_batch};
use lfm25_inference::model::batch_cache::{
    pages_to_request, BatchCacheError, BatchModelCache, TableUpdate,
};
use lfm25_inference::model::forward::LayerKind;
use lfm25_inference::model::prefix::{CheckpointPoolError, ConvCheckpointPool, StateCopy};
use lfm25_inference::model::publication::{plan_restores, LayerCopy, PublicationError};
use lfm25_inference::model::sequence_cache::{ModelCache, SequenceCacheError, StateRestore};

fn serving_cache(slots: usize) -> BatchModelCache {
    BatchModelCache::new(slots, 64, 64, &vec![false, true, false], 10, KvPageSize::P16).unwrap()
}

#[test]
fn sequences_grow_row_by_row() {
    let mut cache = ModelCache::new(8, 16, &vec![false, true, false]).unwrap();
    assert_eq!(cache.kinds(), &vec![LayerKind::Conv, LayerKind::Attention, LayerKind::Conv]);
    let rows = cache.prepare_rows(5).unwrap();
    assert_eq!(rows.positions, vec![0, 1, 2, 3, 4]);
    cache.commit(&rows);
    let rows = cache.prepare_rows(2).unwrap();
    assert_eq!((rows.positions, rows.slots), (vec![5, 6], vec![5, 6]));
    assert_eq!(
        cache.prepare_rows(4).unwrap_err(),
        SequenceCacheError::CapacityExceeded { needed: 9, capacity: 8 }
    );
    assert_eq!(cache.prepare_rows(0).unwrap_err(), SequenceCacheError::NoTokens);
    assert_eq!(cache.prepare_rows(usize::MAX).unwrap_err(), SequenceCacheError::LengthOverflow);
    assert_eq!((cache.capacity(), cache.sequence_length()), (8, 5));
    assert_eq!(cache.reset(), vec![0, 2]);
    assert_eq!(cache.sequence_length(), 0);
    assert_eq!(ModelCache::new(0, 16, &vec![]).unwrap_err(), SequenceCacheError::NoCapacity);
    assert_eq!(
        ModelCache::new(17, 16, &vec![]).unwrap_err(),
        SequenceCacheError::CapacityBeyondModel { capacity: 17, limit: 16 }
    );
}

#[test]
fn rejected_drafts_are_rolled_back() {
    let mut cache = ModelCache::new(16, 16, &vec![false, true, false]).unwrap();
    let rows = cache.prepare_rows(4).unwrap();
    cache.commit(&rows);
    let draft = cache.prepare_rows(3).unwrap();
    let checkpoint = cache.commit_speculative(&draft);
    assert_eq!(cache.sequence_length(), 7);
    let restored = cache.rollback_speculative(checkpoint, 1, 10).unwrap();
    assert_eq!(cache.sequence_length(), 6);
    assert_eq!(
        restored,
        vec![
            StateRestore { layer: 0, source_start: 10, elements: 10 },
            StateRestore { layer: 2, source_start: 10, elements: 10 },
        ]
    );
    let draft = cache.prepare_rows(2).unwrap();
    let kept = cache.commit_speculative(&draft);
    assert!(cache.rollback_speculative(kept, 1, 10).unwrap().is_empty());
    assert_eq!(cache.sequence_length(), 8);
    let draft = cache.prepare_rows(2).unwrap();
    let checkpoint = cache.commit_speculative(&draft);
    assert_eq!(
        cache.rollback_speculative(checkpoint, 2, 10).unwrap_err(),
        SequenceCacheError::AcceptedTooMany { valid: 3, evaluated: 2 }
    );
}

#[test]
fn serving_caches_are_checked() {
    let new = |slots, tokens| {
        BatchModelCache::new(slots, tokens, 64, &vec![true], 4, KvPageSize::P16).unwrap_err()
    };
    assert_eq!(new(0, 1), BatchCacheError::NoRequestSlots);
    assert_eq!(new(1, 0), BatchCacheError::NoTokenCapacity);
    let mut cache = serving_cache(2);
    assert_eq!(cache.check_reserve(2).unwrap_err(), BatchCacheError::SlotOutOfRange);
    assert_eq!(cache.check_reserve_private(0, 0).unwrap_err(), BatchCacheError::NothingToReserve);
    cache.check_reserve(0).unwrap();
    cache.reserve(0, 2);
    assert_eq!(cache.check_reserve(0).unwrap_err(), BatchCacheError::AlreadyReserved);
}

#[test]
fn tokens_take_pages_as_they_cross_them() {
    let mut cache = serving_cache(2);
    cache.reserve(0, 3);
    cache.reserve(1, 3);
    let positions: Vec<u32> = (0..18).collect();
    let slots = vec![1u32; 18];
    assert_eq!(pages_to_request(&positions, KvPageSize::P16), 2);
    let prepared = cache.prepare_tokens(18, &positions, &slots, &vec![40, 41]).unwrap();
    assert_eq!(prepared.granted_pages_used, 2);
    assert_eq!(prepared.physical_slots[0], 640);
    assert_eq!(prepared.physical_slots[17], 657);
    assert_eq!(
        prepared.table_updates,
        vec![
            TableUpdate { slot: 1, index: 0, page: 40 },
            TableUpdate { slot: 1, index: 1, page: 41 },
        ]
    );
    assert_eq!(cache.slots[1].allocated_tokens, 18);
    let released = cache.release(1).unwrap();
    assert_eq!(released.tokens, 18);
    assert_eq!(released.pages, vec![40, 41]);
    assert_eq!(released.states.len(), 2);
    assert_eq!((released.states[1].layer, released.states[1].start), (2, 10));
    assert_eq!(cache.slots[1].allocated_tokens, 0);
}

#[test]
fn tokens_have_to_be_the_next_ones() {
    let mut cache = serving_cache(2);
    let enter = |cache: &mut BatchModelCache, position: u32, slot: u32, grants: Vec<u32>| {
        cache.prepare_tokens(1, &vec![position], &vec![slot], &grants).unwrap_err()
    };
    assert_eq!(enter(&mut cache, 0, 5, vec![1]), BatchCacheError::SlotOutOfRange);
    assert_eq!(enter(&mut cache, 0, 0, vec![1]), BatchCacheError::NotReserved);
    cache.reserve(0, 1);
    assert_eq!(enter(&mut cache, 3, 0, vec![1]), BatchCacheError::NotSequential);
    assert_eq!(enter(&mut cache, 0, 0, vec![]), BatchCacheError::PagesExhausted);
    assert_eq!(
        cache.prepare_tokens(2, &vec![0], &vec![0, 0], &vec![1]).unwrap_err(),
        BatchCacheError::PositionCount
    );
    assert_eq!(
        cache.prepare_tokens(1, &vec![0], &vec![], &vec![1]).unwrap_err(),
        BatchCacheError::SlotCount
    );
}

#[test]
fn decodes_have_one_segment_per_row() {
    let mut cache = serving_cache(2);
    cache.reserve(0, 1);
    cache.reserve(1, 1);
    let (prepared, segments) =
        cache.prepare_decode(2, &vec![0, 0], &vec![0, 1], &vec![7, 8]).unwrap();
    assert_eq!(prepared.physical_slots, vec![112, 128]);
    assert_eq!(segments.offsets, vec![0, 1, 2]);
    assert_eq!(segments.slots, vec![0, 1]);
    assert_eq!(segments.output_rows, vec![0, 1]);
    assert!(!cache.is_contiguous_prefill && !cache.is_segmented_prefill);
}

#[test]
fn ragged_batches_tell_prefills_apart() {
    let mut cache = serving_cache(2);
    cache.reserve(0, 2);
    cache.reserve(1, 2);
    let one = repeated_prompt_batch(1, 4, 1).unwrap();
    cache.prepare_ragged(&one, &vec![3]).unwrap();
    assert!(cache.is_contiguous_prefill);
    cache.release(0).unwrap();
    cache.reserve(0, 2);
    let two = batch_prompts(&vec![vec![1, 2, 3], vec![4, 5]]).unwrap();
    cache.prepare_ragged(&two, &vec![3, 4]).unwrap();
    assert!(cache.is_segmented_prefill && !cache.is_contiguous_prefill);
    assert_eq!(cache.max_segment_tokens, 3);
    let mut wrong = batch_prompts(&vec![vec![1, 2], vec![3]]).unwrap();
    wrong.output_rows[1] = 0;
    assert_eq!(
        cache.prepare_ragged(&wrong, &vec![]).unwrap_err(),
        BatchCacheError::OutputRowForeign
    );
    wrong.segment_offsets = vec![0, 0, 3];
    assert_eq!(
        cache.prepare_ragged(&wrong, &vec![]).unwrap_err(),
        BatchCacheError::SegmentOrder
    );
    wrong.segment_offsets = vec![0, 2];
    assert_eq!(
        cache.prepare_ragged(&wrong, &vec![]).unwrap_err(),
        BatchCacheError::LastOffset
    );
}

#[test]
fn prefixes_are_attached_and_extended() {
    let mut cache = serving_cache(2);
    cache.reserve(0, 3);
    assert_eq!(cache.check_attach(0, 0, &vec![]).unwrap_err(), BatchCacheError::PrefixEmpty);
    assert_eq!(
        cache.check_attach(0, 17, &vec![9]).unwrap_err(),
        BatchCacheError::PrefixNotAligned
    );
    assert_eq!(
        cache.check_attach(0, 16, &vec![9, 8]).unwrap_err(),
        BatchCacheError::PrefixPageCount
    );
    assert_eq!(
        cache.check_attach(7, 16, &vec![9]).unwrap_err(),
        BatchCacheError::SlotOutOfRange
    );
    cache.check_attach(0, 16, &vec![9]).unwrap();
    cache.attach_prefix(0, 16, &vec![9]);
    assert_eq!(cache.slots[0].allocated_tokens, 16);
    assert_eq!(cache.slots[0].pages, vec![9]);
    assert_eq!(
        cache.check_extension(0, 16, 16, &vec![9]).unwrap_err(),
        BatchCacheError::PrefixNotExtended
    );
    cache.check_extension(0, 16, 48, &vec![9, 10, 11]).unwrap();
    let (released, _) = cache.extend_attached_prefix(0, 16, 48, &vec![9, 10, 11]);
    assert_eq!(released, 2);
    assert_eq!(cache.slots[0].pages, vec![9, 10, 11]);
    assert_eq!(cache.slots[0].reserved_pages, 1);
}

#[test]
fn snapshots_are_handed_out_once() {
    let mut pool = ConvCheckpointPool::new(10, 3, 8, 4).unwrap();
    assert_eq!((pool.capacity(), pool.available()), (3, 3));
    assert_eq!(pool.acquire(), Some(0));
    assert_eq!(pool.acquire(), Some(1));
    assert_eq!(pool.acquire(), Some(2));
    assert_eq!(pool.acquire(), None);
    pool.release(1);
    assert_eq!((pool.available(), pool.acquire()), (1, Some(1)));
    assert_eq!(
        pool.capture_layer(2, 9, 5),
        Ok(StateCopy { source_start: 160, destination_start: 64, elements: 32 })
    );
    assert_eq!(
        pool.restore_layer(2, 9, 5),
        Ok(StateCopy { source_start: 64, destination_start: 160, elements: 32 })
    );
    assert_eq!(pool.capture_layer(2, 10, 5), Err(CheckpointPoolError::LayerOutOfRange));
    assert_eq!(
        pool.capture_layer(2, 0, usize::MAX),
        Err(CheckpointPoolError::RequestOffsetOverflow)
    );
    let error = |layers, capacity, hidden, width| {
        ConvCheckpointPool::new(layers, capacity, hidden, width).unwrap_err()
    };
    assert_eq!(error(0, 0, 0, 0), CheckpointPoolError::NoConvolutionLayers);
    assert_eq!(error(1, 0, 0, 0), CheckpointPoolError::NoCapacity);
    assert_eq!(error(1, 1, 8, 0), CheckpointPoolError::InvalidStateShape);
    assert_eq!(error(1, 1 << 40, 8, 4), CheckpointPoolError::CapacityTooLarge);
    assert_eq!(error(1, 1, usize::MAX, 2), CheckpointPoolError::StateSizeOverflow);
}

#[test]
fn published_prefixes_can_be_attached_elsewhere() {
    let mut pool = ConvCheckpointPool::new(2, 2, 5, 2).unwrap();
    let mut cache = serving_cache(2);
    cache.reserve(0, 3);
    cache.attach_prefix(0, 32, &vec![9, 4]);
    assert!(cache.publish_prefix_checkpoint(0, 40, 32, false, &mut pool).unwrap().is_none());
    assert!(cache.publish_prefix_checkpoint(0, 40, 24, true, &mut pool).unwrap().is_none());
    assert!(cache.publish_prefix_checkpoint(0, 31, 32, true, &mut pool).unwrap().is_none());
    assert_eq!(
        cache.publish_prefix_checkpoint(2, 40, 32, true, &mut pool).unwrap_err(),
        PublicationError::Cache(BatchCacheError::SlotOutOfRange)
    );
    assert_eq!(
        cache.publish_prefix_checkpoint(0, 64, 48, true, &mut pool).unwrap_err(),
        PublicationError::Cache(BatchCacheError::PrefixBeyondCache)
    );
    assert_eq!(pool.available(), 2);
    let first = cache.publish_prefix_checkpoint(0, 40, 16, true, &mut pool).unwrap().unwrap();
    assert_eq!((first.pages, first.checkpoint), (vec![9], 0));
    let second = cache.publish_prefix_checkpoint(0, 40, 32, true, &mut pool).unwrap().unwrap();
    assert_eq!((&second.pages, second.checkpoint), (&vec![9, 4], 1));
    let saved = StateCopy { source_start: 0, destination_start: 10, elements: 10 };
    assert_eq!(
        second.captures,
        vec![LayerCopy { layer: 0, copy: saved }, LayerCopy { layer: 2, copy: saved }]
    );
    assert!(cache.publish_prefix_checkpoint(0, 40, 32, true, &mut pool).unwrap().is_none());
    cache.reserve(1, 2);
    let layers = cache.attach_prefix(1, 32, &second.pages);
    let restored = StateCopy { source_start: 10, destination_start: 10, elements: 10 };
    assert_eq!(
        plan_restores(&pool, second.checkpoint, 1, &layers).unwrap(),
        vec![LayerCopy { layer: 0, copy: restored }, LayerCopy { layer: 2, copy: restored }]
    );
}

#[test]
fn unsaved_snapshots_return_to_the_pool() {
    let mut pool = ConvCheckpointPool::new(1, 1, 5, 2).unwrap();
    let mut cache = serving_cache(1);
    cache.reserve(0, 1);
    cache.attach_prefix(0, 16, &vec![3]);
    assert_eq!(
        cache.publish_prefix_checkpoint(0, 16, 16, true, &mut pool).unwrap_err(),
        PublicationError::Checkpoint(CheckpointPoolError::LayerOutOfRange)
    );
    assert_eq!(pool.available(), 1);
    assert_eq!(
        plan_restores(&pool, 0, 0, &vec![0, 2]).unwrap_err(),
        CheckpointPoolError::LayerOutOfRange
    );
}

#[test]
fn contexts_are_primed_slot_by_slot() {
    let mut cache = serving_cache(2);
    assert_eq!(cache.prime_context(1, 0, &vec![]).unwrap_err(), BatchCacheError::ContextEmpty);
    assert_eq!(cache.prime_context(3, 1, &vec![]).unwrap_err(), BatchCacheError::TooManySlots);
    assert!(cache.prime_context(1, 17, &vec![5, 6]).is_err());
    cache.reserve(0, 2);
    cache.reserve(1, 2);
    assert!(cache.prime_context(2, 17, &vec![5, 6, 7]).is_err());
    let mut cache = serving_cache(2);
    cache.reserve(0, 2);
    cache.reserve(1, 2);
    cache.prime_context(2, 17, &vec![5, 6, 7, 8]).unwrap();
    assert_eq!(cache.slots[0].pages, vec![5, 6]);
    assert_eq!(cache.slots[1].pages, vec![7, 8]);
    assert_eq!((cache.slots[0].allocated_tokens, cache.slots[1].allocated_tokens), (17, 17));
}

#[test]
fn tokens_of_a_batch_have_places_of_their_own() {
    let mut cache = serving_cache(2);
    cache.reserve(0, 2);
    cache.reserve(1, 3);
    cache.attach_prefix(1, 16, &vec![7]);
    let positions: Vec<u32> = (0..17).chain(16..20).collect();
    let slots: Vec<u32> = [vec![0u32; 17], vec![1; 4]].concat();
    assert_eq!(pages_to_request(&positions, KvPageSize::P16), 3);
    let prepared =
        cache.prepare_tokens(positions.len(), &positions, &slots, &vec![4, 9, 2]).unwrap();
    let mut places = prepared.physical_slots;
    assert_eq!((places[0], places[16], places[17]), (64, 144, 32));
    places.sort_unstable();
    places.dedup();
    assert_eq!(places.len(), 21);
    assert_eq!(cache.slots[1].pages, vec![7, 2]);
}
