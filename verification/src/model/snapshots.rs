//! What is saved of a request and brought back, and how a sequence grows and shrinks.
use vstd::prelude::*;

use crate::model::batch_cache::{conv_layers, BatchModelCache};
use crate::model::bookkeeping::convolutions_have_states;
use crate::model::forward::LayerKind;
use crate::model::prefix::{CheckpointPoolError, ConvCheckpointPool, StateCopy};
use crate::model::publication::{
    plan_captures, plan_restores, LayerCopy, Publication, PublicationError,
};
use crate::model::sequence_cache::{
    ModelCache, SequenceCacheError, SequenceRows, SpeculativeCheckpoint, StateRestore,
};

verus! {

/// A new pool has every snapshot free, each once, and hands out the first one first.
pub proof fn new_pools_are_free(
    layers: usize,
    capacity: usize,
    hidden: usize,
    width: usize,
    r: Result<ConvCheckpointPool, CheckpointPoolError>,
    snapshot: u32,
)
    requires
        call_ensures(ConvCheckpointPool::new, (layers, capacity, hidden, width), r),
    ensures
        r is Ok <==> layers > 0 && 0 < capacity <= u32::MAX && hidden > 0 && width > 0 && hidden
            * width <= usize::MAX,
        r is Ok ==> {
            let pool = r->Ok_0@;
            &&& pool.layers == layers
            &&& pool.capacity == capacity
            &&& pool.elements == hidden * width
            &&& pool.free.len() == capacity
            &&& pool.free.last() == 0
            &&& pool.free.no_duplicates()
            &&& snapshot < capacity ==> pool.free.contains(snapshot)
        },
{
    if hidden > 0 && width > 0 {
        assert(hidden * width > 0) by (nonlinear_arith)
            requires
                hidden > 0,
                width > 0,
        ;
    }
    if r is Ok {
        let free = r->Ok_0@.free;
        if snapshot < capacity {
            assert(free[capacity - 1 - snapshot] == snapshot);
        }
    }
}

/// A snapshot is handed out as long as one is free, and is then taken; the others stay free.
pub proof fn snapshots_are_handed_out_once(pool: &mut ConvCheckpointPool, r: Option<u32>, other: u32)
    requires
        old(pool)@.well_formed(),
        call_ensures(ConvCheckpointPool::acquire, (pool,), r),
    ensures
        r is Some <==> old(pool)@.free.len() > 0,
        r is None ==> final(pool)@.free == old(pool)@.free,
        r is Some ==> {
            &&& old(pool)@.free.contains(r->0)
            &&& !final(pool)@.free.contains(r->0)
            &&& final(pool)@.free.len() == old(pool)@.free.len() - 1
            &&& other != r->0 ==> (final(pool)@.free.contains(other) <==> old(
                pool)@.free.contains(other))
        },
        final(pool)@.capacity == old(pool)@.capacity,
        final(pool)@.elements == old(pool)@.elements,
        final(pool)@.layers == old(pool)@.layers,
{
    if r is Some {
        let was = old(pool)@.free;
        let now = final(pool)@.free;
        assert(was[was.len() - 1] == r->0);
        if now.contains(other) {
            let i = choose|i: int| 0 <= i < now.len() && now[i] == other;
            assert(was[i] == other);
        }
        if was.contains(other) && other != r->0 {
            let i = choose|i: int| 0 <= i < was.len() && was[i] == other;
            assert(now[i] == other);
        }
    }
}

/// A snapshot that is given back is free again, and the next to be handed out.
pub proof fn snapshots_come_back(pool: &mut ConvCheckpointPool, snapshot: u32, r: ())
    requires
        call_ensures(ConvCheckpointPool::release, (pool, snapshot), r),
    ensures
        final(pool)@.free.last() == snapshot,
        final(pool)@.free.drop_last() == old(pool)@.free,
        final(pool)@.capacity == old(pool)@.capacity,
        final(pool)@.elements == old(pool)@.elements,
        final(pool)@.layers == old(pool)@.layers,
{
    assert(final(pool)@.free.drop_last() =~= old(pool)@.free);
}

/// Saving copies the state of the request into the snapshot, restoring copies it back: each
/// from where the other went, as much of it, at the same distance from the start for every
/// request and for every snapshot.
pub proof fn restoring_copies_back_what_was_saved(
    pool: &ConvCheckpointPool,
    snapshot: u32,
    layer: usize,
    slot: usize,
    saved: Result<StateCopy, CheckpointPoolError>,
    restored: Result<StateCopy, CheckpointPoolError>,
)
    requires
        call_ensures(ConvCheckpointPool::capture_layer, (pool, snapshot, layer, slot), saved),
        call_ensures(ConvCheckpointPool::restore_layer, (pool, snapshot, layer, slot), restored),
        pool@.elements <= usize::MAX,
    ensures
        saved is Ok <==> restored is Ok,
        saved is Ok <==> layer < pool@.layers && slot * pool@.elements <= usize::MAX && snapshot
            * pool@.elements <= usize::MAX,
        saved is Ok ==> {
            &&& saved->Ok_0.source_start == slot * pool@.elements
            &&& saved->Ok_0.destination_start == snapshot * pool@.elements
            &&& saved->Ok_0.elements == pool@.elements
            &&& restored->Ok_0.source_start == saved->Ok_0.destination_start
            &&& restored->Ok_0.destination_start == saved->Ok_0.source_start
            &&& restored->Ok_0.elements == saved->Ok_0.elements
        },
        layer >= pool@.layers ==> saved->Err_0 == CheckpointPoolError::LayerOutOfRange
            && restored->Err_0 == CheckpointPoolError::LayerOutOfRange,
{
    assert(slot * pool@.elements >= 0) by (nonlinear_arith)
        requires
            slot >= 0,
            pool@.elements >= 0,
    ;
    assert(snapshot * pool@.elements >= 0) by (nonlinear_arith)
        requires
            snapshot >= 0,
            pool@.elements >= 0,
    ;
}

/// Plans save and restore the layers listed, each once and in order, with copies that undo
/// each other.
pub proof fn plans_cover_the_listed_layers(
    pool: &ConvCheckpointPool,
    snapshot: u32,
    slot: usize,
    layers: &Vec<usize>,
    saves: Result<Vec<LayerCopy>, CheckpointPoolError>,
    restores: Result<Vec<LayerCopy>, CheckpointPoolError>,
    i: int,
)
    requires
        pool@.elements <= usize::MAX,
        call_ensures(plan_captures, (pool, snapshot, slot, layers), saves),
        call_ensures(plan_restores, (pool, snapshot, slot, layers), restores),
        0 <= i < layers@.len(),
    ensures
        saves is Ok <==> restores is Ok,
        saves is Ok <==> layers@.len() <= pool@.layers && slot * pool@.elements <= usize::MAX
            && snapshot * pool@.elements <= usize::MAX,
        saves is Ok ==> {
            let save = saves->Ok_0@[i];
            let restore = restores->Ok_0@[i];
            &&& saves->Ok_0@.len() == layers@.len()
            &&& restores->Ok_0@.len() == layers@.len()
            &&& save.layer == layers@[i]
            &&& restore.layer == layers@[i]
            &&& save.copy.source_start == slot * pool@.elements
            &&& save.copy.destination_start == snapshot * pool@.elements
            &&& save.copy.elements == pool@.elements
            &&& restore.copy.source_start == save.copy.destination_start
            &&& restore.copy.destination_start == save.copy.source_start
            &&& restore.copy.elements == save.copy.elements
        },
{
    assert(slot * pool@.elements >= 0) by (nonlinear_arith)
        requires
            slot >= 0,
            pool@.elements >= 0,
    ;
    assert(snapshot * pool@.elements >= 0) by (nonlinear_arith)
        requires
            snapshot >= 0,
            pool@.elements >= 0,
    ;
}

/// A published prefix comes with the pages of its tokens and with a snapshot of its own, in
/// which the state of every convolution is saved. Whatever is not published leaves the pool
/// as it was.
pub proof fn publications_save_every_convolution(
    cache: &BatchModelCache,
    slot: usize,
    request: usize,
    prefix: usize,
    can_publish: bool,
    pool: &mut ConvCheckpointPool,
    r: Result<Option<Publication>, PublicationError>,
    layer: usize,
) -> (at: int)
    requires
        cache.well_formed(),
        old(pool)@.well_formed(),
        old(pool)@.elements <= usize::MAX,
        layer < cache.layers@.len() <= usize::MAX,
        cache.layers@[layer as int] == LayerKind::Conv,
        call_ensures(
            BatchModelCache::publish_prefix_checkpoint,
            (cache, slot, request, prefix, can_publish, pool),
            r,
        ),
    ensures
        !(r is Ok && r->Ok_0 is Some) ==> final(pool)@ == old(pool)@,
        r is Ok && r->Ok_0 is None ==> !(can_publish && 0 < prefix <= request && prefix as int
            % cache.page_size.tokens() == 0 && old(pool)@.free.len() > 0),
        r is Ok && r->Ok_0 is Some ==> {
            let published = r->Ok_0->0;
            let copy = published.captures@[at];
            &&& can_publish && 0 < prefix <= request
            &&& published.pages@.len() * cache.page_size.tokens() == prefix
            &&& forall|p: int|
                0 <= p < published.pages@.len() ==> #[trigger] published.pages@[p]
                    == cache.slots@[slot as int].pages@[p]
            &&& old(pool)@.free.contains(published.checkpoint)
            &&& !final(pool)@.free.contains(published.checkpoint)
            &&& final(pool)@.free.len() == old(pool)@.free.len() - 1
            &&& 0 <= at < published.captures@.len()
            &&& copy.layer == layer
            &&& copy.copy.source_start == slot * old(pool)@.elements
            &&& copy.copy.destination_start == published.checkpoint * old(pool)@.elements
            &&& copy.copy.elements == old(pool)@.elements
        },
{
    let layers = conv_layers(cache.layers@, cache.layers@.len() as int);
    convolutions_have_states(cache.layers@, layer);
    let at = choose|i: int| 0 <= i < layers.len() && layers[i] == layer;
    assert(layers.contains(layer));
    let page = cache.page_size.tokens();
    assert(page == 16 || page == 32);
    if r is Ok && r->Ok_0 is Some {
        let published = r->Ok_0->0;
        let free = old(pool)@.free;
        assert(cache.slots@[slot as int]@.well_formed(page, cache.pages_per_slot as int));
        assert(free[free.len() - 1] == published.checkpoint);
        assert forall|i: int| 0 <= i < free.drop_last().len() implies free.drop_last()[i]
            != published.checkpoint by {
            assert(free[i] != free[free.len() - 1]);
        }
        let elements = old(pool)@.elements;
        let checkpoint = published.checkpoint;
        assert(slot * elements >= 0) by (nonlinear_arith)
            requires
                slot >= 0,
                elements >= 0,
        ;
        assert(checkpoint * elements >= 0) by (nonlinear_arith)
            requires
                checkpoint >= 0,
                elements >= 0,
        ;
        assert(published.captures@[at].layer == layers[at]);
    }
    at
}

/// A new sequence is empty, and has at least one place and no more than the model.
pub proof fn new_sequences_are_empty(
    capacity: usize,
    positions: usize,
    attention: &Vec<bool>,
    r: Result<ModelCache, SequenceCacheError>,
)
    requires
        call_ensures(ModelCache::new, (capacity, positions, attention), r),
    ensures
        r is Ok <==> 0 < capacity <= positions,
        r is Ok ==> {
            &&& r->Ok_0@.length == 0
            &&& r->Ok_0@.capacity == capacity
            &&& r->Ok_0@.layers.len() == attention@.len()
            &&& forall|l: int|
                0 <= l < attention@.len() ==> (#[trigger] r->Ok_0@.layers[l]
                    == LayerKind::Attention <==> attention@[l])
        },
        capacity == 0 ==> r->Err_0 == SequenceCacheError::NoCapacity,
        capacity > 0 && r is Err ==> r->Err_0 == (SequenceCacheError::CapacityBeyondModel {
            capacity,
            limit: positions,
        }),
{
}

/// A pass fits exactly if it has tokens and they do not go beyond the capacity. Its rows are
/// the places right behind the sequence, one for each token.
pub proof fn passes_go_on_behind_the_sequence(
    cache: &ModelCache,
    tokens: usize,
    r: Result<SequenceRows, SequenceCacheError>,
    i: int,
)
    requires
        cache@.well_formed(),
        cache@.capacity <= u32::MAX,
        call_ensures(ModelCache::prepare_rows, (cache, tokens), r),
        0 <= i < tokens,
    ensures
        r is Ok <==> cache@.length + tokens <= cache@.capacity,
        r is Ok ==> {
            let rows = r->Ok_0;
            &&& rows.start == cache@.length
            &&& rows.end == cache@.length + tokens
            &&& rows.positions@.len() == tokens
            &&& rows.slots@.len() == tokens
            &&& rows.positions@[i] == cache@.length + i
            &&& rows.slots@[i] == cache@.length + i
        },
        r is Err && cache@.length + tokens <= usize::MAX ==> r->Err_0 == (
        SequenceCacheError::CapacityExceeded {
            needed: (cache@.length + tokens) as usize,
            capacity: cache@.capacity as usize,
        }),
{
}

/// Without tokens there is no pass.
pub proof fn empty_passes_are_refused(
    cache: &ModelCache,
    r: Result<SequenceRows, SequenceCacheError>,
)
    requires
        call_ensures(ModelCache::prepare_rows, (cache, 0), r),
    ensures
        r is Err,
        r->Err_0 == SequenceCacheError::NoTokens,
{
}

/// After a pass the sequence ends where its rows end, whether or not it can be undone; and
/// what can be undone is as many tokens as it had, with the state of every convolution.
pub proof fn passes_lengthen_the_sequence(
    cache: &mut ModelCache,
    other: &mut ModelCache,
    rows: &SequenceRows,
    plain: (),
    undo: SpeculativeCheckpoint,
    layer: usize,
)
    requires
        *old(cache) == *old(other),
        layer < old(cache)@.layers.len() <= usize::MAX,
        call_ensures(ModelCache::commit, (cache, rows), plain),
        call_ensures(ModelCache::commit_speculative, (other, rows), undo),
    ensures
        final(cache)@.length == rows.end,
        final(cache)@.layers == old(cache)@.layers,
        final(cache)@.capacity == old(cache)@.capacity,
        final(other)@ == final(cache)@,
        undo.start_sequence_length == rows.start,
        undo.start_sequence_length + undo.num_tokens == rows.end,
        undo.conv_layers@.contains(layer) <==> old(cache)@.layers[layer as int]
            == LayerKind::Conv,
{
    convolutions_have_states(old(cache)@.layers, layer);
}

/// Undoing keeps the first token of the pass and the accepted ones behind it. If any token is
/// dropped, every convolution gets the state back that followed the last token kept: that of
/// the accepted-th token behind the first. More tokens than were run cannot be accepted.
pub proof fn undoing_keeps_what_was_accepted(
    cache: &mut ModelCache,
    checkpoint: SpeculativeCheckpoint,
    accepted: usize,
    elements: usize,
    r: Result<Vec<StateRestore>, SequenceCacheError>,
    layer: usize,
) -> (at: int)
    requires
        checkpoint.num_tokens * elements <= usize::MAX,
        call_ensures(
            ModelCache::rollback_speculative,
            (cache, checkpoint, accepted, elements),
            r,
        ),
        layer < old(cache)@.layers.len() <= usize::MAX,
        old(cache)@.layers[layer as int] == LayerKind::Conv,
        checkpoint.conv_layers@ == conv_layers(
            old(cache)@.layers,
            old(cache)@.layers.len() as int,
        ),
    ensures
        r is Ok <==> accepted < checkpoint.num_tokens,
        r is Err ==> final(cache)@ == old(cache)@,
        r is Ok ==> {
            &&& final(cache)@.length == checkpoint.start_sequence_length + 1 + accepted
            &&& final(cache)@.layers == old(cache)@.layers
            &&& final(cache)@.capacity == old(cache)@.capacity
        },
        r is Ok && accepted + 1 == checkpoint.num_tokens ==> r->Ok_0@.len() == 0,
        r is Ok && accepted + 1 < checkpoint.num_tokens ==> {
            &&& r->Ok_0@.len() == checkpoint.conv_layers@.len()
            &&& 0 <= at < r->Ok_0@.len()
            &&& r->Ok_0@[at].layer == layer
            &&& r->Ok_0@[at].source_start == accepted * elements
            &&& r->Ok_0@[at].elements == elements
        },
{
    let layers = old(cache)@.layers;
    let listed = conv_layers(layers, layers.len() as int);
    convolutions_have_states(layers, layer);
    assert(listed.contains(layer));
    let at = choose|i: int| 0 <= i < listed.len() && listed[i] == layer;
    if r is Ok && accepted + 1 < checkpoint.num_tokens {
        assert forall|i: int| 0 <= i < listed.len() implies layers[#[trigger] listed[i] as int]
            == LayerKind::Conv by {
            convolutions_have_states(layers, listed[i]);
            assert(listed.contains(listed[i]));
        }
        lemma_restores(layers, listed, accepted as int, elements, listed.len() as int);
        assert(0 <= accepted * elements <= checkpoint.num_tokens * elements) by (nonlinear_arith)
            requires
                accepted <= checkpoint.num_tokens,
                accepted >= 0,
                elements >= 0,
        ;
    }
    at
}

proof fn lemma_restores(
    layers: Seq<LayerKind>,
    recorded: Seq<usize>,
    token: int,
    elements: usize,
    upto: int,
)
    requires
        0 <= upto <= recorded.len(),
        forall|i: int|
            0 <= i < recorded.len() ==> layers[#[trigger] recorded[i] as int] == LayerKind::Conv,
    ensures
        ({
            let r = crate::model::sequence_cache::restores(
                layers,
                recorded,
                token,
                elements,
                upto,
            );
            &&& r.len() == upto
            &&& forall|i: int|
                0 <= i < upto ==> (#[trigger] r[i]) == (StateRestore {
                    layer: recorded[i],
                    source_start: (token * elements) as usize,
                    elements,
                })
        }),
    decreases upto,
{
    if upto > 0 {
        lemma_restores(layers, recorded, token, elements, upto - 1);
    }
}

/// A sequence that is forgotten is empty, and the state of every convolution is cleared.
pub proof fn forgotten_sequences_are_empty(cache: &mut ModelCache, r: Vec<usize>, layer: usize)
    requires
        call_ensures(ModelCache::reset, (cache,), r),
        layer < old(cache)@.layers.len() <= usize::MAX,
    ensures
        final(cache)@.length == 0,
        final(cache)@.capacity == old(cache)@.capacity,
        final(cache)@.layers == old(cache)@.layers,
        r@.contains(layer) <==> old(cache)@.layers[layer as int] == LayerKind::Conv,
{
    convolutions_have_states(old(cache)@.layers, layer);
}

} // verus!
