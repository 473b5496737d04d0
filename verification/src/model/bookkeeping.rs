//! What the serving cache books for each call, slot by slot.
use vstd::prelude::*;

use crate::cache::KvPageSize;
use crate::engine::batch::RaggedBatch;
use crate::model::batch_cache::{
    conv_layers, longest_segment, pages_to_request, row_defect, token_entered, tokens_entered,
    BatchCacheError, BatchModelCache, DecodeSegments, PreparedTokens, PreparedView,
    Released, SlotCache, StateRange,
};
use crate::model::forward::LayerKind;

verus! {

/// What contracts say of a slot is what it holds.
pub proof fn slots_show_their_fields(slot: &SlotCache, cache: &BatchModelCache)
    ensures
        slot@.allocated == slot.allocated_tokens,
        slot@.reserved == slot.reserved_pages,
        slot@.pages == slot.pages@,
        cache.slot_views().len() == cache.slots@.len(),
        forall|i: int|
            0 <= i < cache.slots@.len() ==> #[trigger] cache.slot_views()[i] == cache.slots@[i]@,
{
}

/// Every slot but one is as it was.
pub open spec fn only_slot_changed(before: BatchModelCache, after: BatchModelCache, slot: int) -> bool {
    &&& after.slots@.len() == before.slots@.len()
    &&& after.layers@ == before.layers@
    &&& after.page_size == before.page_size
    &&& after.pages_per_slot == before.pages_per_slot
    &&& after.conv_state_elements == before.conv_state_elements
    &&& forall|i: int|
        0 <= i < before.slots@.len() && i != slot ==> (#[trigger] after.slots@[i])@
            == before.slots@[i]@
}

proof fn lemma_only_slot_changed(
    before: BatchModelCache,
    after: BatchModelCache,
    slot: int,
    view: crate::model::batch_cache::SlotView,
)
    requires
        0 <= slot < before.slots@.len(),
        after.slot_views() == before.slot_views().update(slot, view),
        after.same_shape(before),
    ensures
        only_slot_changed(before, after, slot),
        after.slots@[slot]@ == view,
{
    assert(after.slot_views().len() == after.slots@.len());
    assert forall|i: int| 0 <= i < before.slots@.len() && i != slot implies (
    #[trigger] after.slots@[i])@ == before.slots@[i]@ by {
        assert(after.slot_views()[i] == before.slot_views()[i]);
    }
    assert(after.slot_views()[slot] == view);
}

/// A new cache has as many slots as asked for, all of them empty, and pages for as many
/// positions as the model has.
pub proof fn new_caches_are_empty(
    request_slots: usize,
    maximum_batch_tokens: usize,
    positions: usize,
    attention: &Vec<bool>,
    elements: usize,
    page_size: KvPageSize,
    r: Result<BatchModelCache, BatchCacheError>,
)
    requires
        call_ensures(
            BatchModelCache::new,
            (request_slots, maximum_batch_tokens, positions, attention, elements, page_size),
            r,
        ),
    ensures
        r is Ok <==> request_slots > 0 && maximum_batch_tokens > 0,
        r is Err && request_slots == 0 ==> r->Err_0 == BatchCacheError::NoRequestSlots,
        r is Err && request_slots > 0 ==> r->Err_0 == BatchCacheError::NoTokenCapacity,
        r is Ok ==> {
            let cache = r->Ok_0;
            let page = cache.page_size.tokens();
            &&& cache.slots@.len() == request_slots
            &&& forall|i: int|
                0 <= i < request_slots ==> (#[trigger] cache.slots@[i]).allocated_tokens == 0
                    && cache.slots@[i].reserved_pages == 0 && cache.slots@[i].pages@.len() == 0
            &&& cache.layers@.len() == attention@.len()
            &&& forall|l: int|
                0 <= l < attention@.len() ==> (#[trigger] cache.layers@[l] == LayerKind::Attention
                    <==> attention@[l])
            &&& cache.page_size == page_size
            &&& cache.conv_state_elements == elements
            &&& positions <= cache.pages_per_slot * page < positions + page
            &&& !cache.is_contiguous_prefill && !cache.is_segmented_prefill
        },
{
    if r is Ok {
        let cache = r->Ok_0;
        crate::num::ceil_div_covers(positions as int, page_size.tokens());
        assert(cache.slot_views().len() == request_slots);
        assert forall|i: int| 0 <= i < request_slots implies (
        #[trigger] cache.slots@[i]).allocated_tokens == 0 && cache.slots@[i].reserved_pages == 0
            && cache.slots@[i].pages@.len() == 0 by {
            assert(cache.slot_views()[i] == cache.slots@[i]@);
        }
    }
}

/// A slot can be reserved if it is there and has no reservation, and for private pages only
/// if there are any.
pub proof fn free_slots_can_be_reserved(
    cache: &BatchModelCache,
    slot: usize,
    pages: usize,
    any: Result<(), BatchCacheError>,
    private: Result<(), BatchCacheError>,
)
    requires
        call_ensures(BatchModelCache::check_reserve, (cache, slot), any),
        call_ensures(BatchModelCache::check_reserve_private, (cache, slot, pages), private),
    ensures
        any is Ok <==> slot < cache.slots@.len() && cache.slots@[slot as int].reserved_pages == 0,
        private is Ok <==> any is Ok && pages > 0,
        any is Err ==> private == any,
        any is Err ==> (any->Err_0 == BatchCacheError::SlotOutOfRange <==> slot
            >= cache.slots@.len()),
        any is Err ==> (any->Err_0 == BatchCacheError::AlreadyReserved <==> slot
            < cache.slots@.len()),
        any is Ok && private is Err ==> private->Err_0 == BatchCacheError::NothingToReserve,
{
}

/// Reserving books the pages to the slot and changes nothing else of it, nor any other slot.
pub proof fn reservations_are_booked(cache: &mut BatchModelCache, slot: usize, pages: usize, r: ())
    requires
        slot < old(cache).slots@.len(),
        call_ensures(BatchModelCache::reserve, (cache, slot, pages), r),
    ensures
        only_slot_changed(*old(cache), *final(cache), slot as int),
        final(cache).slots@[slot as int].reserved_pages == pages,
        final(cache).slots@[slot as int].allocated_tokens == old(cache).slots@[slot as int].allocated_tokens,
        final(cache).slots@[slot as int].pages@ == old(cache).slots@[slot as int].pages@,
{
    let before = *old(cache);
    let after = *final(cache);
    lemma_only_slot_changed(before, after, slot as int, after.slot_views()[slot as int]);
    assert(after.slot_views()[slot as int].reserved == pages);
}

proof fn lemma_conv_layers(layers: Seq<LayerKind>, upto: int)
    requires
        0 <= upto <= layers.len() <= usize::MAX,
    ensures
        forall|l: int|
            0 <= l < upto ==> (conv_layers(layers, upto).contains(l as usize)
                <==> #[trigger] layers[l] == LayerKind::Conv),
        forall|i: int|
            0 <= i < conv_layers(layers, upto).len() ==> #[trigger] conv_layers(layers, upto)[i]
                < upto,
        forall|i: int, j: int|
            0 <= i < j < conv_layers(layers, upto).len() ==> #[trigger] conv_layers(layers, upto)[i]
                < #[trigger] conv_layers(layers, upto)[j],
    decreases upto,
{
    if upto > 0 {
        lemma_conv_layers(layers, upto - 1);
        let less = conv_layers(layers, upto - 1);
        let more = conv_layers(layers, upto);
        assert forall|l: int| 0 <= l < upto implies (more.contains(l as usize)
            <==> #[trigger] layers[l] == LayerKind::Conv) by {
            if l < upto - 1 {
                assert(less.contains(l as usize) <==> layers[l] == LayerKind::Conv);
                if less.contains(l as usize) {
                    let i = choose|i: int| 0 <= i < less.len() && less[i] == l as usize;
                    assert(more[i] == l as usize);
                }
                if more.contains(l as usize) {
                    let i = choose|i: int| 0 <= i < more.len() && more[i] == l as usize;
                    if i == less.len() {
                        assert(more[i] == (upto - 1) as usize);
                    } else {
                        assert(less[i] == l as usize);
                    }
                }
            } else if layers[l] == LayerKind::Conv {
                assert(more[less.len() as int] == l as usize);
            } else if more.contains(l as usize) {
                let i = choose|i: int| 0 <= i < more.len() && more[i] == l as usize;
                assert(less[i] < upto - 1);
            }
        }
    }
}

/// Of the layers, exactly the convolutions have a state to save, in the order of the layers.
pub proof fn convolutions_have_states(layers: Seq<LayerKind>, layer: usize)
    requires
        layer < layers.len() <= usize::MAX,
    ensures
        ({
            let listed = conv_layers(layers, layers.len() as int);
            &&& listed.contains(layer) <==> layers[layer as int] == LayerKind::Conv
            &&& forall|i: int, j: int|
                0 <= i < j < listed.len() ==> #[trigger] listed[i] < #[trigger] listed[j]
            &&& forall|i: int| 0 <= i < listed.len() ==> #[trigger] listed[i] < layers.len()
        }),
{
    lemma_conv_layers(layers, layers.len() as int);
}

/// Releasing empties the slot, gives back all that it held, and clears its part of the state
/// of every convolution. No other slot changes.
pub proof fn releasing_gives_everything_back(
    cache: &mut BatchModelCache,
    slot: usize,
    r: Result<Released, BatchCacheError>,
    layer: usize,
)
    requires
        call_ensures(BatchModelCache::release, (cache, slot), r),
        old(cache).layers@.len() <= usize::MAX,
    ensures
        r is Err && r->Err_0 == BatchCacheError::SlotOutOfRange <==> slot >= old(cache).slots@.len(),
        slot < old(cache).slots@.len() ==> {
            let left = final(cache).slots@[slot as int];
            &&& only_slot_changed(*old(cache), *final(cache), slot as int)
            &&& left.allocated_tokens == 0
            &&& left.reserved_pages == 0
            &&& left.pages@.len() == 0
        },
        r is Ok ==> {
            let held = old(cache).slots@[slot as int];
            let given = r->Ok_0;
            let elements = old(cache).conv_state_elements;
            &&& given.tokens == held.allocated_tokens
            &&& given.pages@ == held.pages@
            &&& given.reserved_pages == held.reserved_pages
            &&& forall|i: int|
                0 <= i < given.states@.len() ==> {
                    let state = #[trigger] given.states@[i];
                    &&& state.layer < old(cache).layers@.len()
                    &&& old(cache).layers@[state.layer as int] == LayerKind::Conv
                    &&& state.start == slot * elements
                    &&& state.elements == elements
                }
            &&& layer < old(cache).layers@.len() && old(cache).layers@[layer as int]
                == LayerKind::Conv ==> given.states@.contains(
                (StateRange { layer, start: (slot * elements) as usize, elements }),
            )
        },
{
    let before = *old(cache);
    let after = *final(cache);
    if slot < before.slots@.len() {
        lemma_only_slot_changed(
            before,
            after,
            slot as int,
            crate::model::batch_cache::SlotView::vacant(),
        );
    }
    if r is Ok {
        let given = r->Ok_0;
        let listed = conv_layers(before.layers@, before.layers@.len() as int);
        lemma_conv_layers(before.layers@, before.layers@.len() as int);
        assert forall|i: int| 0 <= i < given.states@.len() implies {
            let state = #[trigger] given.states@[i];
            &&& state.layer < before.layers@.len()
            &&& before.layers@[state.layer as int] == LayerKind::Conv
            &&& state.start == slot * before.conv_state_elements
            &&& state.elements == before.conv_state_elements
        } by {
            assert(given.states@[i].layer == listed[i]);
            assert(listed.contains(listed[i]));
            assert(before.layers@[listed[i] as int] == LayerKind::Conv);
            assert(slot * before.conv_state_elements >= 0) by (nonlinear_arith);
        }
        if layer < before.layers@.len() && before.layers@[layer as int] == LayerKind::Conv {
            assert(before.layers@[layer as int] == LayerKind::Conv);
            assert(listed.contains(layer));
            let i = choose|i: int| 0 <= i < listed.len() && listed[i] == layer;
            assert(given.states@[i] == (StateRange {
                layer,
                start: (slot * before.conv_state_elements) as usize,
                elements: before.conv_state_elements,
            }));
        }
    }
}

/// How many of the first `upto` tokens are for a slot.
pub open spec fn tokens_for(slots: Seq<u32>, slot: int, upto: int) -> int
    decreases upto,
{
    if upto <= 0 {
        0
    } else {
        tokens_for(slots, slot, upto - 1) + if slots[upto - 1] == slot {
            1int
        } else {
            0int
        }
    }
}

/// How many of the first `upto` tokens start a page.
pub open spec fn pages_started(positions: Seq<u32>, page: int, upto: int) -> int
    decreases upto,
{
    if upto <= 0 {
        0
    } else {
        pages_started(positions, page, upto - 1) + if positions[upto - 1] as int % page == 0 {
            1int
        } else {
            0int
        }
    }
}

/// As many pages are asked for as tokens start one.
pub proof fn a_page_is_asked_for_where_one_starts(positions: &Vec<u32>, page: KvPageSize, r: usize)
    requires
        call_ensures(pages_to_request, (positions, page), r),
    ensures
        page == KvPageSize::P16 ==> r == pages_started(positions@, 16, positions@.len() as int),
        page == KvPageSize::P32 ==> r == pages_started(positions@, 32, positions@.len() as int),
{
    lemma_page_starts(positions@, page.tokens(), positions@.len() as int);
}

proof fn lemma_page_starts(positions: Seq<u32>, page: int, upto: int)
    ensures
        crate::model::batch_cache::page_starts(positions, page, upto) == pages_started(
            positions,
            page,
            upto,
        ),
    decreases upto,
{
    if upto > 0 {
        lemma_page_starts(positions, page, upto - 1);
    }
}

/// What is booked once the first `upto` tokens are entered.
pub open spec fn is_booked(
    before: Seq<crate::model::batch_cache::SlotView>,
    view: PreparedView,
    positions: Seq<u32>,
    slots: Seq<u32>,
    grants: Seq<u32>,
    page: int,
    upto: int,
) -> bool {
    &&& view.slots.len() == before.len()
    &&& forall|s: int|
        0 <= s < before.len() ==> {
            let now = #[trigger] view.slots[s];
            &&& now.allocated == before[s].allocated + tokens_for(slots, s, upto)
            &&& now.reserved == before[s].reserved
            &&& now.pages.len() >= before[s].pages.len()
            &&& now.pages.take(before[s].pages.len() as int) == before[s].pages
        }
    &&& view.used == pages_started(positions, page, upto)
    &&& view.updates.len() == view.used
    &&& view.used <= grants.len()
    &&& view.physical.len() == upto
    &&& forall|k: int|
        0 <= k < view.updates.len() ==> {
            let update = #[trigger] view.updates[k];
            &&& update.page == grants[k]
            &&& update.slot < view.slots.len()
            &&& update.index < view.slots[update.slot as int].pages.len()
            &&& view.slots[update.slot as int].pages[update.index as int] == grants[k]
        }
}

/// The token at `i` comes right behind those of its request.
pub open spec fn comes_next(
    before: Seq<crate::model::batch_cache::SlotView>,
    positions: Seq<u32>,
    slots: Seq<u32>,
    i: int,
) -> bool {
    &&& slots[i] < before.len()
    &&& before[slots[i] as int].reserved > 0
    &&& positions[i] == before[slots[i] as int].allocated + tokens_for(slots, slots[i] as int, i)
}

proof fn lemma_booked(
    before: PreparedView,
    positions: Seq<u32>,
    slots: Seq<u32>,
    grants: Seq<u32>,
    geometry: crate::model::batch_cache::Geometry,
    upto: int,
)
    requires
        before.error is None,
        before.used == 0,
        before.updates.len() == 0,
        before.physical.len() == 0,
        0 <= upto <= positions.len() == slots.len(),
        geometry.page_size == 16 || geometry.page_size == 32,
        geometry.pages_per_slot <= usize::MAX,
        tokens_entered(before, positions, slots, grants, geometry, upto).error is None,
    ensures
        is_booked(
            before.slots,
            tokens_entered(before, positions, slots, grants, geometry, upto),
            positions,
            slots,
            grants,
            geometry.page_size,
            upto,
        ),
        forall|i: int| 0 <= i < upto ==> #[trigger] comes_next(before.slots, positions, slots, i),
    decreases upto,
{
    if upto > 0 {
        let at = upto - 1;
        let last = tokens_entered(before, positions, slots, grants, geometry, at);
        let now = tokens_entered(before, positions, slots, grants, geometry, upto);
        assert(last.error is None);
        lemma_booked(before, positions, slots, grants, geometry, at);
        let slot = slots[at] as int;
        assert(now == token_entered(last, positions[at], slots[at], grants, geometry));
        assert(comes_next(before.slots, positions, slots, at));
        assert forall|s: int| 0 <= s < before.slots.len() implies {
            let view = #[trigger] now.slots[s];
            &&& view.allocated == before.slots[s].allocated + tokens_for(slots, s, upto)
            &&& view.reserved == before.slots[s].reserved
            &&& view.pages.len() >= before.slots[s].pages.len()
            &&& view.pages.take(before.slots[s].pages.len() as int) == before.slots[s].pages
        } by {
            assert(last.slots[s].pages.take(before.slots[s].pages.len() as int)
                == before.slots[s].pages);
            if s == slot {
                assert(now.slots[s].pages.take(before.slots[s].pages.len() as int)
                    =~= last.slots[s].pages.take(before.slots[s].pages.len() as int));
            }
        }
        assert forall|k: int| 0 <= k < now.updates.len() implies {
            let update = #[trigger] now.updates[k];
            &&& update.page == grants[k]
            &&& update.slot < now.slots.len()
            &&& update.index < now.slots[update.slot as int].pages.len()
            &&& now.slots[update.slot as int].pages[update.index as int] == grants[k]
        } by {
            if k < last.updates.len() {
                assert(now.updates[k] == last.updates[k]);
            }
        }
    } else {
        assert forall|s: int| 0 <= s < before.slots.len() implies (
        #[trigger] before.slots[s]).pages.take(before.slots[s].pages.len() as int)
            == before.slots[s].pages by {
            assert(before.slots[s].pages.take(before.slots[s].pages.len() as int)
                =~= before.slots[s].pages);
        }
    }
}

/// Entering a batch succeeds only if each of its tokens comes right behind those of its
/// request. Then each request has its tokens and keeps its pages and its reservation, a new
/// page is taken for every token that starts one and entered into the table of its request,
/// and the grants are taken in order.
pub proof fn entered_batches_are_booked(
    cache: &mut BatchModelCache,
    tokens: usize,
    positions: &Vec<u32>,
    request_slots: &Vec<u32>,
    grants: &Vec<u32>,
    r: Result<PreparedTokens, BatchCacheError>,
)
    requires
        call_ensures(
            BatchModelCache::prepare_tokens,
            (cache, tokens, positions, request_slots, grants),
            r,
        ),
        r is Ok,
    ensures
        tokens == positions@.len() == request_slots@.len(),
        forall|i: int|
            0 <= i < tokens ==> #[trigger] comes_next(
                old(cache).slot_views(),
                positions@,
                request_slots@,
                i,
            ),
        is_booked(
            old(cache).slot_views(),
            (PreparedView {
                slots: final(cache).slot_views(),
                physical: r->Ok_0.physical_slots@,
                updates: r->Ok_0.table_updates@,
                used: r->Ok_0.granted_pages_used as nat,
                error: None,
            }),
            positions@,
            request_slots@,
            grants@,
            old(cache).page_size.tokens(),
            tokens as int,
        ),
        final(cache).layers@ == old(cache).layers@,
        final(cache).page_size == old(cache).page_size,
        final(cache).pages_per_slot == old(cache).pages_per_slot,
{
    lemma_booked(
        old(cache).unprepared(),
        positions@,
        request_slots@,
        grants@,
        old(cache).geometry(),
        tokens as int,
    );
}

/// One token is entered exactly if its slot is there and reserved, it comes right behind the
/// tokens of its request, and, if it starts a page, one is granted and fits the table. What
/// fails is told apart, and books nothing.
pub proof fn single_tokens_are_entered_behind_the_others(
    cache: &mut BatchModelCache,
    positions: &Vec<u32>,
    request_slots: &Vec<u32>,
    grants: &Vec<u32>,
    r: Result<PreparedTokens, BatchCacheError>,
)
    requires
        old(cache).well_formed(),
        positions@.len() == 1,
        request_slots@.len() == 1,
        call_ensures(
            BatchModelCache::prepare_tokens,
            (cache, 1, positions, request_slots, grants),
            r,
        ),
        (u32::MAX as int) < usize::MAX,
    ensures
        ({
            let slot = request_slots@[0] as int;
            let position = positions@[0] as int;
            let page = old(cache).page_size.tokens();
            let own = old(cache).slots@[slot];
            let starts = position % page == 0;
            let known = slot < old(cache).slots@.len();
            let next = position == own.allocated_tokens;
            let paged = !starts || grants@.len() > 0 && own.pages@.len() < old(cache).pages_per_slot;
            let place = (if starts {
                grants@[0]
            } else {
                own.pages@[position / page]
            }) * page + position % page;
            &&& r is Ok <==> known && own.reserved_pages > 0 && next && paged && place
                <= usize::MAX
            &&& r is Ok ==> r->Ok_0.physical_slots@ == seq![place as i64]
            &&& r is Ok ==> final(cache).slots@[slot].allocated_tokens == own.allocated_tokens + 1
            &&& !known ==> r->Err_0 == BatchCacheError::SlotOutOfRange
            &&& known && own.reserved_pages == 0 ==> r->Err_0 == BatchCacheError::NotReserved
            &&& known && own.reserved_pages > 0 && !next ==> r->Err_0
                == BatchCacheError::NotSequential
            &&& known && own.reserved_pages > 0 && next && !paged ==> r->Err_0
                == BatchCacheError::PagesExhausted
            &&& known && own.reserved_pages > 0 && next && paged && place > usize::MAX ==> r->Err_0
                == BatchCacheError::PhysicalSlotOverflow
            &&& r is Err && r->Err_0 != BatchCacheError::PhysicalSlotOverflow ==> final(cache).slot_views() == old(cache).slot_views()
        }),
{
    let before = old(cache).unprepared();
    let geometry = old(cache).geometry();
    let after = tokens_entered(before, positions@, request_slots@, grants@, geometry, 1);
    reveal_with_fuel(tokens_entered, 2);
    assert(after == token_entered(before, positions@[0], request_slots@[0], grants@, geometry));
    let slot = request_slots@[0] as int;
    let page = old(cache).page_size.tokens();
    let position = positions@[0] as int;
    if slot < old(cache).slots@.len() {
        let own = old(cache).slots@[slot];
        assert(before.slots[slot] == own@);
        assert(own@.well_formed(page, old(cache).pages_per_slot as int));
        if position == own.allocated_tokens {
            assert(position % page == 0 ==> own.pages@.len() == position / page);
            assert(own.pages@.push(grants@[0])[own.pages@.len() as int] == grants@[0]);
        }
    }
    if r is Ok {
        assert(final(cache).slot_views().len() == final(cache).slots@.len());
        assert(final(cache).slot_views()[slot] == final(cache).slots@[slot]@);
        assert(final(cache).slot_views()[slot] == after.slots[slot]);
        assert(r->Ok_0.physical_slots@ == after.physical);
        assert(after.physical =~= seq![after.physical[0]]);
    }
}

/// A prefix can be shared with a slot exactly if it is whole pages, as many as are given, and
/// the slot is there, reserved and still empty.
pub proof fn whole_pages_are_shared_with_empty_slots(
    cache: &BatchModelCache,
    slot: usize,
    prefix: usize,
    pages: &Vec<u32>,
    r: Result<(), BatchCacheError>,
)
    requires
        call_ensures(BatchModelCache::check_attach, (cache, slot, prefix, pages), r),
    ensures
        ({
            let page = cache.page_size.tokens();
            let own = cache.slots@[slot as int];
            &&& r is Ok <==> prefix > 0 && pages@.len() * page == prefix && slot
                < cache.slots@.len() && own.allocated_tokens == 0 && own.reserved_pages > 0
            &&& prefix == 0 <==> r == Err::<(), BatchCacheError>(BatchCacheError::PrefixEmpty)
            &&& prefix > 0 && prefix as int % page != 0 <==> r == Err::<(), BatchCacheError>(
                BatchCacheError::PrefixNotAligned,
            )
            &&& r == Err::<(), BatchCacheError>(BatchCacheError::SlotNotEmpty)
                ==> own.allocated_tokens > 0
            &&& r == Err::<(), BatchCacheError>(BatchCacheError::NotReserved)
                ==> own.reserved_pages == 0
            &&& r == Err::<(), BatchCacheError>(BatchCacheError::SlotOutOfRange) ==> slot
                >= cache.slots@.len()
            &&& r == Err::<(), BatchCacheError>(BatchCacheError::PrefixPageCount)
                ==> pages@.len() * page != prefix
        }),
{
    let page = cache.page_size.tokens();
    assert(page == 16 || page == 32);
    if slot < cache.slots@.len() {
        assert(cache.slot_views()[slot as int] == cache.slots@[slot as int]@);
    }
}

/// Sharing a prefix gives its tokens and pages to the slot, which keeps its reservation, and
/// brings back the state of every convolution. No other slot changes.
pub proof fn shared_prefixes_are_booked(
    cache: &mut BatchModelCache,
    slot: usize,
    prefix: usize,
    pages: &Vec<u32>,
    r: Vec<usize>,
    layer: usize,
)
    requires
        slot < old(cache).slots@.len(),
        layer < old(cache).layers@.len() <= usize::MAX,
        call_ensures(BatchModelCache::attach_prefix, (cache, slot, prefix, pages), r),
    ensures
        ({
            let now = final(cache).slots@[slot as int];
            &&& only_slot_changed(*old(cache), *final(cache), slot as int)
            &&& now.allocated_tokens == prefix
            &&& now.pages@ == pages@
            &&& now.reserved_pages == old(cache).slots@[slot as int].reserved_pages
            &&& r@.contains(layer) <==> old(cache).layers@[layer as int] == LayerKind::Conv
            &&& forall|i: int, j: int|
                0 <= i < j < r@.len() ==> #[trigger] r@[i] < #[trigger] r@[j]
        }),
{
    let view = final(cache).slot_views()[slot as int];
    lemma_only_slot_changed(*old(cache), *final(cache), slot as int, view);
    convolutions_have_states(old(cache).layers@, layer);
}

/// An attached prefix can be made longer exactly if both lengths are whole pages, it grows,
/// the slot still ends where it did, the pages are those of the longer prefix and begin with
/// those of the shorter, and the reservation covers what is added.
pub proof fn untouched_prefixes_can_grow(
    cache: &BatchModelCache,
    slot: usize,
    current: usize,
    extended: usize,
    pages: &Vec<u32>,
    r: Result<(), BatchCacheError>,
)
    requires
        call_ensures(
            BatchModelCache::check_extension,
            (cache, slot, current, extended, pages),
            r,
        ),
        cache.well_formed(),
    ensures
        ({
            let page = cache.page_size.tokens();
            let own = cache.slots@[slot as int];
            &&& r is Ok <==> {
                &&& slot < cache.slots@.len()
                &&& current as int % page == 0
                &&& extended as int % page == 0
                &&& current < extended
                &&& own.allocated_tokens == current
                &&& pages@.len() * page == extended
                &&& own.reserved_pages * page >= extended - current
                &&& forall|i: int|
                    0 <= i < own.pages@.len() ==> #[trigger] own.pages@[i] == pages@[i]
            }
            &&& r is Err && r->Err_0 == BatchCacheError::ReservationTooSmall
                ==> own.reserved_pages * page < extended - current
            &&& r is Err && r->Err_0 == BatchCacheError::PrefixTouched ==> own.allocated_tokens
                != current
            &&& r is Err && r->Err_0 == BatchCacheError::PrefixNotExtended ==> extended <= current
            &&& r is Err && r->Err_0 == BatchCacheError::SlotOutOfRange ==> slot
                >= cache.slots@.len()
        }),
{
    let page = cache.page_size.tokens();
    assert(page == 16 || page == 32);
    if slot < cache.slots@.len() {
        let own = cache.slots@[slot as int];
        assert(cache.slot_views()[slot as int] == own@);
        assert(own@.well_formed(page, cache.pages_per_slot as int));
        let taken = pages@.take(current as int / page);
        if own.allocated_tokens == current && current as int % page == 0 {
            assert(own.pages@.len() == current as int / page);
            if pages@.len() >= own.pages@.len() {
                if forall|i: int|
                    0 <= i < own.pages@.len() ==> #[trigger] own.pages@[i] == pages@[i] {
                    assert(taken =~= own.pages@);
                }
                if taken == own.pages@ {
                    assert forall|i: int| 0 <= i < own.pages@.len() implies #[trigger] own.pages@[i]
                        == pages@[i] by {
                        assert(taken[i] == pages@[i]);
                    }
                }
            }
        }
    }
}

/// A longer prefix takes the place of the shorter, and what it adds is taken off the
/// reservation. No other slot changes.
pub proof fn grown_prefixes_are_booked(
    cache: &mut BatchModelCache,
    slot: usize,
    current: usize,
    extended: usize,
    pages: &Vec<u32>,
    r: (usize, Vec<usize>),
    layer: usize,
)
    requires
        slot < old(cache).slots@.len(),
        layer < old(cache).layers@.len() <= usize::MAX,
        current as int % old(cache).page_size.tokens() == 0,
        extended as int % old(cache).page_size.tokens() == 0,
        old(cache).slots@[slot as int].reserved_pages * old(cache).page_size.tokens() >= extended
            - current >= 0,
        call_ensures(
            BatchModelCache::extend_attached_prefix,
            (cache, slot, current, extended, pages),
            r,
        ),
    ensures
        ({
            let now = final(cache).slots@[slot as int];
            &&& only_slot_changed(*old(cache), *final(cache), slot as int)
            &&& now.allocated_tokens == extended
            &&& now.pages@ == pages@
            &&& r.0 * old(cache).page_size.tokens() == extended - current
            &&& now.reserved_pages + r.0 == old(cache).slots@[slot as int].reserved_pages
            &&& r.1@.contains(layer) <==> old(cache).layers@[layer as int] == LayerKind::Conv
        }),
{
    let page = old(cache).page_size.tokens();
    assert(page == 16 || page == 32);
    let view = final(cache).slot_views()[slot as int];
    lemma_only_slot_changed(*old(cache), *final(cache), slot as int, view);
    convolutions_have_states(old(cache).layers@, layer);
}

/// A prefix is published exactly if it is not empty, whole pages, no longer than the request,
/// and the prefix cache wants it; then its pages are the first of the slot. A slot that does
/// not hold the prefix is told apart.
pub proof fn computed_prefixes_are_published(
    cache: &BatchModelCache,
    slot: usize,
    request: usize,
    prefix: usize,
    can_publish: bool,
    r: Result<Option<Vec<u32>>, BatchCacheError>,
)
    requires
        cache.well_formed(),
        call_ensures(
            BatchModelCache::publishable_pages,
            (cache, slot, request, prefix, can_publish),
            r,
        ),
    ensures
        ({
            let page = cache.page_size.tokens();
            let wanted = can_publish && 0 < prefix <= request && prefix as int % page == 0;
            let held = slot < cache.slots@.len() && prefix
                <= cache.slots@[slot as int].allocated_tokens;
            &&& r is Ok && r->Ok_0 is None <==> !wanted
            &&& r is Ok && r->Ok_0 is Some <==> wanted && held
            &&& wanted && slot >= cache.slots@.len() ==> r->Err_0
                == BatchCacheError::SlotOutOfRange
            &&& wanted && slot < cache.slots@.len() && !held ==> r->Err_0
                == BatchCacheError::PrefixBeyondCache
            &&& r is Ok && r->Ok_0 is Some ==> {
                let pages = r->Ok_0->0@;
                &&& pages.len() * page == prefix
                &&& pages.len() <= cache.slots@[slot as int].pages@.len()
                &&& forall|i: int|
                    0 <= i < pages.len() ==> #[trigger] pages[i]
                        == cache.slots@[slot as int].pages@[i]
            }
        }),
{
    let page = cache.page_size.tokens();
    assert(page == 16 || page == 32);
    if slot < cache.slots@.len() {
        assert(cache.slots@[slot as int]@.well_formed(page, cache.pages_per_slot as int));
    }
}

/// A batch counts as one prompt if it is a single segment of several tokens that starts at
/// the first position, and as several prompts if it has several segments that all start
/// there. Only then is the longest segment noted.
pub proof fn batches_are_classified_by_their_starts(
    cache: &mut BatchModelCache,
    batch: &RaggedBatch,
    grants: &Vec<u32>,
    r: Result<PreparedTokens, BatchCacheError>,
)
    requires
        call_ensures(BatchModelCache::prepare_ragged, (cache, batch, grants), r),
        batch.token_ids@.len() == batch.positions@.len(),
        batch.segment_offsets@.len() > 1,
        forall|s: int|
            0 <= s < batch.segment_offsets@.len() - 1 ==> (#[trigger] batch.segment_offsets@[s])
                < batch.token_ids@.len(),
        batch.segment_offsets@[0] == 0,
    ensures
        ({
            let segments = batch.segment_offsets@.len() - 1;
            let fresh = forall|s: int|
                0 <= s < segments ==> batch.positions@[(
                #[trigger] batch.segment_offsets@[s]) as int] == 0;
            &&& final(cache).is_contiguous_prefill <==> segments == 1 && fresh
                && batch.token_ids@.len() > 1
            &&& final(cache).is_segmented_prefill <==> segments > 1 && fresh
                && batch.token_ids@.len() > 1
            &&& !final(cache).is_segmented_prefill ==> final(cache).max_segment_tokens == 0
        }),
{
    let b = batch@;
    let segments = batch.segment_offsets@.len() - 1;
    if forall|s: int|
        0 <= s < segments ==> batch.positions@[(#[trigger] batch.segment_offsets@[s]) as int]
            == 0 {
        assert(batch.positions@[batch.segment_offsets@[0] as int] == 0);
        assert forall|s: int| 0 <= s < segments implies #[trigger]
            crate::model::batch_cache::segment_starts_request(b, s) by {
            assert(batch.segment_offsets@[s] < batch.token_ids@.len());
        }
    } else {
        let s = choose|s: int|
            0 <= s < segments && batch.positions@[(#[trigger] batch.segment_offsets@[s]) as int]
                != 0;
        assert(!crate::model::batch_cache::segment_starts_request(b, s));
    }
}

proof fn lemma_longest(offsets: Seq<u32>, upto: int) -> (at: int)
    requires
        0 < upto < offsets.len(),
        forall|s: int| 0 <= s < offsets.len() - 1 ==> #[trigger] offsets[s] < offsets[s + 1],
    ensures
        0 <= at < upto,
        longest_segment(offsets, upto) == offsets[at + 1] - offsets[at],
        forall|s: int|
            0 <= s < upto ==> offsets[s + 1] - #[trigger] offsets[s] <= longest_segment(
                offsets,
                upto,
            ),
    decreases upto,
{
    assert(offsets[upto - 1] < offsets[upto - 1 + 1]);
    if upto == 1 {
        assert(longest_segment(offsets, 0) == 0);
        0
    } else {
        let earlier = lemma_longest(offsets, upto - 1);
        if longest_segment(offsets, upto - 1) >= offsets[upto] - offsets[upto - 1] {
            earlier
        } else {
            upto - 1
        }
    }
}

/// Of several prompts, the longest segment is noted.
pub proof fn the_longest_segment_is_noted(
    cache: &mut BatchModelCache,
    batch: &RaggedBatch,
    grants: &Vec<u32>,
    r: Result<PreparedTokens, BatchCacheError>,
) -> (at: int)
    requires
        call_ensures(BatchModelCache::prepare_ragged, (cache, batch, grants), r),
        batch.segment_offsets@.len() > 1,
        forall|s: int|
            0 <= s < batch.segment_offsets@.len() - 1 ==> #[trigger] batch.segment_offsets@[s]
                < batch.segment_offsets@[s + 1],
        final(cache).is_segmented_prefill,
    ensures
        0 <= at < batch.segment_offsets@.len() - 1,
        final(cache).max_segment_tokens == batch.segment_offsets@[at + 1]
            - batch.segment_offsets@[at],
        forall|s: int|
            0 <= s < batch.segment_offsets@.len() - 1 ==> batch.segment_offsets@[s + 1]
                - #[trigger] batch.segment_offsets@[s] <= final(cache).max_segment_tokens,
{
    lemma_longest(batch.segment_offsets@, batch.segment_offsets@.len() - 1)
}

proof fn lemma_rows(batch: crate::engine::batch::RaggedView, upto: int, i: int)
    requires
        row_defect(batch, upto) is None,
        0 <= i < upto,
    ensures
        batch.output_rows[i] < batch.token_ids.len(),
        batch.output_rows[i] < batch.request_slots.len(),
        batch.request_slots[batch.output_rows[i] as int] == batch.segment_slots[i],
    decreases upto,
{
    if i < upto - 1 {
        lemma_rows(batch, upto - 1, i);
    }
}

/// A ragged batch is entered only if its segments follow each other without a gap to its end
/// and each output row belongs to the request of its segment. Then its tokens are entered as
/// any others are.
pub proof fn entered_segments_are_sound(
    cache: &mut BatchModelCache,
    batch: &RaggedBatch,
    grants: &Vec<u32>,
    r: Result<PreparedTokens, BatchCacheError>,
    s: int,
    i: int,
)
    requires
        call_ensures(BatchModelCache::prepare_ragged, (cache, batch, grants), r),
        r is Ok,
        0 <= s < batch.segment_offsets@.len() - 1,
        0 <= i < batch.output_rows@.len(),
        i < batch.segment_slots@.len(),
    ensures
        batch.token_ids@.len() == batch.positions@.len() == batch.request_slots@.len(),
        batch.segment_offsets@.last() == batch.token_ids@.len(),
        batch.segment_offsets@[s] < batch.segment_offsets@[s + 1],
        batch.output_rows@[i] < batch.token_ids@.len(),
        batch.request_slots@[batch.output_rows@[i] as int] == batch.segment_slots@[i],
        is_booked(
            old(cache).slot_views(),
            (PreparedView {
                slots: final(cache).slot_views(),
                physical: r->Ok_0.physical_slots@,
                updates: r->Ok_0.table_updates@,
                used: r->Ok_0.granted_pages_used as nat,
                error: None,
            }),
            batch.positions@,
            batch.request_slots@,
            grants@,
            old(cache).page_size.tokens(),
            batch.token_ids@.len() as int,
        ),
{
    let b = batch@;
    assert(!crate::model::batch_cache::unordered_at(b.segment_offsets, s));
    lemma_rows(b, crate::model::batch_cache::paired_rows(b), i);
    lemma_booked(
        old(cache).unprepared(),
        b.positions,
        b.request_slots,
        grants@,
        old(cache).geometry(),
        b.token_ids.len() as int,
    );
}

/// A decode batch has one segment for each token, of that token's slot, and an output row at
/// each token. It is no prefill.
pub proof fn decodes_are_segments_of_one(
    cache: &mut BatchModelCache,
    tokens: usize,
    positions: &Vec<u32>,
    request_slots: &Vec<u32>,
    grants: &Vec<u32>,
    r: Result<(PreparedTokens, DecodeSegments), BatchCacheError>,
    i: int,
)
    requires
        call_ensures(
            BatchModelCache::prepare_decode,
            (cache, tokens, positions, request_slots, grants),
            r,
        ),
        0 <= i < tokens,
    ensures
        !final(cache).is_contiguous_prefill,
        !final(cache).is_segmented_prefill,
        final(cache).max_segment_tokens == 0,
        r is Ok ==> {
            let segments = r->Ok_0.1;
            &&& tokens == positions@.len() == request_slots@.len()
            &&& segments.offsets@.len() == tokens + 1
            &&& segments.offsets@[i] == i
            &&& segments.offsets@[i + 1] == i + 1
            &&& segments.slots@ == request_slots@
            &&& segments.output_rows@.len() == tokens
            &&& segments.output_rows@[i] == i
            &&& is_booked(
                old(cache).slot_views(),
                (PreparedView {
                    slots: final(cache).slot_views(),
                    physical: r->Ok_0.0.physical_slots@,
                    updates: r->Ok_0.0.table_updates@,
                    used: r->Ok_0.0.granted_pages_used as nat,
                    error: None,
                }),
                positions@,
                request_slots@,
                grants@,
                old(cache).page_size.tokens(),
                tokens as int,
            )
        },
{
    if r is Ok {
        lemma_booked(
            old(cache).unprepared(),
            positions@,
            request_slots@,
            grants@,
            old(cache).geometry(),
            tokens as int,
        );
    }
}

/// Filling the first slots gives each the same number of tokens and just the pages for them,
/// no page to two slots, and leaves the other slots alone.
pub proof fn filled_slots_have_their_own_pages(
    cache: &mut BatchModelCache,
    request_slots: usize,
    context: usize,
    grants: &Vec<u32>,
    r: Result<(), BatchCacheError>,
    slot: int,
    at: int,
)
    requires
        call_ensures(BatchModelCache::prime_context, (cache, request_slots, context, grants), r),
        r is Ok,
        0 <= slot < old(cache).slots@.len(),
    ensures
        ({
            let page = old(cache).page_size.tokens();
            let was = old(cache).slots@[slot]@;
            let now = final(cache).slots@[slot]@;
            &&& context > 0
            &&& request_slots <= old(cache).slots@.len()
            &&& slot >= request_slots ==> now == was
            &&& slot < request_slots ==> {
                &&& was.allocated == 0 && was.reserved > 0
                &&& now.allocated == context
                &&& now.reserved == was.reserved
                &&& context <= now.pages.len() * page < context + page
                &&& 0 <= at < now.pages.len() ==> now.pages[at] == grants@[slot * now.pages.len()
                    + at]
                &&& (slot + 1) * now.pages.len() <= grants@.len()
            }
        }),
{
    let page = old(cache).page_size.tokens();
    let pages = crate::num::ceil_div(context as int, page);
    crate::num::ceil_div_covers(context as int, page);
    assert(final(cache).slot_views().len() == final(cache).slots@.len());
    assert(final(cache).slot_views()[slot] == final(cache).slots@[slot]@);
    assert(old(cache).slot_views()[slot] == old(cache).slots@[slot]@);
    if slot < request_slots {
        assert(crate::model::batch_cache::prime_defect(
            old(cache).slot_views(),
            slot,
            pages,
            old(cache).pages_per_slot as int,
            grants@,
        ) is None);
        assert(0 <= slot * pages && slot * pages + pages == (slot + 1) * pages)
            by (nonlinear_arith)
            requires
                slot >= 0,
                pages >= 0,
        ;
        assert(final(cache).slots@[slot]@.pages.len() == pages);
        assert(slot * pages == slot * final(cache).slots@[slot]@.pages.len());
    }
}

} // verus!
