//! The shared serving cache: reservations, block tables and shared prefixes.
//!
//! Pages are handed out by an allocator; the library decides when one is needed, where it
//! goes and what it makes addressable.
use vstd::prelude::*;

use crate::cache::KvPageSize;
use crate::engine::batch::RaggedBatch;
#[allow(unused_imports)]
use crate::engine::batch::RaggedView;
use crate::model::forward::LayerKind;
use crate::num::div_ceil;
#[allow(unused_imports)]
use crate::num::ceil_div;

verus! {

/// What the cache keeps for one request slot.
#[derive(Debug)]
pub struct SlotCache {
    pub allocated_tokens: usize,
    pub reserved_pages: usize,
    /// Physical pages, in logical order.
    pub pages: Vec<u32>,
}

#[verifier::ext_equal]
pub struct SlotView {
    pub allocated: nat,
    pub reserved: nat,
    pub pages: Seq<u32>,
}

impl View for SlotCache {
    type V = SlotView;

    open spec fn view(&self) -> SlotView {
        SlotView {
            allocated: self.allocated_tokens as nat,
            reserved: self.reserved_pages as nat,
            pages: self.pages@,
        }
    }
}

impl SlotView {
    pub open spec fn vacant() -> SlotView {
        SlotView { allocated: 0, reserved: 0, pages: Seq::empty() }
    }

    /// Exactly the pages of the allocated tokens are in the table, and they fit it.
    pub open spec fn well_formed(self, page_size: int, pages_per_slot: int) -> bool {
        &&& self.pages.len() == ceil_div(self.allocated as int, page_size)
        &&& self.pages.len() <= pages_per_slot
    }
}

/// The serving cache.
#[derive(Debug)]
pub struct BatchModelCache {
    pub slots: Vec<SlotCache>,
    pub layers: Vec<LayerKind>,
    pub page_size: KvPageSize,
    pub pages_per_slot: usize,
    /// Elements of one request's state in one convolution layer.
    pub conv_state_elements: usize,
    pub is_contiguous_prefill: bool,
    pub is_segmented_prefill: bool,
    pub max_segment_tokens: usize,
}

#[derive(Clone, Copy, Debug, PartialEq, Eq, Structural)]
pub enum BatchCacheError {
    NoRequestSlots,
    NoTokenCapacity,
    SlotOutOfRange,
    AlreadyReserved,
    /// A request asks for no private page.
    NothingToReserve,
    ContextEmpty,
    TooManySlots,
    /// A primed slot must be reserved and empty.
    SlotNotPrimable,
    PositionCount,
    SlotCount,
    NotReserved,
    PositionOverflow,
    /// The token is not the next one of its request.
    NotSequential,
    /// The allocator has no page for a token that needs one, or the table is full.
    PagesExhausted,
    PhysicalSlotOverflow,
    IndexOverflow,
    /// The last segment does not end at the last token.
    LastOffset,
    /// A segment is empty or out of order.
    SegmentOrder,
    OutputRowOutOfRange,
    OutputRowForeign,
    PrefixEmpty,
    PrefixNotAligned,
    PrefixPageCount,
    SlotNotEmpty,
    PrefixNotExtended,
    PrefixTouched,
    ReservationTooSmall,
    /// The new prefix does not continue the attached one.
    PrefixDiverges,
    /// The prefix reaches behind what the request has computed.
    PrefixBeyondCache,
    StateOffsetOverflow,
}

/// A page to enter in a device block table.
#[derive(Clone, Copy, Debug, PartialEq, Eq, Structural)]
pub struct TableUpdate {
    pub slot: usize,
    pub index: usize,
    pub page: u32,
}

/// A range of a convolution layer's states to clear.
#[derive(Clone, Copy, Debug, PartialEq, Eq, Structural)]
pub struct StateRange {
    pub layer: usize,
    pub start: usize,
    pub elements: usize,
}

impl BatchModelCache {
    pub open spec fn slot_views(self) -> Seq<SlotView> {
        Seq::new(self.slots@.len(), |i: int| self.slots@[i]@)
    }

    pub open spec fn well_formed(self) -> bool {
        forall|i: int|
            0 <= i < self.slots@.len() ==> (#[trigger] self.slots@[i])@.well_formed(
                self.page_size.tokens(),
                self.pages_per_slot as int,
            )
    }

    /// Everything but the slots' contents is as in `other`.
    pub open spec fn same_shape(self, other: BatchModelCache) -> bool {
        &&& self.layers == other.layers
        &&& self.page_size == other.page_size
        &&& self.pages_per_slot == other.pages_per_slot
        &&& self.conv_state_elements == other.conv_state_elements
    }

    /// Also the prefill flags are as in `other`.
    pub open spec fn same_flags(self, other: BatchModelCache) -> bool {
        &&& self.is_contiguous_prefill == other.is_contiguous_prefill
        &&& self.is_segmented_prefill == other.is_segmented_prefill
        &&& self.max_segment_tokens == other.max_segment_tokens
    }

    /// An empty cache. `attention[i]` says whether layer `i` keeps keys and values.
    pub fn new(
        request_slots: usize,
        maximum_batch_tokens: usize,
        max_position_embeddings: usize,
        attention: &Vec<bool>,
        conv_state_elements: usize,
        page_size: KvPageSize,
    ) -> (r: Result<Self, BatchCacheError>)
        ensures
            match r {
                Ok(cache) => {
                    &&& request_slots > 0
                    &&& maximum_batch_tokens > 0
                    &&& cache.well_formed()
                    &&& cache.slot_views() == Seq::new(
                        request_slots as nat,
                        |i: int| SlotView::vacant(),
                    )
                    &&& cache.layers@ == Seq::new(
                        attention@.len(),
                        |i: int|
                            if attention@[i] {
                                LayerKind::Attention
                            } else {
                                LayerKind::Conv
                            },
                    )
                    &&& cache.page_size == page_size
                    &&& cache.pages_per_slot == ceil_div(
                        max_position_embeddings as int,
                        page_size.tokens(),
                    )
                    &&& cache.conv_state_elements == conv_state_elements
                    &&& !cache.is_contiguous_prefill
                    &&& !cache.is_segmented_prefill
                    &&& cache.max_segment_tokens == 0
                },
                Err(e) => e == (if request_slots == 0 {
                    BatchCacheError::NoRequestSlots
                } else {
                    BatchCacheError::NoTokenCapacity
                }) && (request_slots == 0 || maximum_batch_tokens == 0),
            },
    {
        if request_slots == 0 {
            return Err(BatchCacheError::NoRequestSlots);
        }
        if maximum_batch_tokens == 0 {
            return Err(BatchCacheError::NoTokenCapacity);
        }
        let mut slots: Vec<SlotCache> = Vec::new();
        while slots.len() < request_slots
            invariant
                slots@.len() <= request_slots,
                forall|i: int| 0 <= i < slots@.len() ==> (#[trigger] slots@[i])@
                    == SlotView::vacant(),
            decreases request_slots - slots@.len(),
        {
            let slot = SlotCache { allocated_tokens: 0, reserved_pages: 0, pages: Vec::new() };
            assert(slot@ =~= SlotView::vacant());
            slots.push(slot);
        }
        let mut layers: Vec<LayerKind> = Vec::new();
        let mut layer: usize = 0;
        while layer < attention.len()
            invariant
                layer <= attention@.len(),
                layers@ == Seq::new(
                    layer as nat,
                    |i: int|
                        if attention@[i] {
                            LayerKind::Attention
                        } else {
                            LayerKind::Conv
                        },
                ),
            decreases attention@.len() - layer,
        {
            layers.push(
                if attention[layer] {
                    LayerKind::Attention
                } else {
                    LayerKind::Conv
                },
            );
            layer = layer + 1;
            assert(layers@ =~= Seq::new(
                layer as nat,
                |i: int|
                    if attention@[i] {
                        LayerKind::Attention
                    } else {
                        LayerKind::Conv
                    },
            ));
        }
        let cache = BatchModelCache {
            slots,
            layers,
            page_size,
            pages_per_slot: div_ceil(max_position_embeddings, page_size.value()),
            conv_state_elements,
            is_contiguous_prefill: false,
            is_segmented_prefill: false,
            max_segment_tokens: 0,
        };
        assert(cache.slot_views() =~= Seq::new(
            request_slots as nat,
            |i: int| SlotView::vacant(),
        ));
        Ok(cache)
    }

    /// Whether a slot can take a reservation.
    pub fn check_reserve(&self, slot: usize) -> (r: Result<(), BatchCacheError>)
        ensures
            r == (if slot >= self.slots@.len() {
                Err::<(), BatchCacheError>(BatchCacheError::SlotOutOfRange)
            } else if self.slots@[slot as int]@.reserved != 0 {
                Err::<(), BatchCacheError>(BatchCacheError::AlreadyReserved)
            } else {
                Ok::<(), BatchCacheError>(())
            }),
    {
        if slot >= self.slots.len() {
            return Err(BatchCacheError::SlotOutOfRange);
        }
        if self.slots[slot].reserved_pages != 0 {
            return Err(BatchCacheError::AlreadyReserved);
        }
        Ok(())
    }

    /// Whether a slot can take a reservation of `pages` private pages. Pages that a shared
    /// prefix already holds are not charged again.
    pub fn check_reserve_private(&self, slot: usize, pages: usize) -> (r: Result<
        (),
        BatchCacheError,
    >)
        ensures
            r == (if slot >= self.slots@.len() {
                Err::<(), BatchCacheError>(BatchCacheError::SlotOutOfRange)
            } else if self.slots@[slot as int]@.reserved != 0 {
                Err::<(), BatchCacheError>(BatchCacheError::AlreadyReserved)
            } else if pages == 0 {
                Err::<(), BatchCacheError>(BatchCacheError::NothingToReserve)
            } else {
                Ok::<(), BatchCacheError>(())
            }),
    {
        match self.check_reserve(slot) {
            Ok(()) => {},
            Err(e) => {
                return Err(e);
            },
        }
        if pages == 0 {
            return Err(BatchCacheError::NothingToReserve);
        }
        Ok(())
    }

    /// Records the pages that the allocator reserved for a slot.
    pub fn reserve(&mut self, slot: usize, granted_pages: usize)
        requires
            old(self).well_formed(),
            slot < old(self).slots@.len(),
            old(self).slots@[slot as int]@.reserved == 0,
        ensures
            final(self).well_formed(),
            final(self).same_shape(*old(self)),
            final(self).same_flags(*old(self)),
            final(self).slot_views() == old(self).slot_views().update(
                slot as int,
                SlotView {
                    reserved: granted_pages as nat,
                    ..old(self).slot_views()[slot as int]
                },
            ),
    {
        let ghost before = self.slot_views();
        self.slots[slot].reserved_pages = granted_pages;
        assert(self.slot_views() =~= before.update(
            slot as int,
            SlotView { reserved: granted_pages as nat, ..before[slot as int] },
        ));
    }

    /// Empties a slot. The answer holds what to give back to the allocator and which states
    /// to clear.
    pub fn release(&mut self, slot: usize) -> (r: Result<Released, BatchCacheError>)
        requires
            old(self).well_formed(),
        ensures
            final(self).well_formed(),
            final(self).same_shape(*old(self)),
            final(self).same_flags(*old(self)),
            match r {
                Ok(released) => {
                    &&& slot < old(self).slots@.len()
                    &&& slot * old(self).conv_state_elements <= usize::MAX || conv_layers(
                        old(self).layers@,
                        old(self).layers@.len() as int,
                    ).len() == 0
                    &&& final(self).slot_views() == old(self).slot_views().update(
                        slot as int,
                        SlotView::vacant(),
                    )
                    &&& released.tokens == old(self).slots@[slot as int]@.allocated
                    &&& released.pages@ == old(self).slots@[slot as int]@.pages
                    &&& released.reserved_pages == old(self).slots@[slot as int]@.reserved
                    &&& released.states@ == state_ranges(
                        conv_layers(old(self).layers@, old(self).layers@.len() as int),
                        slot * old(self).conv_state_elements,
                        old(self).conv_state_elements,
                    )
                },
                Err(BatchCacheError::SlotOutOfRange) => slot >= old(self).slots@.len() && *final(
                    self) == *old(self),
                Err(e) => {
                    &&& e == BatchCacheError::StateOffsetOverflow
                    &&& slot < old(self).slots@.len()
                    &&& slot * old(self).conv_state_elements > usize::MAX
                    &&& conv_layers(
                        old(self).layers@,
                        old(self).layers@.len() as int,
                    ).len() > 0
                    &&& final(self).slot_views() == old(self).slot_views().update(
                        slot as int,
                        SlotView::vacant(),
                    )
                },
            },
    {
        if slot >= self.slots.len() {
            return Err(BatchCacheError::SlotOutOfRange);
        }
        let ghost before = self.slot_views();
        let tokens: usize = self.slots[slot].allocated_tokens;
        let reserved_pages: usize = self.slots[slot].reserved_pages;
        let pages = self.slots[slot].pages.clone();
        assert(pages@ =~= before[slot as int].pages);
        self.slots.set(
            slot,
            SlotCache { allocated_tokens: 0, reserved_pages: 0, pages: Vec::new() },
        );
        proof {
            assert(self.slots@[slot as int]@ =~= SlotView::vacant());
            assert(self.slot_views() =~= before.update(slot as int, SlotView::vacant()));
        }
        let elements: usize = self.conv_state_elements;
        let mut states: Vec<StateRange> = Vec::new();
        let mut layer: usize = 0;
        while layer < self.layers.len()
            invariant
                layer <= self.layers@.len(),
                slot < self.slots@.len(),
                elements == self.conv_state_elements,
                states@ == state_ranges(
                    conv_layers(self.layers@, layer as int),
                    slot * elements,
                    elements,
                ),
                slot * elements <= usize::MAX || conv_layers(self.layers@, layer as int).len()
                    == 0,
                self.well_formed(),
                self.same_shape(*old(self)),
                self.same_flags(*old(self)),
                slot < old(self).slots@.len(),
                self.slot_views() == old(self).slot_views().update(slot as int, SlotView::vacant()),
            decreases self.layers@.len() - layer,
        {
            if self.layers[layer] == LayerKind::Conv {
                let start: usize = match slot.checked_mul(elements) {
                    Some(start) => start,
                    None => {
                        proof {
                            lemma_conv_layers_grow(
                                self.layers@,
                                layer + 1,
                                self.layers@.len() as int,
                            );
                        }
                        return Err(BatchCacheError::StateOffsetOverflow);
                    },
                };
                states.push(StateRange { layer, start, elements });
            }
            layer = layer + 1;
            assert(states@ =~= state_ranges(
                conv_layers(self.layers@, layer as int),
                slot * elements,
                elements,
            ));
        }
        Ok(Released { tokens, pages, reserved_pages, states })
    }
}

/// What a released slot gives back.
#[derive(Debug)]
pub struct Released {
    pub tokens: usize,
    pub pages: Vec<u32>,
    pub reserved_pages: usize,
    pub states: Vec<StateRange>,
}

/// The convolution layers below `upto`, in order.
pub open spec fn conv_layers(layers: Seq<LayerKind>, upto: int) -> Seq<usize>
    decreases upto,
{
    if upto <= 0 {
        Seq::empty()
    } else if layers[upto - 1] == LayerKind::Conv {
        conv_layers(layers, upto - 1).push((upto - 1) as usize)
    } else {
        conv_layers(layers, upto - 1)
    }
}

proof fn lemma_conv_layers_grow(layers: Seq<LayerKind>, a: int, b: int)
    requires
        0 <= a <= b,
    ensures
        conv_layers(layers, a).len() <= conv_layers(layers, b).len(),
    decreases b - a,
{
    if a < b {
        lemma_conv_layers_grow(layers, a, b - 1);
    }
}

pub open spec fn state_ranges(layers: Seq<usize>, start: int, elements: usize) -> Seq<StateRange> {
    Seq::new(
        layers.len(),
        |i: int| StateRange { layer: layers[i], start: start as usize, elements },
    )
}

/// The cache while tokens are entered one by one.
#[verifier::ext_equal]
pub struct PreparedView {
    pub slots: Seq<SlotView>,
    pub physical: Seq<i64>,
    pub updates: Seq<TableUpdate>,
    /// Pages taken from those that were granted.
    pub used: nat,
    pub error: Option<BatchCacheError>,
}

/// Geometry that decides how tokens are entered.
pub struct Geometry {
    pub page_size: int,
    pub pages_per_slot: int,
}

/// Where a token of a request lives.
pub open spec fn physical_slot(pages: Seq<u32>, position: int, page_size: int) -> int {
    pages[position / page_size] * page_size + position % page_size
}

/// One token entered: it has to be the next token of a reserved request, and a page is
/// taken exactly if it starts one.
pub open spec fn token_entered(
    before: PreparedView,
    position: u32,
    slot: u32,
    grants: Seq<u32>,
    geometry: Geometry,
) -> PreparedView {
    let own = before.slots[slot as int];
    if before.error is Some {
        before
    } else if slot >= before.slots.len() {
        PreparedView { error: Some(BatchCacheError::SlotOutOfRange), ..before }
    } else if own.reserved == 0 {
        PreparedView { error: Some(BatchCacheError::NotReserved), ..before }
    } else if position + 1 > usize::MAX {
        PreparedView { error: Some(BatchCacheError::PositionOverflow), ..before }
    } else if position != own.allocated {
        PreparedView { error: Some(BatchCacheError::NotSequential), ..before }
    } else {
        let starts_page = position as int % geometry.page_size == 0;
        if starts_page && (before.used >= grants.len() || own.pages.len()
            >= geometry.pages_per_slot) {
            PreparedView { error: Some(BatchCacheError::PagesExhausted), ..before }
        } else {
            let pages = if starts_page {
                own.pages.push(grants[before.used as int])
            } else {
                own.pages
            };
            let paged = PreparedView {
                slots: before.slots.update(slot as int, SlotView { pages, ..own }),
                updates: if starts_page {
                    before.updates.push(
                        TableUpdate {
                            slot: slot as usize,
                            index: own.pages.len() as usize,
                            page: grants[before.used as int],
                        },
                    )
                } else {
                    before.updates
                },
                used: if starts_page {
                    before.used + 1
                } else {
                    before.used
                },
                ..before
            };
            let physical = physical_slot(pages, position as int, geometry.page_size);
            if physical > usize::MAX {
                PreparedView {
                    slots: before.slots.update(slot as int, SlotView { pages, ..own }),
                    error: Some(BatchCacheError::PhysicalSlotOverflow),
                    ..paged
                }
            } else {
                PreparedView {
                    slots: before.slots.update(
                        slot as int,
                        SlotView { pages, allocated: own.allocated + 1, ..own },
                    ),
                    physical: paged.physical.push(physical as i64),
                    ..paged
                }
            }
        }
    }
}

/// The first `upto` tokens entered, up to the first that cannot be.
pub open spec fn tokens_entered(
    before: PreparedView,
    positions: Seq<u32>,
    slots: Seq<u32>,
    grants: Seq<u32>,
    geometry: Geometry,
    upto: int,
) -> PreparedView
    decreases upto,
{
    if upto <= 0 {
        before
    } else {
        token_entered(
            tokens_entered(before, positions, slots, grants, geometry, upto - 1),
            positions[upto - 1],
            slots[upto - 1],
            grants,
            geometry,
        )
    }
}

proof fn lemma_error_ends_entering(
    before: PreparedView,
    positions: Seq<u32>,
    slots: Seq<u32>,
    grants: Seq<u32>,
    geometry: Geometry,
    at: int,
    upto: int,
)
    requires
        0 <= at <= upto,
        tokens_entered(before, positions, slots, grants, geometry, at).error is Some,
    ensures
        tokens_entered(before, positions, slots, grants, geometry, upto) == tokens_entered(
            before,
            positions,
            slots,
            grants,
            geometry,
            at,
        ),
    decreases upto - at,
{
    if at < upto {
        lemma_error_ends_entering(before, positions, slots, grants, geometry, at, upto - 1);
    }
}

/// What a prepared batch needs on the device.
#[derive(Debug)]
pub struct PreparedTokens {
    pub physical_slots: Vec<i64>,
    pub table_updates: Vec<TableUpdate>,
    pub granted_pages_used: usize,
}

impl BatchModelCache {
    pub open spec fn geometry(self) -> Geometry {
        Geometry {
            page_size: self.page_size.tokens(),
            pages_per_slot: self.pages_per_slot as int,
        }
    }

    /// The cache before any token of a batch is entered.
    pub open spec fn unprepared(self) -> PreparedView {
        PreparedView {
            slots: self.slot_views(),
            physical: Seq::empty(),
            updates: Seq::empty(),
            used: 0,
            error: None,
        }
    }

    /// Enters the tokens of a batch in order. `grants` are pages that the allocator gave for
    /// this batch. At the first token that cannot be entered the batch fails, with the tokens
    /// before it entered.
    pub fn prepare_tokens(
        &mut self,
        tokens: usize,
        positions: &Vec<u32>,
        request_slots: &Vec<u32>,
        grants: &Vec<u32>,
    ) -> (r: Result<PreparedTokens, BatchCacheError>)
        requires
            old(self).well_formed(),
        ensures
            final(self).same_shape(*old(self)),
            final(self).same_flags(*old(self)),
            ({
                let after = tokens_entered(
                    old(self).unprepared(),
                    positions@,
                    request_slots@,
                    grants@,
                    old(self).geometry(),
                    tokens as int,
                );
                if tokens != positions@.len() {
                    r == Err::<PreparedTokens, BatchCacheError>(BatchCacheError::PositionCount)
                        && *final(self) == *old(self)
                } else if tokens != request_slots@.len() {
                    r == Err::<PreparedTokens, BatchCacheError>(BatchCacheError::SlotCount)
                        && *final(self) == *old(self)
                } else {
                    &&& final(self).slot_views() == after.slots
                    &&& match r {
                        Ok(prepared) => {
                            &&& after.error is None
                            &&& prepared.physical_slots@ == after.physical
                            &&& prepared.table_updates@ == after.updates
                            &&& prepared.granted_pages_used == after.used
                            &&& final(self).well_formed()
                        },
                        Err(e) => {
                            &&& after.error == Some(e)
                            &&& e != BatchCacheError::PhysicalSlotOverflow
                                ==> final(self).well_formed()
                        },
                    }
                }
            }),
    {
        if tokens != positions.len() {
            return Err(BatchCacheError::PositionCount);
        }
        if tokens != request_slots.len() {
            return Err(BatchCacheError::SlotCount);
        }
        let page_size: usize = self.page_size.value();
        let ghost start = self.unprepared();
        let ghost geometry = self.geometry();
        let mut physical_slots: Vec<i64> = Vec::new();
        let mut table_updates: Vec<TableUpdate> = Vec::new();
        let mut used: usize = 0;
        let mut row: usize = 0;
        while row < tokens
            invariant
                row <= tokens,
                tokens == positions@.len(),
                tokens == request_slots@.len(),
                start == old(self).unprepared(),
                geometry == old(self).geometry(),
                self.same_shape(*old(self)),
                self.same_flags(*old(self)),
                self.well_formed(),
                page_size == self.page_size.tokens(),
                used <= grants@.len(),
                tokens_entered(
                    start,
                    positions@,
                    request_slots@,
                    grants@,
                    geometry,
                    row as int,
                ) == (PreparedView {
                    slots: self.slot_views(),
                    physical: physical_slots@,
                    updates: table_updates@,
                    used: used as nat,
                    error: None,
                }),
            decreases tokens - row,
        {
            let ghost sofar = PreparedView {
                slots: self.slot_views(),
                physical: physical_slots@,
                updates: table_updates@,
                used: used as nat,
                error: None,
            };
            let position: usize = positions[row] as usize;
            let slot: usize = request_slots[row] as usize;
            proof {
                let next = tokens_entered(
                    start,
                    positions@,
                    request_slots@,
                    grants@,
                    geometry,
                    row + 1,
                );
                if next.error is Some {
                    lemma_error_ends_entering(
                        start,
                        positions@,
                        request_slots@,
                        grants@,
                        geometry,
                        row + 1,
                        tokens as int,
                    );
                }
            }
            if slot >= self.slots.len() {
                return Err(BatchCacheError::SlotOutOfRange);
            }
            if self.slots[slot].reserved_pages == 0 {
                return Err(BatchCacheError::NotReserved);
            }
            if position == usize::MAX {
                return Err(BatchCacheError::PositionOverflow);
            }
            if position != self.slots[slot].allocated_tokens {
                return Err(BatchCacheError::NotSequential);
            }
            proof {
                assert(self.slots@[slot as int]@.well_formed(
                    page_size as int,
                    self.pages_per_slot as int,
                ));
                lemma_page_of_next_token(position as int, page_size as int);
            }
            let ghost own = self.slots@[slot as int]@;
            if position % page_size == 0 {
                if used >= grants.len() || self.slots[slot].pages.len() >= self.pages_per_slot {
                    return Err(BatchCacheError::PagesExhausted);
                }
                let page: u32 = grants[used];
                table_updates.push(
                    TableUpdate { slot, index: self.slots[slot].pages.len(), page },
                );
                self.slots[slot].pages.push(page);
                used = used + 1;
            }
            let ghost pages = self.slots@[slot as int]@.pages;
            assert(position / page_size < pages.len());
            let physical_page: usize = self.slots[slot].pages[position / page_size] as usize;
            let offset: usize = position % page_size;
            proof {
                assert(self.slot_views() =~= sofar.slots.update(
                    slot as int,
                    SlotView { pages, ..own },
                ));
            }
            let physical: usize = match physical_page.checked_mul(page_size) {
                Some(base) => match base.checked_add(offset) {
                    Some(physical) => physical,
                    None => {
                        return Err(BatchCacheError::PhysicalSlotOverflow);
                    },
                },
                None => {
                    return Err(BatchCacheError::PhysicalSlotOverflow);
                },
            };
            assert(physical <= i64::MAX);
            physical_slots.push(physical as i64);
            self.slots[slot].allocated_tokens = position + 1;
            proof {
                assert(self.slot_views() =~= sofar.slots.update(
                    slot as int,
                    SlotView { pages, allocated: own.allocated + 1, ..own },
                ));
            }
            row = row + 1;
        }
        Ok(PreparedTokens { physical_slots, table_updates, granted_pages_used: used })
    }
}

proof fn lemma_page_of_next_token(position: int, page_size: int)
    requires
        position >= 0,
        page_size == 16 || page_size == 32,
    ensures
        position % page_size == 0 ==> ceil_div(position, page_size) == position / page_size
            && ceil_div(position + 1, page_size) == position / page_size + 1,
        position % page_size != 0 ==> ceil_div(position, page_size) == position / page_size + 1
            && ceil_div(position + 1, page_size) == position / page_size + 1,
{
}

/// How many of the first `upto` tokens start a page.
pub open spec fn page_starts(positions: Seq<u32>, page_size: int, upto: int) -> int
    decreases upto,
{
    if upto <= 0 {
        0
    } else {
        page_starts(positions, page_size, upto - 1) + if positions[upto - 1] as int % page_size
            == 0 {
            1int
        } else {
            0int
        }
    }
}

/// How many pages a batch takes from the allocator.
pub fn pages_to_request(positions: &Vec<u32>, page_size: KvPageSize) -> (r: usize)
    ensures
        r == page_starts(positions@, page_size.tokens(), positions@.len() as int),
{
    let tokens: usize = page_size.value();
    let mut pages: usize = 0;
    let mut index: usize = 0;
    while index < positions.len()
        invariant
            index <= positions@.len(),
            tokens == page_size.tokens(),
            pages <= index,
            pages == page_starts(positions@, page_size.tokens(), index as int),
        decreases positions@.len() - index,
    {
        if positions[index] as usize % tokens == 0 {
            pages = pages + 1;
        }
        index = index + 1;
    }
    pages
}

/// An accepted batch takes exactly as many pages as its tokens start, and gives every token
/// one physical place.
pub proof fn accepted_batch_takes_requested_pages(
    before: PreparedView,
    positions: Seq<u32>,
    slots: Seq<u32>,
    grants: Seq<u32>,
    geometry: Geometry,
    upto: int,
)
    requires
        0 <= upto,
        before.error is None,
        tokens_entered(before, positions, slots, grants, geometry, upto).error is None,
    ensures
        ({
            let after = tokens_entered(before, positions, slots, grants, geometry, upto);
            &&& after.used == before.used + page_starts(positions, geometry.page_size, upto)
            &&& after.physical.len() == before.physical.len() + upto
            &&& after.slots.len() == before.slots.len()
        }),
    decreases upto,
{
    if upto > 0 {
        if tokens_entered(before, positions, slots, grants, geometry, upto - 1).error is Some {
        } else {
            accepted_batch_takes_requested_pages(
                before,
                positions,
                slots,
                grants,
                geometry,
                upto - 1,
            );
        }
    }
}

/// A batch of single tokens, one segment for each.
#[derive(Debug)]
pub struct DecodeSegments {
    pub offsets: Vec<u32>,
    pub slots: Vec<u32>,
    pub output_rows: Vec<u32>,
}

impl BatchModelCache {
    /// What preparing a decode batch does to a cache, and what it answers.
    pub open spec fn is_decode_prepared(
        self,
        before: BatchModelCache,
        tokens: usize,
        positions: Seq<u32>,
        request_slots: Seq<u32>,
        grants: Seq<u32>,
        r: Result<(PreparedTokens, DecodeSegments), BatchCacheError>,
    ) -> bool {
        let after = tokens_entered(
            before.unprepared(),
            positions,
            request_slots,
            grants,
            before.geometry(),
            tokens as int,
        );
        &&& self.same_shape(before)
        &&& !self.is_contiguous_prefill
        &&& !self.is_segmented_prefill
        &&& self.max_segment_tokens == 0
        &&& match r {
            Ok((prepared, segments)) => {
                &&& tokens == positions.len() == request_slots.len()
                &&& after.error is None
                &&& tokens <= u32::MAX
                &&& self.slot_views() == after.slots
                &&& self.well_formed()
                &&& prepared.physical_slots@ == after.physical
                &&& prepared.table_updates@ == after.updates
                &&& prepared.granted_pages_used == after.used
                &&& segments.offsets@ == Seq::new(
                    (tokens + 1) as nat,
                    |i: int| i as u32,
                )
                &&& segments.slots@ == request_slots
                &&& segments.output_rows@ == Seq::new(tokens as nat, |i: int| i as u32)
            },
            Err(e) => if tokens != positions.len() {
                e == BatchCacheError::PositionCount && self.slots@ == before.slots@
            } else if tokens != request_slots.len() {
                e == BatchCacheError::SlotCount && self.slots@ == before.slots@
            } else {
                &&& self.slot_views() == after.slots
                &&& e != BatchCacheError::PhysicalSlotOverflow ==> self.well_formed()
                &&& if after.error is Some {
                    Some(e) == after.error
                } else {
                    e == BatchCacheError::IndexOverflow && tokens > u32::MAX
                }
            },
        }
    }

    /// Prepares a batch in which every request decodes one token.
    pub fn prepare_decode(
        &mut self,
        tokens: usize,
        positions: &Vec<u32>,
        request_slots: &Vec<u32>,
        grants: &Vec<u32>,
    ) -> (r: Result<(PreparedTokens, DecodeSegments), BatchCacheError>)
        requires
            old(self).well_formed(),
        ensures
            final(self).is_decode_prepared(
                *old(self),
                tokens,
                positions@,
                request_slots@,
                grants@,
                r,
            ),
    {
        self.is_contiguous_prefill = false;
        self.is_segmented_prefill = false;
        self.max_segment_tokens = 0;
        assert(self.slot_views() =~= old(self).slot_views());
        let prepared = match self.prepare_tokens(tokens, positions, request_slots, grants) {
            Ok(prepared) => prepared,
            Err(e) => {
                return Err(e);
            },
        };
        if tokens > u32::MAX as usize {
            return Err(BatchCacheError::IndexOverflow);
        }
        let mut offsets: Vec<u32> = Vec::new();
        let mut slots: Vec<u32> = Vec::new();
        let mut output_rows: Vec<u32> = Vec::new();
        offsets.push(0);
        let mut row: usize = 0;
        assert(offsets@ =~= Seq::new(1, |i: int| i as u32));
        while row < tokens
            invariant
                row <= tokens <= u32::MAX,
                tokens == request_slots@.len(),
                offsets@ == Seq::new((row + 1) as nat, |i: int| i as u32),
                slots@ == request_slots@.take(row as int),
                output_rows@ == Seq::new(row as nat, |i: int| i as u32),
            decreases tokens - row,
        {
            offsets.push((row + 1) as u32);
            slots.push(request_slots[row]);
            output_rows.push(row as u32);
            row = row + 1;
            assert(offsets@ =~= Seq::new((row + 1) as nat, |i: int| i as u32));
            assert(slots@ =~= request_slots@.take(row as int));
            assert(output_rows@ =~= Seq::new(row as nat, |i: int| i as u32));
        }
        assert(slots@ =~= request_slots@);
        Ok((prepared, DecodeSegments { offsets, slots, output_rows }))
    }
}

/// Segment `s` begins with the first token of its request.
pub open spec fn segment_starts_request(batch: RaggedView, s: int) -> bool {
    batch.segment_offsets[s] < batch.positions.len()
        && batch.positions[batch.segment_offsets[s] as int] == 0
}

/// The whole batch is one prompt from its start.
pub open spec fn is_contiguous(batch: RaggedView) -> bool {
    &&& batch.segment_offsets.len() == 2
    &&& batch.positions.len() > 0
    &&& batch.positions[0] == 0
    &&& batch.token_ids.len() > 1
}

/// The batch is several prompts, all from their start.
pub open spec fn is_segmented(batch: RaggedView) -> bool {
    &&& batch.segment_offsets.len() > 2
    &&& forall|s: int|
        0 <= s < batch.segment_offsets.len() - 1 ==> #[trigger] segment_starts_request(batch, s)
    &&& batch.token_ids.len() > 1
}

/// The longest of the first `upto` segments.
pub open spec fn longest_segment(offsets: Seq<u32>, upto: int) -> int
    decreases upto,
{
    if upto <= 0 {
        0
    } else {
        crate::num::max_int(longest_segment(offsets, upto - 1), offsets[upto] - offsets[upto - 1])
    }
}

/// What is wrong with the segments of a batch.
pub open spec fn segment_defect(batch: RaggedView) -> Option<BatchCacheError> {
    if batch.token_ids.len() > u32::MAX {
        Some(BatchCacheError::IndexOverflow)
    } else if batch.segment_offsets.len() == 0 || batch.segment_offsets.last()
        != batch.token_ids.len() {
        Some(BatchCacheError::LastOffset)
    } else if exists|s: int|
        0 <= s < batch.segment_offsets.len() - 1 && #[trigger] unordered_at(
            batch.segment_offsets,
            s,
        ) {
        Some(BatchCacheError::SegmentOrder)
    } else {
        row_defect(batch, paired_rows(batch))
    }
}

/// Segment `s` is empty or ends before it begins.
pub open spec fn unordered_at(offsets: Seq<u32>, s: int) -> bool {
    offsets[s] >= offsets[s + 1]
}

pub open spec fn paired_rows(batch: RaggedView) -> int {
    crate::num::min_int(batch.output_rows.len() as int, batch.segment_slots.len() as int)
}

/// The first defect of the first `upto` output rows.
pub open spec fn row_defect(batch: RaggedView, upto: int) -> Option<BatchCacheError>
    decreases upto,
{
    if upto <= 0 {
        None
    } else if row_defect(batch, upto - 1) is Some {
        row_defect(batch, upto - 1)
    } else {
        let row = batch.output_rows[upto - 1];
        if row >= batch.token_ids.len() {
            Some(BatchCacheError::OutputRowOutOfRange)
        } else if row >= batch.request_slots.len() {
            Some(BatchCacheError::SlotCount)
        } else if batch.request_slots[row as int] != batch.segment_slots[upto - 1] {
            Some(BatchCacheError::OutputRowForeign)
        } else {
            None
        }
    }
}

proof fn lemma_row_defect_persists(batch: RaggedView, at: int, upto: int)
    requires
        0 <= at <= upto,
        row_defect(batch, at) is Some,
    ensures
        row_defect(batch, upto) == row_defect(batch, at),
    decreases upto - at,
{
    if at < upto {
        lemma_row_defect_persists(batch, at, upto - 1);
    }
}

fn check_segments(batch: &RaggedBatch) -> (r: Result<(), BatchCacheError>)
    ensures
        r == (match segment_defect(batch@) {
            Some(e) => Err::<(), BatchCacheError>(e),
            None => Ok::<(), BatchCacheError>(()),
        }),
{
    let tokens: usize = batch.token_ids.len();
    if tokens > u32::MAX as usize {
        return Err(BatchCacheError::IndexOverflow);
    }
    let segments: usize = batch.segment_offsets.len();
    if segments == 0 || batch.segment_offsets[segments - 1] as usize != tokens {
        return Err(BatchCacheError::LastOffset);
    }
    let mut s: usize = 0;
    while s < segments - 1
        invariant
            s <= segments - 1,
            segments == batch@.segment_offsets.len(),
            segments > 0,
            tokens == batch@.token_ids.len(),
            tokens <= u32::MAX,
            batch@.segment_offsets.last() == tokens,
            forall|i: int| 0 <= i < s ==> !#[trigger] unordered_at(batch@.segment_offsets, i),
        decreases segments - s,
    {
        if batch.segment_offsets[s] >= batch.segment_offsets[s + 1] {
            assert(unordered_at(batch@.segment_offsets, s as int));
            return Err(BatchCacheError::SegmentOrder);
        }
        s = s + 1;
    }
    let rows: usize = crate::num::min_usize(batch.output_rows.len(), batch.segment_slots.len());
    let mut index: usize = 0;
    while index < rows
        invariant
            index <= rows,
            rows == paired_rows(batch@),
            tokens == batch@.token_ids.len(),
            tokens <= u32::MAX,
            segments == batch@.segment_offsets.len(),
            segments > 0,
            batch@.segment_offsets.last() == tokens,
            forall|i: int|
                0 <= i < segments - 1 ==> !#[trigger] unordered_at(batch@.segment_offsets, i),
            row_defect(batch@, index as int) is None,
        decreases rows - index,
    {
        let row: usize = batch.output_rows[index] as usize;
        proof {
            if row_defect(batch@, index + 1) is Some {
                lemma_row_defect_persists(batch@, index + 1, rows as int);
            }
        }
        if row >= tokens {
            return Err(BatchCacheError::OutputRowOutOfRange);
        }
        if row >= batch.request_slots.len() {
            return Err(BatchCacheError::SlotCount);
        }
        if batch.request_slots[row] != batch.segment_slots[index] {
            return Err(BatchCacheError::OutputRowForeign);
        }
        index = index + 1;
    }
    Ok(())
}

fn all_segments_start_requests(batch: &RaggedBatch) -> (r: bool)
    ensures
        r == (forall|s: int|
            0 <= s < batch@.segment_offsets.len() - 1 ==> #[trigger] segment_starts_request(
                batch@,
                s,
            )),
{
    if batch.segment_offsets.len() == 0 {
        return true;
    }
    let mut s: usize = 0;
    while s < batch.segment_offsets.len() - 1
        invariant
            batch@.segment_offsets.len() > 0,
            s <= batch@.segment_offsets.len() - 1,
            forall|i: int| 0 <= i < s ==> #[trigger] segment_starts_request(batch@, i),
        decreases batch@.segment_offsets.len() - s,
    {
        let start: usize = batch.segment_offsets[s] as usize;
        if start >= batch.positions.len() || batch.positions[start] != 0 {
            assert(!segment_starts_request(batch@, s as int));
            return false;
        }
        s = s + 1;
    }
    true
}

fn longest_of(offsets: &Vec<u32>) -> (r: usize)
    requires
        offsets@.len() > 0,
    ensures
        r == longest_segment(offsets@, offsets@.len() - 1),
{
    let mut longest: usize = 0;
    let mut s: usize = 0;
    while s < offsets.len() - 1
        invariant
            offsets@.len() > 0,
            s <= offsets@.len() - 1,
            longest == longest_segment(offsets@, s as int),
        decreases offsets@.len() - s,
    {
        if offsets[s + 1] >= offsets[s] {
            let length: usize = (offsets[s + 1] - offsets[s]) as usize;
            if length > longest {
                longest = length;
            }
        }
        s = s + 1;
    }
    longest
}

impl BatchModelCache {
    /// What preparing a ragged batch does to a cache, and what it answers.
    pub open spec fn is_prepared(
        self,
        before: BatchModelCache,
        batch: RaggedView,
        grants: Seq<u32>,
        r: Result<PreparedTokens, BatchCacheError>,
    ) -> bool {
        let after = tokens_entered(
            before.unprepared(),
            batch.positions,
            batch.request_slots,
            grants,
            before.geometry(),
            batch.token_ids.len() as int,
        );
        &&& self.same_shape(before)
        &&& self.is_contiguous_prefill == is_contiguous(batch)
        &&& self.is_segmented_prefill == is_segmented(batch)
        &&& self.max_segment_tokens == (if is_segmented(batch) {
            longest_segment(batch.segment_offsets, batch.segment_offsets.len() - 1)
        } else {
            0
        })
        &&& if segment_defect(batch) is Some {
            r == Err::<PreparedTokens, BatchCacheError>(segment_defect(batch)->Some_0)
                && self.slots@ == before.slots@
        } else if batch.token_ids.len() != batch.positions.len() {
            r == Err::<PreparedTokens, BatchCacheError>(BatchCacheError::PositionCount)
                && self.slots@ == before.slots@
        } else if batch.token_ids.len() != batch.request_slots.len() {
            r == Err::<PreparedTokens, BatchCacheError>(BatchCacheError::SlotCount)
                && self.slots@ == before.slots@
        } else {
            &&& self.slot_views() == after.slots
            &&& match r {
                Ok(prepared) => {
                    &&& after.error is None
                    &&& prepared.physical_slots@ == after.physical
                    &&& prepared.table_updates@ == after.updates
                    &&& prepared.granted_pages_used == after.used
                    &&& self.well_formed()
                },
                Err(e) => {
                    &&& after.error == Some(e)
                    &&& e != BatchCacheError::PhysicalSlotOverflow
                        ==> self.well_formed()
                },
            }
        }
    }

    /// Prepares a ragged batch: classifies it, checks its segments and enters its tokens.
    pub fn prepare_ragged(&mut self, batch: &RaggedBatch, grants: &Vec<u32>) -> (r: Result<
        PreparedTokens,
        BatchCacheError,
    >)
        requires
            old(self).well_formed(),
        ensures
            final(self).is_prepared(*old(self), batch@, grants@, r),
    {
        self.is_contiguous_prefill = batch.segment_offsets.len() == 2 && batch.positions.len() > 0
            && batch.positions[0] == 0 && batch.token_ids.len() > 1;
        let starts: bool = all_segments_start_requests(batch);
        self.is_segmented_prefill = batch.segment_offsets.len() > 2 && starts
            && batch.token_ids.len() > 1;
        self.max_segment_tokens =
        if self.is_segmented_prefill {
            longest_of(&batch.segment_offsets)
        } else {
            0
        };
        assert(self.slot_views() =~= old(self).slot_views());
        match check_segments(batch) {
            Ok(()) => {},
            Err(e) => {
                return Err(e);
            },
        }
        self.prepare_tokens(
            batch.token_ids.len(),
            &batch.positions,
            &batch.request_slots,
            grants,
        )
    }
}

/// A prefix to share with a request.
pub open spec fn attach_defect(
    slots: Seq<SlotView>,
    page_size: int,
    slot: int,
    prefix_tokens: int,
    pages: Seq<u32>,
) -> Option<BatchCacheError> {
    if prefix_tokens == 0 {
        Some(BatchCacheError::PrefixEmpty)
    } else if prefix_tokens % page_size != 0 {
        Some(BatchCacheError::PrefixNotAligned)
    } else if pages.len() != prefix_tokens / page_size {
        Some(BatchCacheError::PrefixPageCount)
    } else if slot >= slots.len() {
        Some(BatchCacheError::SlotOutOfRange)
    } else if slots[slot].allocated != 0 {
        Some(BatchCacheError::SlotNotEmpty)
    } else if slots[slot].reserved == 0 {
        Some(BatchCacheError::NotReserved)
    } else {
        None
    }
}

/// What is wrong with extending an attached prefix.
pub open spec fn extend_defect(
    slots: Seq<SlotView>,
    page_size: int,
    slot: int,
    current: int,
    extended: int,
    pages: Seq<u32>,
) -> Option<BatchCacheError> {
    if slot >= slots.len() {
        Some(BatchCacheError::SlotOutOfRange)
    } else if current % page_size != 0 || extended % page_size != 0 {
        Some(BatchCacheError::PrefixNotAligned)
    } else if extended <= current {
        Some(BatchCacheError::PrefixNotExtended)
    } else if slots[slot].allocated != current {
        Some(BatchCacheError::PrefixTouched)
    } else if pages.len() != extended / page_size {
        Some(BatchCacheError::PrefixPageCount)
    } else if slots[slot].reserved < extended / page_size - current / page_size {
        Some(BatchCacheError::ReservationTooSmall)
    } else if pages.take(current / page_size) != slots[slot].pages {
        Some(BatchCacheError::PrefixDiverges)
    } else {
        None
    }
}

fn starts_with(pages: &Vec<u32>, prefix: &Vec<u32>) -> (r: bool)
    requires
        prefix@.len() <= pages@.len(),
    ensures
        r == (pages@.take(prefix@.len() as int) == prefix@),
{
    let mut index: usize = 0;
    while index < prefix.len()
        invariant
            index <= prefix@.len() <= pages@.len(),
            forall|i: int| 0 <= i < index ==> #[trigger] pages@[i] == prefix@[i],
        decreases prefix@.len() - index,
    {
        if pages[index] != prefix[index] {
            assert(pages@.take(prefix@.len() as int)[index as int] != prefix@[index as int]);
            return false;
        }
        index = index + 1;
    }
    assert(pages@.take(prefix@.len() as int) =~= prefix@);
    true
}

proof fn lemma_aligned_pages(tokens: int, page_size: int)
    requires
        tokens >= 0,
        page_size == 16 || page_size == 32,
        tokens % page_size == 0,
    ensures
        ceil_div(tokens, page_size) == tokens / page_size,
{
}

impl BatchModelCache {
    /// Whether a prefix of `prefix_tokens`, in these pages, can be shared with a slot. The
    /// caller then takes a reference to each page.
    pub fn check_attach(&self, slot: usize, prefix_tokens: usize, pages: &Vec<u32>) -> (r: Result<
        (),
        BatchCacheError,
    >)
        ensures
            r == (match attach_defect(
                self.slot_views(),
                self.page_size.tokens(),
                slot as int,
                prefix_tokens as int,
                pages@,
            ) {
                Some(e) => Err::<(), BatchCacheError>(e),
                None => Ok::<(), BatchCacheError>(()),
            }),
    {
        let page_size: usize = self.page_size.value();
        if prefix_tokens == 0 {
            return Err(BatchCacheError::PrefixEmpty);
        }
        if prefix_tokens % page_size != 0 {
            return Err(BatchCacheError::PrefixNotAligned);
        }
        if pages.len() != prefix_tokens / page_size {
            return Err(BatchCacheError::PrefixPageCount);
        }
        if slot >= self.slots.len() {
            return Err(BatchCacheError::SlotOutOfRange);
        }
        if self.slots[slot].allocated_tokens != 0 {
            return Err(BatchCacheError::SlotNotEmpty);
        }
        if self.slots[slot].reserved_pages == 0 {
            return Err(BatchCacheError::NotReserved);
        }
        Ok(())
    }

    /// Shares a checked prefix with a slot. The answer lists the convolution layers whose
    /// states are to be restored, in the order of the checkpoint.
    pub fn attach_prefix(&mut self, slot: usize, prefix_tokens: usize, pages: &Vec<u32>) -> (r: Vec<
        usize,
    >)
        requires
            old(self).well_formed(),
            attach_defect(
                old(self).slot_views(),
                old(self).page_size.tokens(),
                slot as int,
                prefix_tokens as int,
                pages@,
            ) is None,
            pages@.len() <= old(self).pages_per_slot,
        ensures
            final(self).well_formed(),
            final(self).same_shape(*old(self)),
            final(self).same_flags(*old(self)),
            final(self).slot_views() == old(self).slot_views().update(
                slot as int,
                SlotView {
                    allocated: prefix_tokens as nat,
                    pages: pages@,
                    ..old(self).slot_views()[slot as int]
                },
            ),
            r@ == conv_layers(old(self).layers@, old(self).layers@.len() as int),
    {
        let ghost before = self.slot_views();
        proof {
            lemma_aligned_pages(prefix_tokens as int, self.page_size.tokens());
        }
        let shared = pages.clone();
        assert(shared@ =~= pages@);
        self.slots[slot].pages = shared;
        self.slots[slot].allocated_tokens = prefix_tokens;
        proof {
            assert(self.slot_views() =~= before.update(
                slot as int,
                SlotView {
                    allocated: prefix_tokens as nat,
                    pages: pages@,
                    ..before[slot as int]
                },
            ));
        }
        self.conv_layer_list()
    }

    /// Whether an attached prefix of `current` tokens can be replaced by a longer one. The
    /// caller then takes a reference to each added page.
    pub fn check_extension(&self, slot: usize, current: usize, extended: usize, pages: &Vec<u32>) -> (r:
        Result<(), BatchCacheError>)
        requires
            self.well_formed(),
        ensures
            r == (match extend_defect(
                self.slot_views(),
                self.page_size.tokens(),
                slot as int,
                current as int,
                extended as int,
                pages@,
            ) {
                Some(e) => Err::<(), BatchCacheError>(e),
                None => Ok::<(), BatchCacheError>(()),
            }),
    {
        let page_size: usize = self.page_size.value();
        if slot >= self.slots.len() {
            return Err(BatchCacheError::SlotOutOfRange);
        }
        if current % page_size != 0 || extended % page_size != 0 {
            return Err(BatchCacheError::PrefixNotAligned);
        }
        if extended <= current {
            return Err(BatchCacheError::PrefixNotExtended);
        }
        if self.slots[slot].allocated_tokens != current {
            return Err(BatchCacheError::PrefixTouched);
        }
        let current_pages: usize = current / page_size;
        let new_pages: usize = extended / page_size;
        if pages.len() != new_pages {
            return Err(BatchCacheError::PrefixPageCount);
        }
        if self.slots[slot].reserved_pages < new_pages - current_pages {
            return Err(BatchCacheError::ReservationTooSmall);
        }
        let own = &self.slots[slot];
        proof {
            assert(own@.well_formed(self.page_size.tokens(), self.pages_per_slot as int));
            lemma_aligned_pages(current as int, page_size as int);
        }
        if !starts_with(pages, &own.pages) {
            return Err(BatchCacheError::PrefixDiverges);
        }
        Ok(())
    }

    /// Extends an attached prefix that no suffix has been computed on. The reservation
    /// shrinks by the added pages, which are the answer, with the layers to restore.
    pub fn extend_attached_prefix(
        &mut self,
        slot: usize,
        current: usize,
        extended: usize,
        pages: &Vec<u32>,
    ) -> (r: (usize, Vec<usize>))
        requires
            old(self).well_formed(),
            extend_defect(
                old(self).slot_views(),
                old(self).page_size.tokens(),
                slot as int,
                current as int,
                extended as int,
                pages@,
            ) is None,
            pages@.len() <= old(self).pages_per_slot,
        ensures
            final(self).well_formed(),
            final(self).same_shape(*old(self)),
            final(self).same_flags(*old(self)),
            r.0 == extended as int / old(self).page_size.tokens() - current as int / old(
                self,
            ).page_size.tokens(),
            r.1@ == conv_layers(old(self).layers@, old(self).layers@.len() as int),
            final(self).slot_views() == old(self).slot_views().update(
                slot as int,
                SlotView {
                    allocated: extended as nat,
                    reserved: (old(self).slot_views()[slot as int].reserved - r.0) as nat,
                    pages: pages@,
                },
            ),
    {
        let ghost before = self.slot_views();
        let page_size: usize = self.page_size.value();
        proof {
            lemma_aligned_pages(extended as int, page_size as int);
            assert(before[slot as int] == self.slots@[slot as int]@);
            assert(current as int / page_size as int <= extended as int / page_size as int) by {
                if page_size == 16 {
                } else {
                }
            }
        }
        let released: usize = extended / page_size - current / page_size;
        let shared = pages.clone();
        assert(shared@ =~= pages@);
        self.slots[slot].pages = shared;
        self.slots[slot].allocated_tokens = extended;
        self.slots[slot].reserved_pages = self.slots[slot].reserved_pages - released;
        proof {
            assert(self.slot_views() =~= before.update(
                slot as int,
                SlotView {
                    allocated: extended as nat,
                    reserved: (before[slot as int].reserved - released) as nat,
                    pages: pages@,
                },
            ));
        }
        (released, self.conv_layer_list())
    }

    pub(crate) fn conv_layer_list(&self) -> (r: Vec<usize>)
        ensures
            r@ == conv_layers(self.layers@, self.layers@.len() as int),
    {
        let mut r: Vec<usize> = Vec::new();
        let mut layer: usize = 0;
        while layer < self.layers.len()
            invariant
                layer <= self.layers@.len(),
                r@ == conv_layers(self.layers@, layer as int),
            decreases self.layers@.len() - layer,
        {
            if self.layers[layer] == LayerKind::Conv {
                r.push(layer);
            }
            layer = layer + 1;
        }
        r
    }

    /// Whether a prefix is one that can be shared, and that the prefix cache wants.
    pub open spec fn wants_publication(
        self,
        request_tokens: usize,
        prefix_tokens: usize,
        can_publish: bool,
    ) -> bool {
        prefix_tokens != 0 && prefix_tokens <= request_tokens && prefix_tokens as int
            % self.page_size.tokens() == 0 && can_publish
    }

    /// Why a slot cannot give the pages of a prefix.
    pub open spec fn publication_defect(self, slot: usize, prefix_tokens: usize) -> Option<
        BatchCacheError,
    > {
        if slot >= self.slots@.len() {
            Some(BatchCacheError::SlotOutOfRange)
        } else if prefix_tokens > self.slots@[slot as int]@.allocated {
            Some(BatchCacheError::PrefixBeyondCache)
        } else {
            None
        }
    }

    /// Whether a computed prefix should be published: nothing if it should not, its pages if
    /// it should. `can_publish` is the prefix cache's word on it.
    pub fn publishable_pages(
        &self,
        slot: usize,
        request_tokens: usize,
        prefix_tokens: usize,
        can_publish: bool,
    ) -> (r: Result<Option<Vec<u32>>, BatchCacheError>)
        requires
            self.well_formed(),
        ensures
            ({
                let wanted = self.wants_publication(request_tokens, prefix_tokens, can_publish);
                let defect = self.publication_defect(slot, prefix_tokens);
                match r {
                    Ok(None) => !wanted,
                    Ok(Some(pages)) => {
                        &&& wanted && defect is None
                        &&& pages@ == self.slots@[slot as int]@.pages.take(
                            prefix_tokens as int / self.page_size.tokens(),
                        )
                        &&& pages@.len() == prefix_tokens as int / self.page_size.tokens()
                    },
                    Err(e) => wanted && defect == Some(e),
                }
            }),
    {
        let page_size: usize = self.page_size.value();
        if prefix_tokens == 0 || prefix_tokens > request_tokens || prefix_tokens % page_size != 0
            || !can_publish {
            return Ok(None);
        }
        if slot >= self.slots.len() {
            return Err(BatchCacheError::SlotOutOfRange);
        }
        if self.slots[slot].allocated_tokens < prefix_tokens {
            return Err(BatchCacheError::PrefixBeyondCache);
        }
        let count: usize = prefix_tokens / page_size;
        proof {
            assert(self.slots@[slot as int]@.well_formed(
                page_size as int,
                self.pages_per_slot as int,
            ));
            lemma_prefix_pages_are_there(
                prefix_tokens as int,
                self.slots@[slot as int]@.allocated as int,
                page_size as int,
            );
        }
        let pages = vstd::slice::slice_to_vec(
            vstd::slice::slice_subrange(self.slots[slot].pages.as_slice(), 0, count),
        );
        assert(pages@ =~= self.slots@[slot as int]@.pages.take(count as int));
        Ok(Some(pages))
    }

    /// Fills the first slots with `context_tokens` tokens each, for benchmarks. `grants` are
    /// the pages for them, in order.
    pub fn prime_context(&mut self, request_slots: usize, context_tokens: usize, grants: &Vec<u32>) -> (r:
        Result<(), BatchCacheError>)
        requires
            old(self).well_formed(),
        ensures
            final(self).same_shape(*old(self)),
            final(self).same_flags(*old(self)),
            final(self).well_formed(),
            ({
                let pages = ceil_div(context_tokens as int, old(self).page_size.tokens());
                match r {
                    Ok(()) => {
                        &&& context_tokens > 0
                        &&& request_slots <= old(self).slots@.len()
                        &&& forall|i: int|
                            0 <= i < request_slots ==> #[trigger] prime_defect(
                                old(self).slot_views(),
                                i,
                                pages,
                                old(self).pages_per_slot as int,
                                grants@,
                            ) is None
                        &&& final(self).slot_views() == primed_slots(
                            old(self).slot_views(),
                            request_slots as int,
                            context_tokens as int,
                            pages,
                            grants@,
                        )
                    },
                    Err(BatchCacheError::ContextEmpty) => context_tokens == 0 && *final(self)
                        == *old(self),
                    Err(BatchCacheError::TooManySlots) => context_tokens > 0 && request_slots
                        > old(self).slots@.len() && *final(self) == *old(self),
                    Err(e) => {
                        &&& context_tokens > 0
                        &&& request_slots <= old(self).slots@.len()
                        &&& exists|k: int|
                            {
                                &&& 0 <= k < request_slots
                                &&& #[trigger] prime_defect(
                                    old(self).slot_views(),
                                    k,
                                    pages,
                                    old(self).pages_per_slot as int,
                                    grants@,
                                ) == Some(e)
                                &&& forall|i: int|
                                    0 <= i < k ==> #[trigger] prime_defect(
                                        old(self).slot_views(),
                                        i,
                                        pages,
                                        old(self).pages_per_slot as int,
                                        grants@,
                                    ) is None
                                &&& final(self).slot_views() == primed_slots(
                                    old(self).slot_views(),
                                    k,
                                    context_tokens as int,
                                    pages,
                                    grants@,
                                )
                            }
                    },
                }
            }),
    {
        if context_tokens == 0 {
            return Err(BatchCacheError::ContextEmpty);
        }
        if request_slots > self.slots.len() {
            return Err(BatchCacheError::TooManySlots);
        }
        let pages: usize = div_ceil(context_tokens, self.page_size.value());
        let ghost before = self.slot_views();
        let mut slot: usize = 0;
        let mut used: usize = 0;
        proof {
            assert(0 * pages == 0) by (nonlinear_arith);
            assert(self.slot_views() =~= primed_slots(
                before,
                0,
                context_tokens as int,
                pages as int,
                grants@,
            ));
        }
        while slot < request_slots
            invariant
                slot <= request_slots <= self.slots@.len(),
                before == old(self).slot_views(),
                self.slots@.len() == before.len(),
                context_tokens > 0,
                pages == ceil_div(context_tokens as int, self.page_size.tokens()),
                self.same_shape(*old(self)),
                self.same_flags(*old(self)),
                self.well_formed(),
                used == slot * pages,
                used <= grants@.len(),
                forall|i: int|
                    0 <= i < slot ==> #[trigger] prime_defect(
                        before,
                        i,
                        pages as int,
                        self.pages_per_slot as int,
                        grants@,
                    ) is None,
                self.slot_views() == primed_slots(
                    before,
                    slot as int,
                    context_tokens as int,
                    pages as int,
                    grants@,
                ),
            decreases request_slots - slot,
        {
            let ghost current = self.slot_views();
            proof {
                assert(current[slot as int] == before[slot as int]);
                assert(current[slot as int] == self.slots@[slot as int]@);
                let k = slot as int;
                let p = pages as int;
                assert((k + 1) * p == k * p + p) by (nonlinear_arith);
            }
            if self.slots[slot].allocated_tokens != 0 || self.slots[slot].reserved_pages == 0 {
                assert(prime_defect(
                    before,
                    slot as int,
                    pages as int,
                    self.pages_per_slot as int,
                    grants@,
                ) == Some(BatchCacheError::SlotNotPrimable));
                return Err(BatchCacheError::SlotNotPrimable);
            }
            if pages > self.pages_per_slot || pages > grants.len() - used {
                assert(prime_defect(
                    before,
                    slot as int,
                    pages as int,
                    self.pages_per_slot as int,
                    grants@,
                ) == Some(BatchCacheError::PagesExhausted));
                return Err(BatchCacheError::PagesExhausted);
            }
            let taken = vstd::slice::slice_to_vec(
                vstd::slice::slice_subrange(grants.as_slice(), used, used + pages),
            );
            self.slots[slot].pages = taken;
            self.slots[slot].allocated_tokens = context_tokens;
            proof {
                let grown = primed_slots(
                    before,
                    slot + 1,
                    context_tokens as int,
                    pages as int,
                    grants@,
                );
                assert forall|i: int| 0 <= i < before.len() implies #[trigger] self.slot_views()[i]
                    == grown[i] by {
                    if i == slot {
                        assert(self.slots@[i]@ =~= primed_slot(
                            before[i],
                            i,
                            context_tokens as int,
                            pages as int,
                            grants@,
                        ));
                    } else {
                        assert(self.slot_views()[i] == current[i]);
                    }
                }
                assert(self.slot_views() =~= primed_slots(
                    before,
                    slot + 1,
                    context_tokens as int,
                    pages as int,
                    grants@,
                ));
            }
            used = used + pages;
            slot = slot + 1;
        }
        Ok(())
    }
}

/// What keeps the slot `index` from being filled with its share of the granted pages.
pub open spec fn prime_defect(
    slots: Seq<SlotView>,
    index: int,
    pages: int,
    pages_per_slot: int,
    grants: Seq<u32>,
) -> Option<BatchCacheError> {
    if !primable(slots[index]) {
        Some(BatchCacheError::SlotNotPrimable)
    } else if pages > pages_per_slot || (index + 1) * pages > grants.len() {
        Some(BatchCacheError::PagesExhausted)
    } else {
        None
    }
}

/// The slots with the first `upto` of them filled.
pub open spec fn primed_slots(
    slots: Seq<SlotView>,
    upto: int,
    tokens: int,
    pages: int,
    grants: Seq<u32>,
) -> Seq<SlotView> {
    Seq::new(
        slots.len(),
        |i: int|
            if i < upto {
                primed_slot(slots[i], i, tokens, pages, grants)
            } else {
                slots[i]
            },
    )
}

/// A slot that can be filled: reserved and empty.
pub open spec fn primable(slot: SlotView) -> bool {
    slot.allocated == 0 && slot.reserved > 0
}

/// The slot `index` filled with its share of the granted pages.
pub open spec fn primed_slot(slot: SlotView, index: int, tokens: int, pages: int, grants: Seq<u32>) -> SlotView {
    SlotView {
        allocated: tokens as nat,
        pages: grants.subrange(index * pages, index * pages + pages),
        ..slot
    }
}

proof fn lemma_prefix_pages_are_there(prefix: int, allocated: int, page_size: int)
    requires
        0 <= prefix <= allocated,
        page_size == 16 || page_size == 32,
        prefix % page_size == 0,
    ensures
        0 <= prefix / page_size <= ceil_div(allocated, page_size),
{
}

/// A released slot is as good as new: whatever a request did in a slot that was vacant when it
/// came, releasing the slot leaves all slots as they were.
pub proof fn release_undoes_a_request(before: Seq<SlotView>, used: Seq<SlotView>, slot: int)
    requires
        0 <= slot < before.len(),
        before[slot] == SlotView::vacant(),
        used.len() == before.len(),
        forall|i: int| 0 <= i < used.len() && i != slot ==> #[trigger] used[i] == before[i],
    ensures
        used.update(slot, SlotView::vacant()) == before,
{
    assert(used.update(slot, SlotView::vacant()) =~= before);
}

/// Extending a prefix keeps the pages that a request may still need: what the table gains,
/// the reservation loses.
pub proof fn extension_conserves_pages(
    slots: Seq<SlotView>,
    page_size: int,
    slot: int,
    current: int,
    extended: int,
    pages: Seq<u32>,
)
    requires
        page_size == 16 || page_size == 32,
        0 <= slot,
        0 <= current,
        extend_defect(slots, page_size, slot, current, extended, pages) is None,
        slots[slot].pages.len() == ceil_div(current, page_size),
    ensures
        pages.len() + (slots[slot].reserved - (extended / page_size - current / page_size))
            == slots[slot].pages.len() + slots[slot].reserved,
        pages.take(slots[slot].pages.len() as int) == slots[slot].pages,
{
    lemma_aligned_pages(current, page_size);
}

} // verus!
