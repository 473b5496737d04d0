//! The cache of a single sequence, and speculative evaluation that can be rolled back.
use vstd::prelude::*;

use crate::model::batch_cache::conv_layers;
use crate::model::forward::LayerKind;

verus! {

#[derive(Clone, Copy, Debug, PartialEq, Eq, Structural)]
pub enum SequenceCacheError {
    NoCapacity,
    /// The capacity is larger than the model's longest sequence.
    CapacityBeyondModel { capacity: usize, limit: usize },
    NoTokens,
    LengthOverflow,
    /// The tokens do not fit the cache.
    CapacityExceeded { needed: usize, capacity: usize },
    PositionOverflow,
    /// More tokens are accepted than were evaluated.
    AcceptedTooMany { valid: usize, evaluated: usize },
}

/// The states of one sequence.
#[derive(Debug)]
pub struct ModelCache {
    layers: Vec<LayerKind>,
    sequence_length: usize,
    capacity: usize,
}

/// The contents of [`ModelCache`].
#[verifier::ext_equal]
pub struct SequenceView {
    pub layers: Seq<LayerKind>,
    pub length: nat,
    pub capacity: nat,
}

impl View for ModelCache {
    type V = SequenceView;

    closed spec fn view(&self) -> SequenceView {
        SequenceView {
            layers: self.layers@,
            length: self.sequence_length as nat,
            capacity: self.capacity as nat,
        }
    }
}

impl SequenceView {
    pub open spec fn well_formed(self) -> bool {
        0 < self.capacity <= usize::MAX && self.length <= self.capacity
    }
}

/// Rows of one pass over a sequence.
#[derive(Debug)]
pub struct SequenceRows {
    /// Tokens in the cache before the pass.
    pub start: usize,
    /// Tokens in the cache after it.
    pub end: usize,
    pub positions: Vec<u32>,
    pub slots: Vec<i64>,
}

/// What is wrong with a pass over `tokens` more tokens.
pub open spec fn pass_defect(cache: SequenceView, tokens: int) -> Option<SequenceCacheError> {
    if tokens == 0 {
        Some(SequenceCacheError::NoTokens)
    } else if cache.length + tokens > usize::MAX {
        Some(SequenceCacheError::LengthOverflow)
    } else if cache.length + tokens > cache.capacity {
        Some(
            SequenceCacheError::CapacityExceeded {
                needed: (cache.length + tokens) as usize,
                capacity: cache.capacity as usize,
            },
        )
    } else if cache.length + tokens - 1 > u32::MAX {
        Some(SequenceCacheError::PositionOverflow)
    } else {
        None
    }
}

impl ModelCache {
    /// An empty cache. `attention[i]` says whether layer `i` keeps keys and values.
    pub fn new(capacity: usize, max_position_embeddings: usize, attention: &Vec<bool>) -> (r: Result<
        Self,
        SequenceCacheError,
    >)
        ensures
            match r {
                Ok(cache) => {
                    &&& 0 < capacity <= max_position_embeddings
                    &&& cache@ == (SequenceView {
                        layers: Seq::new(
                            attention@.len(),
                            |i: int|
                                if attention@[i] {
                                    LayerKind::Attention
                                } else {
                                    LayerKind::Conv
                                },
                        ),
                        length: 0,
                        capacity: capacity as nat,
                    })
                    &&& cache@.well_formed()
                },
                Err(e) => e == (if capacity == 0 {
                    SequenceCacheError::NoCapacity
                } else {
                    SequenceCacheError::CapacityBeyondModel {
                        capacity,
                        limit: max_position_embeddings,
                    }
                }) && (capacity == 0 || capacity > max_position_embeddings),
            },
    {
        if capacity == 0 {
            return Err(SequenceCacheError::NoCapacity);
        }
        if capacity > max_position_embeddings {
            return Err(
                SequenceCacheError::CapacityBeyondModel {
                    capacity,
                    limit: max_position_embeddings,
                },
            );
        }
        let mut layers: Vec<LayerKind> = Vec::new();
        let mut layer: usize = 0;
        while layer < attention.len()
            invariant
                layer <= attention@.len(),
                layers@ == Seq::new(
                    layer as nat,
                    |i: int|
                        if attention@[i] {
                            LayerKind::Attention
                        } else {
                            LayerKind::Conv
                        },
                ),
            decreases attention@.len() - layer,
        {
            layers.push(
                if attention[layer] {
                    LayerKind::Attention
                } else {
                    LayerKind::Conv
                },
            );
            layer = layer + 1;
            assert(layers@ =~= Seq::new(
                layer as nat,
                |i: int|
                    if attention@[i] {
                        LayerKind::Attention
                    } else {
                        LayerKind::Conv
                    },
            ));
        }
        Ok(ModelCache { layers, sequence_length: 0, capacity })
    }

    pub fn kinds(&self) -> (r: &Vec<LayerKind>)
        ensures
            r@ == self@.layers,
    {
        &self.layers
    }

    pub fn capacity(&self) -> (r: usize)
        ensures
            r == self@.capacity,
    {
        self.capacity
    }

    pub fn sequence_length(&self) -> (r: usize)
        ensures
            r == self@.length,
    {
        self.sequence_length
    }

    /// Forgets the sequence. The answer lists the layers whose states are to be cleared.
    pub fn reset(&mut self) -> (r: Vec<usize>)
        requires
            old(self)@.well_formed(),
        ensures
            final(self)@ == (SequenceView { length: 0, ..old(self)@ }),
            final(self)@.well_formed(),
            r@ == conv_layers(
                old(self)@.layers,
                old(self)@.layers.len() as int,
            ),
    {
        self.sequence_length = 0;
        let mut r: Vec<usize> = Vec::new();
        let mut layer: usize = 0;
        while layer < self.layers.len()
            invariant
                layer <= self.layers@.len(),
                r@ == conv_layers(self.layers@, layer as int),
            decreases self.layers@.len() - layer,
        {
            if self.layers[layer] == LayerKind::Conv {
                r.push(layer);
            }
            layer = layer + 1;
        }
        r
    }

    /// The rows of a pass over `tokens` more tokens, if they fit.
    pub fn prepare_rows(&self, tokens: usize) -> (r: Result<SequenceRows, SequenceCacheError>)
        requires
            self@.well_formed(),
        ensures
            match r {
                Ok(rows) => {
                    &&& pass_defect(self@, tokens as int) is None
                    &&& rows.start == self@.length
                    &&& rows.end == self@.length + tokens
                    &&& rows.positions@ == Seq::new(
                        tokens as nat,
                        |i: int| (self@.length + i) as u32,
                    )
                    &&& rows.slots@ == Seq::new(tokens as nat, |i: int| (self@.length + i) as i64)
                },
                Err(e) => pass_defect(self@, tokens as int) == Some(e),
            },
    {
        if tokens == 0 {
            return Err(SequenceCacheError::NoTokens);
        }
        let start: usize = self.sequence_length;
        let end: usize = match start.checked_add(tokens) {
            Some(end) => end,
            None => {
                return Err(SequenceCacheError::LengthOverflow);
            },
        };
        if end > self.capacity {
            return Err(
                SequenceCacheError::CapacityExceeded { needed: end, capacity: self.capacity },
            );
        }
        if end - 1 > u32::MAX as usize {
            return Err(SequenceCacheError::PositionOverflow);
        }
        let mut positions: Vec<u32> = Vec::new();
        let mut slots: Vec<i64> = Vec::new();
        let mut row: usize = 0;
        while row < tokens
            invariant
                row <= tokens,
                start == self@.length,
                start + tokens == end,
                end - 1 <= u32::MAX,
                positions@ == Seq::new(row as nat, |i: int| (self@.length + i) as u32),
                slots@ == Seq::new(row as nat, |i: int| (self@.length + i) as i64),
            decreases tokens - row,
        {
            positions.push((start + row) as u32);
            slots.push((start + row) as i64);
            row = row + 1;
            assert(positions@ =~= Seq::new(row as nat, |i: int| (self@.length + i) as u32));
            assert(slots@ =~= Seq::new(row as nat, |i: int| (self@.length + i) as i64));
        }
        Ok(SequenceRows { start, end, positions, slots })
    }

    /// Records that a prepared pass has run.
    pub fn commit(&mut self, rows: &SequenceRows)
        requires
            old(self)@.well_formed(),
            rows.end <= old(self)@.capacity,
        ensures
            final(self)@ == (SequenceView { length: rows.end as nat, ..old(self)@ }),
            final(self)@.well_formed(),
    {
        self.sequence_length = rows.end;
    }
}

/// What is needed to undo part of a speculative pass: where it began, how many tokens it
/// evaluated, and the layers whose states were kept after every token.
#[derive(Debug)]
pub struct SpeculativeCheckpoint {
    pub start_sequence_length: usize,
    pub num_tokens: usize,
    pub conv_layers: Vec<usize>,
}

/// A state to restore from the history of a speculative pass.
#[derive(Clone, Copy, Debug, PartialEq, Eq, Structural)]
pub struct StateRestore {
    pub layer: usize,
    pub source_start: usize,
    pub elements: usize,
}

/// The states to restore, of the first `upto` recorded layers.
pub open spec fn restores(
    layers: Seq<LayerKind>,
    recorded: Seq<usize>,
    token: int,
    elements: usize,
    upto: int,
) -> Seq<StateRestore>
    decreases upto,
{
    if upto <= 0 {
        Seq::empty()
    } else if layers[recorded[upto - 1] as int] == LayerKind::Conv {
        restores(layers, recorded, token, elements, upto - 1).push(
            StateRestore {
                layer: recorded[upto - 1],
                source_start: (token * elements) as usize,
                elements,
            },
        )
    } else {
        restores(layers, recorded, token, elements, upto - 1)
    }
}

impl ModelCache {
    /// Records a speculative pass and what it takes to undo it.
    pub fn commit_speculative(&mut self, rows: &SequenceRows) -> (r: SpeculativeCheckpoint)
        requires
            old(self)@.well_formed(),
            rows.start <= rows.end <= old(self)@.capacity,
        ensures
            final(self)@ == (SequenceView { length: rows.end as nat, ..old(self)@ }),
            final(self)@.well_formed(),
            r.start_sequence_length == rows.start,
            r.num_tokens == rows.end - rows.start,
            r.conv_layers@ == conv_layers(
                old(self)@.layers,
                old(self)@.layers.len() as int,
            ),
    {
        self.sequence_length = rows.end;
        let mut recorded: Vec<usize> = Vec::new();
        let mut layer: usize = 0;
        while layer < self.layers.len()
            invariant
                layer <= self.layers@.len(),
                recorded@ == conv_layers(
                    self.layers@,
                    layer as int,
                ),
            decreases self.layers@.len() - layer,
        {
            if self.layers[layer] == LayerKind::Conv {
                recorded.push(layer);
            }
            layer = layer + 1;
        }
        SpeculativeCheckpoint {
            start_sequence_length: rows.start,
            num_tokens: rows.end - rows.start,
            conv_layers: recorded,
        }
    }

    /// Keeps the first evaluated token and `accepted` draft tokens behind it, and forgets the
    /// rest. The answer lists the states to restore; there are none if everything is kept.
    pub fn rollback_speculative(
        &mut self,
        checkpoint: SpeculativeCheckpoint,
        accepted: usize,
        state_elements: usize,
    ) -> (r: Result<Vec<StateRestore>, SequenceCacheError>)
        requires
            old(self)@.well_formed(),
            accepted < usize::MAX,
            checkpoint.num_tokens * state_elements <= usize::MAX,
            checkpoint.start_sequence_length + checkpoint.num_tokens <= old(self)@.capacity,
            forall|i: int|
                0 <= i < checkpoint.conv_layers@.len() ==> #[trigger] checkpoint.conv_layers@[i]
                    < old(self)@.layers.len(),
        ensures
            final(self)@.well_formed(),
            match r {
                Ok(copies) => {
                    &&& accepted + 1 <= checkpoint.num_tokens
                    &&& final(self)@ == (SequenceView {
                        length: (checkpoint.start_sequence_length + 1 + accepted) as nat,
                        ..old(self)@
                    })
                    &&& copies@ == (if accepted + 1 < checkpoint.num_tokens {
                        restores(
                            old(self)@.layers,
                            checkpoint.conv_layers@,
                            accepted as int,
                            state_elements,
                            checkpoint.conv_layers@.len() as int,
                        )
                    } else {
                        Seq::empty()
                    })
                },
                Err(e) => {
                    &&& accepted + 1 > checkpoint.num_tokens
                    &&& e == (SequenceCacheError::AcceptedTooMany {
                        valid: (accepted + 1) as usize,
                        evaluated: checkpoint.num_tokens,
                    })
                    &&& *final(self) == *old(self)
                },
            },
    {
        let valid: usize = 1 + accepted;
        if valid > checkpoint.num_tokens {
            return Err(
                SequenceCacheError::AcceptedTooMany { valid, evaluated: checkpoint.num_tokens },
            );
        }
        self.sequence_length = checkpoint.start_sequence_length + valid;
        let mut copies: Vec<StateRestore> = Vec::new();
        if valid < checkpoint.num_tokens {
            proof {
                let a = accepted as int;
                let n = checkpoint.num_tokens as int;
                let e = state_elements as int;
                assert(0 <= a * e <= n * e) by (nonlinear_arith)
                    requires
                        0 <= a <= n,
                        0 <= e,
                ;
            }
            let source_start: usize = accepted * state_elements;
            let mut index: usize = 0;
            while index < checkpoint.conv_layers.len()
                invariant
                    index <= checkpoint.conv_layers@.len(),
                    source_start == accepted * state_elements,
                    forall|i: int|
                        0 <= i < checkpoint.conv_layers@.len()
                            ==> #[trigger] checkpoint.conv_layers@[i] < self.layers@.len(),
                    copies@ == restores(
                        self.layers@,
                        checkpoint.conv_layers@,
                        accepted as int,
                        state_elements,
                        index as int,
                    ),
                decreases checkpoint.conv_layers@.len() - index,
            {
                let layer: usize = checkpoint.conv_layers[index];
                if self.layers[layer] == LayerKind::Conv {
                    copies.push(
                        StateRestore { layer, source_start, elements: state_elements },
                    );
                }
                index = index + 1;
            }
        }
        Ok(copies)
    }
}

/// The cache after a pass over `tokens` more tokens.
pub open spec fn after_pass(cache: SequenceView, tokens: int) -> SequenceView {
    SequenceView { length: (cache.length + tokens) as nat, ..cache }
}

proof fn lemma_conv_layers_are_convolutions(layers: Seq<LayerKind>, upto: int)
    requires
        0 <= upto <= layers.len(),
        layers.len() <= usize::MAX,
    ensures
        forall|i: int|
            0 <= i < conv_layers(layers, upto).len() ==> (#[trigger] conv_layers(layers, upto)[i])
                < upto && layers[conv_layers(layers, upto)[i] as int] == LayerKind::Conv,
    decreases upto,
{
    if upto > 0 {
        lemma_conv_layers_are_convolutions(layers, upto - 1);
    }
}

proof fn lemma_every_convolution_is_restored(
    layers: Seq<LayerKind>,
    recorded: Seq<usize>,
    token: int,
    elements: usize,
    upto: int,
)
    requires
        0 <= upto <= recorded.len(),
        forall|i: int|
            0 <= i < recorded.len() ==> layers[#[trigger] recorded[i] as int] == LayerKind::Conv,
    ensures
        restores(layers, recorded, token, elements, upto) == Seq::new(
            upto as nat,
            |i: int|
                StateRestore {
                    layer: recorded[i],
                    source_start: (token * elements) as usize,
                    elements,
                },
        ),
    decreases upto,
{
    if upto > 0 {
        lemma_every_convolution_is_restored(layers, recorded, token, elements, upto - 1);
    }
    assert(restores(layers, recorded, token, elements, upto) =~= Seq::new(
        upto as nat,
        |i: int|
            StateRestore {
                layer: recorded[i],
                source_start: (token * elements) as usize,
                elements,
            },
    ));
}

/// Rolling a speculative pass back leaves the cache as if only the kept tokens had been run:
/// its length is that of the shorter pass, and the state of every convolution layer is
/// restored to the one recorded behind the last kept token.
pub proof fn rollback_leaves_a_shorter_pass(
    before: SequenceView,
    tokens: int,
    accepted: int,
    elements: usize,
)
    requires
        pass_defect(before, tokens) is None,
        before.layers.len() <= usize::MAX,
        0 <= accepted < tokens,
    ensures
        pass_defect(before, accepted + 1) is None,
        (SequenceView {
            length: (before.length + 1 + accepted) as nat,
            ..after_pass(before, tokens)
        }) == after_pass(before, accepted + 1),
        ({
            let recorded = conv_layers(before.layers, before.layers.len() as int);
            restores(before.layers, recorded, accepted, elements, recorded.len() as int)
                == Seq::new(
                recorded.len(),
                |i: int|
                    StateRestore {
                        layer: recorded[i],
                        source_start: (accepted * elements) as usize,
                        elements,
                    },
            )
        }),
{
    let recorded = conv_layers(before.layers, before.layers.len() as int);
    lemma_conv_layers_are_convolutions(before.layers, before.layers.len() as int);
    lemma_every_convolution_is_restored(
        before.layers,
        recorded,
        accepted,
        elements,
        recorded.len() as int,
    );
}

} // verus!
