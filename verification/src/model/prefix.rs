//! Snapshots of recurrent convolution states for shared prefixes.
use vstd::prelude::*;

verus! {

#[derive(Clone, Copy, Debug, PartialEq, Eq, Structural)]
pub enum CheckpointPoolError {
    NoConvolutionLayers,
    NoCapacity,
    InvalidStateShape,
    CapacityTooLarge,
    StateSizeOverflow,
    LayerOutOfRange,
    RequestOffsetOverflow,
    CheckpointOffsetOverflow,
}

/// A copy between the states of a request and those of a snapshot.
#[derive(Clone, Copy, Debug, PartialEq, Eq, Structural)]
pub struct StateCopy {
    pub source_start: usize,
    pub destination_start: usize,
    pub elements: usize,
}

/// A fixed number of snapshots. A snapshot has one slot in every convolution layer.
#[derive(Debug)]
pub struct ConvCheckpointPool {
    layers: usize,
    capacity: usize,
    free_slots: Vec<u32>,
    elements_per_state: usize,
}

/// The contents of [`ConvCheckpointPool`].
#[verifier::ext_equal]
pub struct PoolView {
    pub layers: nat,
    pub capacity: nat,
    /// Free snapshots; the last one is handed out next.
    pub free: Seq<u32>,
    pub elements: nat,
}

impl View for ConvCheckpointPool {
    type V = PoolView;

    closed spec fn view(&self) -> PoolView {
        PoolView {
            layers: self.layers as nat,
            capacity: self.capacity as nat,
            free: self.free_slots@,
            elements: self.elements_per_state as nat,
        }
    }
}

impl PoolView {
    /// No snapshot is free twice, and none lies outside the pool.
    pub open spec fn well_formed(self) -> bool {
        &&& self.free.no_duplicates()
        &&& forall|i: int| 0 <= i < self.free.len() ==> #[trigger] self.free[i] < self.capacity
        &&& self.capacity <= u32::MAX
        &&& self.layers > 0
        &&& 0 < self.elements <= usize::MAX
    }
}

impl ConvCheckpointPool {
    pub fn new(
        convolution_layers: usize,
        capacity: usize,
        hidden_size: usize,
        state_width: usize,
    ) -> (r: Result<Self, CheckpointPoolError>)
        ensures
            ({
                let defect = if convolution_layers == 0 {
                    Some(CheckpointPoolError::NoConvolutionLayers)
                } else if capacity == 0 {
                    Some(CheckpointPoolError::NoCapacity)
                } else if hidden_size == 0 || state_width == 0 {
                    Some(CheckpointPoolError::InvalidStateShape)
                } else if capacity > u32::MAX {
                    Some(CheckpointPoolError::CapacityTooLarge)
                } else if hidden_size * state_width > usize::MAX {
                    Some(CheckpointPoolError::StateSizeOverflow)
                } else {
                    None
                };
                match r {
                    Ok(pool) => {
                        &&& defect is None
                        &&& pool@ == (PoolView {
                            layers: convolution_layers as nat,
                            capacity: capacity as nat,
                            free: Seq::new(
                                capacity as nat,
                                |i: int| (capacity - 1 - i) as u32,
                            ),
                            elements: (hidden_size * state_width) as nat,
                        })
                        &&& pool@.well_formed()
                    },
                    Err(e) => defect == Some(e),
                }
            }),
    {
        if convolution_layers == 0 {
            return Err(CheckpointPoolError::NoConvolutionLayers);
        }
        if capacity == 0 {
            return Err(CheckpointPoolError::NoCapacity);
        }
        if hidden_size == 0 || state_width == 0 {
            return Err(CheckpointPoolError::InvalidStateShape);
        }
        if capacity > u32::MAX as usize {
            return Err(CheckpointPoolError::CapacityTooLarge);
        }
        let elements_per_state: usize = match hidden_size.checked_mul(state_width) {
            Some(elements) => elements,
            None => {
                return Err(CheckpointPoolError::StateSizeOverflow);
            },
        };
        let mut free_slots: Vec<u32> = Vec::new();
        let mut index: usize = 0;
        while index < capacity
            invariant
                index <= capacity <= u32::MAX,
                free_slots@ == Seq::new(index as nat, |i: int| (capacity - 1 - i) as u32),
            decreases capacity - index,
        {
            free_slots.push((capacity - 1 - index) as u32);
            index = index + 1;
            assert(free_slots@ =~= Seq::new(index as nat, |i: int| (capacity - 1 - i) as u32));
        }
        proof {
            assert(hidden_size * state_width > 0) by (nonlinear_arith)
                requires
                    hidden_size > 0,
                    state_width > 0,
            ;
        }
        Ok(
            ConvCheckpointPool {
                layers: convolution_layers,
                capacity,
                free_slots,
                elements_per_state,
            },
        )
    }

    pub fn capacity(&self) -> (r: usize)
        ensures
            r == self@.capacity,
    {
        self.capacity
    }

    pub fn available(&self) -> (r: usize)
        ensures
            r == self@.free.len(),
    {
        self.free_slots.len()
    }

    /// Takes a free snapshot, if there is one.
    pub fn acquire(&mut self) -> (r: Option<u32>)
        requires
            old(self)@.well_formed(),
        ensures
            final(self)@.well_formed(),
            match r {
                Some(slot) => {
                    &&& old(self)@.free.len() > 0
                    &&& slot == old(self)@.free.last()
                    &&& final(self)@ == (PoolView { free: old(self)@.free.drop_last(), ..old(self)@ })
                    &&& !final(self)@.free.contains(slot)
                    &&& slot < old(self)@.capacity
                },
                None => old(self)@.free.len() == 0 && final(self)@ == old(self)@,
            },
    {
        self.free_slots.pop()
    }

    /// Gives back a snapshot that was taken.
    pub fn release(&mut self, slot: u32)
        requires
            old(self)@.well_formed(),
            slot < old(self)@.capacity,
            !old(self)@.free.contains(slot),
        ensures
            final(self)@.well_formed(),
            final(self)@ == (PoolView { free: old(self)@.free.push(slot), ..old(self)@ }),
    {
        self.free_slots.push(slot);
    }

    /// The copy that saves a request's state in a snapshot.
    pub fn capture_layer(&self, checkpoint_slot: u32, convolution_index: usize, request_slot: usize) -> (r:
        Result<StateCopy, CheckpointPoolError>)
        ensures
            ({
                let request = request_slot * self@.elements;
                let checkpoint = checkpoint_slot * self@.elements;
                r == (if convolution_index >= self@.layers {
                    Err::<StateCopy, CheckpointPoolError>(CheckpointPoolError::LayerOutOfRange)
                } else if request > usize::MAX {
                    Err::<StateCopy, CheckpointPoolError>(
                        CheckpointPoolError::RequestOffsetOverflow,
                    )
                } else if checkpoint > usize::MAX {
                    Err::<StateCopy, CheckpointPoolError>(
                        CheckpointPoolError::CheckpointOffsetOverflow,
                    )
                } else {
                    Ok::<StateCopy, CheckpointPoolError>(
                        StateCopy {
                            source_start: request as usize,
                            destination_start: checkpoint as usize,
                            elements: self@.elements as usize,
                        },
                    )
                })
            }),
    {
        if convolution_index >= self.layers {
            return Err(CheckpointPoolError::LayerOutOfRange);
        }
        let source_start: usize = match request_slot.checked_mul(self.elements_per_state) {
            Some(start) => start,
            None => {
                return Err(CheckpointPoolError::RequestOffsetOverflow);
            },
        };
        let destination_start: usize = match (checkpoint_slot as usize).checked_mul(
            self.elements_per_state,
        ) {
            Some(start) => start,
            None => {
                return Err(CheckpointPoolError::CheckpointOffsetOverflow);
            },
        };
        Ok(StateCopy { source_start, destination_start, elements: self.elements_per_state })
    }

    /// The copy that brings a snapshot back into a request.
    pub fn restore_layer(&self, checkpoint_slot: u32, convolution_index: usize, request_slot: usize) -> (r:
        Result<StateCopy, CheckpointPoolError>)
        ensures
            ({
                let request = request_slot * self@.elements;
                let checkpoint = checkpoint_slot * self@.elements;
                r == (if convolution_index >= self@.layers {
                    Err::<StateCopy, CheckpointPoolError>(CheckpointPoolError::LayerOutOfRange)
                } else if checkpoint > usize::MAX {
                    Err::<StateCopy, CheckpointPoolError>(
                        CheckpointPoolError::CheckpointOffsetOverflow,
                    )
                } else if request > usize::MAX {
                    Err::<StateCopy, CheckpointPoolError>(
                        CheckpointPoolError::RequestOffsetOverflow,
                    )
                } else {
                    Ok::<StateCopy, CheckpointPoolError>(
                        StateCopy {
                            source_start: checkpoint as usize,
                            destination_start: request as usize,
                            elements: self@.elements as usize,
                        },
                    )
                })
            }),
    {
        if convolution_index >= self.layers {
            return Err(CheckpointPoolError::LayerOutOfRange);
        }
        let source_start: usize = match (checkpoint_slot as usize).checked_mul(
            self.elements_per_state,
        ) {
            Some(start) => start,
            None => {
                return Err(CheckpointPoolError::CheckpointOffsetOverflow);
            },
        };
        let destination_start: usize = match request_slot.checked_mul(self.elements_per_state) {
            Some(start) => start,
            None => {
                return Err(CheckpointPoolError::RequestOffsetOverflow);
            },
        };
        Ok(StateCopy { source_start, destination_start, elements: self.elements_per_state })
    }
}

/// Giving back what was just taken leaves the pool as it was.
pub proof fn release_undoes_acquire(pool: PoolView)
    requires
        pool.well_formed(),
        pool.free.len() > 0,
    ensures
        pool.free.drop_last().push(pool.free.last()) == pool.free,
{
    assert(pool.free.drop_last().push(pool.free.last()) =~= pool.free);
}

/// Snapshots of different slots never overlap.
pub proof fn snapshots_are_disjoint(a: u32, b: u32, elements: nat)
    requires
        a < b,
    ensures
        a * elements + elements <= b * elements,
{
    assert(a * elements + elements <= b * elements) by (nonlinear_arith)
        requires
            a < b,
    ;
}

} // verus!
