//! Publishing computed prefixes and bringing their recurrent states back.
use vstd::prelude::*;

use crate::model::batch_cache::{conv_layers, BatchCacheError, BatchModelCache};
use crate::model::prefix::{CheckpointPoolError, ConvCheckpointPool, PoolView, StateCopy};

verus! {

/// A copy between the states of one convolution layer and its snapshots.
#[derive(Clone, Copy, Debug, PartialEq, Eq, Structural)]
pub struct LayerCopy {
    pub layer: usize,
    pub copy: StateCopy,
}

/// A prefix to publish: its pages, and the snapshot that its states are saved in.
#[derive(Debug)]
pub struct Publication {
    pub pages: Vec<u32>,
    pub checkpoint: u32,
    pub captures: Vec<LayerCopy>,
}

#[derive(Clone, Copy, Debug, PartialEq, Eq, Structural)]
pub enum PublicationError {
    /// The slot cannot give the pages of the prefix.
    Cache(BatchCacheError),
    /// The states cannot be saved.
    Checkpoint(CheckpointPoolError),
}

/// Where the state of a slot, or a snapshot, starts in its layer's buffer.
pub open spec fn state_start(pool: PoolView, index: int) -> int {
    index * pool.elements
}

/// Why `count` layers of a slot cannot be saved in a snapshot.
pub open spec fn capture_defect(pool: PoolView, checkpoint: u32, slot: usize, count: nat) -> Option<
    CheckpointPoolError,
> {
    if count == 0 {
        None
    } else if state_start(pool, slot as int) > usize::MAX {
        Some(CheckpointPoolError::RequestOffsetOverflow)
    } else if state_start(pool, checkpoint as int) > usize::MAX {
        Some(CheckpointPoolError::CheckpointOffsetOverflow)
    } else if count > pool.layers {
        Some(CheckpointPoolError::LayerOutOfRange)
    } else {
        None
    }
}

/// Why `count` layers of a slot cannot be brought back from a snapshot.
pub open spec fn restore_defect(pool: PoolView, checkpoint: u32, slot: usize, count: nat) -> Option<
    CheckpointPoolError,
> {
    if count == 0 {
        None
    } else if state_start(pool, checkpoint as int) > usize::MAX {
        Some(CheckpointPoolError::CheckpointOffsetOverflow)
    } else if state_start(pool, slot as int) > usize::MAX {
        Some(CheckpointPoolError::RequestOffsetOverflow)
    } else if count > pool.layers {
        Some(CheckpointPoolError::LayerOutOfRange)
    } else {
        None
    }
}

/// The copies that save each listed layer of a slot.
pub open spec fn captures(pool: PoolView, checkpoint: u32, slot: usize, layers: Seq<usize>) -> Seq<
    LayerCopy,
> {
    Seq::new(
        layers.len(),
        |i: int|
            LayerCopy {
                layer: layers[i],
                copy: StateCopy {
                    source_start: state_start(pool, slot as int) as usize,
                    destination_start: state_start(pool, checkpoint as int) as usize,
                    elements: pool.elements as usize,
                },
            },
    )
}

/// The copies that bring each listed layer of a slot back.
pub open spec fn restores(pool: PoolView, checkpoint: u32, slot: usize, layers: Seq<usize>) -> Seq<
    LayerCopy,
> {
    Seq::new(
        layers.len(),
        |i: int|
            LayerCopy {
                layer: layers[i],
                copy: StateCopy {
                    source_start: state_start(pool, checkpoint as int) as usize,
                    destination_start: state_start(pool, slot as int) as usize,
                    elements: pool.elements as usize,
                },
            },
    )
}

/// Plans the copies that save the listed layers of a slot in a snapshot.
pub fn plan_captures(
    pool: &ConvCheckpointPool,
    checkpoint: u32,
    slot: usize,
    layers: &Vec<usize>,
) -> (r: Result<Vec<LayerCopy>, CheckpointPoolError>)
    requires
        pool@.well_formed(),
    ensures
        match capture_defect(pool@, checkpoint, slot, layers@.len()) {
            Some(e) => r == Err::<Vec<LayerCopy>, CheckpointPoolError>(e),
            None => r is Ok && r->Ok_0@ == captures(pool@, checkpoint, slot, layers@),
        },
{
    let mut copies: Vec<LayerCopy> = Vec::new();
    let mut index: usize = 0;
    while index < layers.len()
        invariant
            pool@.well_formed(),
            index <= layers@.len(),
            copies@ == captures(pool@, checkpoint, slot, layers@.take(index as int)),
            index > 0 ==> state_start(pool@, slot as int) <= usize::MAX && state_start(
                pool@,
                checkpoint as int,
            ) <= usize::MAX && index <= pool@.layers,
        decreases layers@.len() - index,
    {
        match pool.capture_layer(checkpoint, index, slot) {
            Ok(copy) => copies.push(LayerCopy { layer: layers[index], copy }),
            Err(e) => {
                return Err(e);
            },
        }
        index = index + 1;
        assert(copies@ =~= captures(pool@, checkpoint, slot, layers@.take(index as int)));
    }
    assert(layers@.take(index as int) =~= layers@);
    Ok(copies)
}

/// Plans the copies that bring the listed layers of a slot back from a snapshot.
pub fn plan_restores(
    pool: &ConvCheckpointPool,
    checkpoint: u32,
    slot: usize,
    layers: &Vec<usize>,
) -> (r: Result<Vec<LayerCopy>, CheckpointPoolError>)
    requires
        pool@.well_formed(),
    ensures
        match restore_defect(pool@, checkpoint, slot, layers@.len()) {
            Some(e) => r == Err::<Vec<LayerCopy>, CheckpointPoolError>(e),
            None => r is Ok && r->Ok_0@ == restores(pool@, checkpoint, slot, layers@),
        },
{
    let mut copies: Vec<LayerCopy> = Vec::new();
    let mut index: usize = 0;
    while index < layers.len()
        invariant
            pool@.well_formed(),
            index <= layers@.len(),
            copies@ == restores(pool@, checkpoint, slot, layers@.take(index as int)),
            index > 0 ==> state_start(pool@, slot as int) <= usize::MAX && state_start(
                pool@,
                checkpoint as int,
            ) <= usize::MAX && index <= pool@.layers,
        decreases layers@.len() - index,
    {
        match pool.restore_layer(checkpoint, index, slot) {
            Ok(copy) => copies.push(LayerCopy { layer: layers[index], copy }),
            Err(e) => {
                return Err(e);
            },
        }
        index = index + 1;
        assert(copies@ =~= restores(pool@, checkpoint, slot, layers@.take(index as int)));
    }
    assert(layers@.take(index as int) =~= layers@);
    Ok(copies)
}

impl BatchModelCache {
    /// Publishes the first `prefix_tokens` of a slot, if that is worth it: takes a snapshot
    /// from the pool and plans what is saved in it. Nothing is published without a free
    /// snapshot. A snapshot that cannot be filled goes back to the pool.
    pub fn publish_prefix_checkpoint(
        &self,
        slot: usize,
        request_tokens: usize,
        prefix_tokens: usize,
        can_publish: bool,
        pool: &mut ConvCheckpointPool,
    ) -> (r: Result<Option<Publication>, PublicationError>)
        requires
            self.well_formed(),
            old(pool)@.well_formed(),
        ensures
            final(pool)@.well_formed(),
            ({
                let wanted = self.wants_publication(request_tokens, prefix_tokens, can_publish);
                let defect = self.publication_defect(slot, prefix_tokens);
                let free = old(pool)@.free;
                let layers = conv_layers(self.layers@, self.layers@.len() as int);
                let unsaved = capture_defect(old(pool)@, free.last(), slot, layers.len());
                match r {
                    Ok(None) => {
                        &&& final(pool)@ == old(pool)@
                        &&& !wanted || (defect is None && free.len() == 0)
                    },
                    Ok(Some(publication)) => {
                        &&& wanted && defect is None && free.len() > 0 && unsaved is None
                        &&& final(pool)@ == (PoolView { free: free.drop_last(), ..old(pool)@ })
                        &&& publication.checkpoint == free.last()
                        &&& publication.pages@ == self.slots@[slot as int]@.pages.take(
                            prefix_tokens as int / self.page_size.tokens(),
                        )
                        &&& publication.captures@ == captures(
                            old(pool)@,
                            free.last(),
                            slot,
                            layers,
                        )
                    },
                    Err(PublicationError::Cache(e)) => {
                        &&& wanted && defect == Some(e)
                        &&& final(pool)@ == old(pool)@
                    },
                    Err(PublicationError::Checkpoint(e)) => {
                        &&& wanted && defect is None && free.len() > 0 && unsaved == Some(e)
                        &&& final(pool)@ == old(pool)@
                    },
                }
            }),
    {
        let pages = match self.publishable_pages(slot, request_tokens, prefix_tokens, can_publish) {
            Ok(Some(pages)) => pages,
            Ok(None) => {
                return Ok(None);
            },
            Err(e) => {
                return Err(PublicationError::Cache(e));
            },
        };
        let checkpoint: u32 = match pool.acquire() {
            Some(checkpoint) => checkpoint,
            None => {
                return Ok(None);
            },
        };
        let layers = self.conv_layer_list();
        match plan_captures(pool, checkpoint, slot, &layers) {
            Ok(captures) => Ok(Some(Publication { pages, checkpoint, captures })),
            Err(e) => {
                pool.release(checkpoint);
                proof {
                    crate::model::prefix::release_undoes_acquire(old(pool)@);
                }
                Err(PublicationError::Checkpoint(e))
            },
        }
    }
}

/// What publishing saves is what attaching brings back: the two copies of a layer run between
/// the same places in opposite directions.
pub proof fn restoring_undoes_capturing(
    pool: PoolView,
    checkpoint: u32,
    slot: usize,
    layers: Seq<usize>,
    i: int,
)
    requires
        0 <= i < layers.len(),
    ensures
        capture_defect(pool, checkpoint, slot, layers.len()) is None <==> restore_defect(
            pool,
            checkpoint,
            slot,
            layers.len(),
        ) is None,
        ({
            let saved = captures(pool, checkpoint, slot, layers)[i];
            let restored = restores(pool, checkpoint, slot, layers)[i];
            &&& restored.layer == saved.layer
            &&& restored.copy.source_start == saved.copy.destination_start
            &&& restored.copy.destination_start == saved.copy.source_start
            &&& restored.copy.elements == saved.copy.elements
        }),
{
}

} // verus!
