//! What the serving decisions read of requests, scheduled work and hardware profiles.
use vstd::prelude::*;

use crate::float::F64;

verus! {

/// Index of a request in the slot table.
#[derive(Clone, Copy, Debug, PartialEq, Eq, Structural)]
pub struct RequestSlotId(pub u32);

#[derive(Clone, Copy, Debug, PartialEq, Eq, Structural)]
pub enum RequestPhase {
    /// The slot holds no request that is waiting or running.
    Idle,
    QueuedPrefill,
    Decoding,
}

/// One entry of the slot table.
#[derive(Debug)]
pub struct RequestState {
    pub phase: RequestPhase,
    pub prompt_len: usize,
    pub prefilled: usize,
    pub reserved_pages: usize,
    pub tokens: Vec<u32>,
}

/// What is known of a slot table entry in contracts.
#[verifier::ext_equal]
pub struct RequestView {
    pub phase: RequestPhase,
    pub prompt_len: nat,
    pub prefilled: nat,
    pub reserved_pages: nat,
    pub tokens: Seq<u32>,
}

impl View for RequestState {
    type V = RequestView;

    open spec fn view(&self) -> RequestView {
        RequestView {
            phase: self.phase,
            prompt_len: self.prompt_len as nat,
            prefilled: self.prefilled as nat,
            reserved_pages: self.reserved_pages as nat,
            tokens: self.tokens@,
        }
    }
}

/// The table of all request slots.
#[derive(Debug)]
pub struct RequestSlots {
    pub entries: Vec<RequestState>,
}

impl View for RequestSlots {
    type V = Seq<RequestView>;

    open spec fn view(&self) -> Seq<RequestView> {
        Seq::new(self.entries@.len(), |i: int| self.entries@[i]@)
    }
}

impl RequestSlots {
    /// The entry of `slot`, if the table has it.
    pub fn get(&self, slot: RequestSlotId) -> (r: Option<&RequestState>)
        ensures
            match r {
                Some(state) => slot.0 < self@.len() && *state == self.entries@[slot.0 as int]
                    && state@ == self@[slot.0 as int],
                None => slot.0 >= self@.len(),
            },
    {
        if (slot.0 as usize) < self.entries.len() {
            Some(&self.entries[slot.0 as usize])
        } else {
            None
        }
    }
}

/// One item of an engine step.
#[derive(Clone, Copy, Debug, PartialEq, Eq, Structural)]
pub enum ScheduledWork {
    /// Run the latest token of a decoding request.
    Decode { slot: RequestSlotId },
    /// Run up to `tokens` more prompt tokens of a request.
    Prefill { slot: RequestSlotId, tokens: usize },
}

impl ScheduledWork {
    pub open spec fn slot_id(self) -> RequestSlotId {
        match self {
            ScheduledWork::Decode { slot } => slot,
            ScheduledWork::Prefill { slot, .. } => slot,
        }
    }

    pub fn slot(self) -> (r: RequestSlotId)
        ensures
            r == self.slot_id(),
    {
        match self {
            ScheduledWork::Decode { slot } => slot,
            ScheduledWork::Prefill { slot, .. } => slot,
        }
    }
}

/// Latency targets and batch shape limits of the scheduler.
#[derive(Clone, Copy, Debug, PartialEq, Eq, Structural)]
pub struct SchedulerConfig {
    pub maximum_prefill_tokens: usize,
    pub step_budget_ms: F64,
    pub ttft_slo_us: u64,
    pub tpot_slo_us: u64,
    pub fp8_decode: bool,
}

/// The part of a measured hardware profile that serving decisions read. Its latency
/// curves stay with the application, which hands in predicted times.
#[derive(Clone, Debug)]
pub struct HardwareCostModel {
    pub schema_version: u32,
    pub gpu_name: String,
    pub page_size: usize,
    pub interactive_prompt_limit: usize,
    pub ttft_slo_ms: F64,
}

} // verus!
