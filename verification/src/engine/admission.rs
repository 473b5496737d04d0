//! Admission: whether a request may start, and what a refused one is told.
use vstd::prelude::*;
use vstd::string::StringExecFns;

use crate::cache::{reusable_limit, KvPageSize};
use crate::float::{F32, F64};
use crate::num::{div_ceil, max_usize};
use crate::scheduler::{RequestPhase, RequestSlotId, RequestSlots};
#[allow(unused_imports)]
use crate::scheduler::RequestView;
use crate::text::decimal;

verus! {

/// A refusal as clients see it.
#[derive(Debug)]
pub struct ServingError {
    pub status: &'static str,
    pub message: String,
}

impl ServingError {
    /// The request itself cannot be served.
    pub fn bad_request(message: String) -> (r: Self)
        ensures
            r.status@ == "400 Bad Request"@,
            r.message@ == message@,
    {
        ServingError { status: "400 Bad Request", message }
    }

    /// The engine cannot take the request now.
    pub fn overloaded(message: String) -> (r: Self)
        ensures
            r.status@ == "503 Service Unavailable"@,
            r.message@ == message@,
    {
        ServingError { status: "503 Service Unavailable", message }
    }
}

/// Why a request is refused.
#[derive(Clone, Copy, Debug, PartialEq, Eq, Structural)]
pub enum Refusal {
    /// It asks for anything but greedy sampling.
    NotGreedy,
    /// Prompt and answer do not fit the configured sequence length.
    SequenceCapacity,
    /// The prompt is longer than the hardware profile serves interactively.
    PromptTooLong { tokens: usize, limit: usize },
    /// Decoding would become too slow with one request more.
    DecodeLatency,
    /// The first token would come too late.
    FirstTokenLatency,
    SlotsExhausted,
    PagesUnavailable,
    PrefixUnavailable,
}

impl Refusal {
    pub open spec fn is_client_error(self) -> bool {
        self == Refusal::NotGreedy || self == Refusal::SequenceCapacity
    }

    /// The text of the refusal. `detail` and `bound` are the predicted and the allowed
    /// time in milliseconds, or the cause of the failure, where the reason has one.
    pub open spec fn text(self, detail: Seq<char>, bound: Seq<char>) -> Seq<char> {
        match self {
            Refusal::NotGreedy => "continuous path currently requires greedy sampling"@,
            Refusal::SequenceCapacity => "request exceeds configured sequence capacity"@,
            Refusal::PromptTooLong { tokens, limit } => "prompt has "@
                + crate::text::decimal_text(tokens as nat)
                + " tokens; interactive limit for this hardware profile is "@
                + crate::text::decimal_text(limit as nat)
                + " and no long-context queue is configured"@,
            Refusal::DecodeLatency => "admission rejected: predicted decode p95 "@ + detail
                + " ms exceeds latency budget"@,
            Refusal::FirstTokenLatency => "admission rejected: predicted TTFT "@ + detail
                + " ms exceeds "@ + bound + " ms SLO"@,
            Refusal::SlotsExhausted => "engine request slots exhausted"@,
            Refusal::PagesUnavailable => "KV admission rejected: "@ + detail,
            Refusal::PrefixUnavailable => "prefix cache attach failed: "@ + detail,
        }
    }

    /// The answer that a refused client gets.
    pub fn answer(self, detail: &str, bound: &str) -> (r: ServingError)
        ensures
            r.message@ == self.text(detail@, bound@),
            r.status@ == (if self.is_client_error() {
                "400 Bad Request"@
            } else {
                "503 Service Unavailable"@
            }),
    {
        match self {
            Refusal::NotGreedy => ServingError::bad_request(
                "continuous path currently requires greedy sampling".to_owned(),
            ),
            Refusal::SequenceCapacity => ServingError::bad_request(
                "request exceeds configured sequence capacity".to_owned(),
            ),
            Refusal::PromptTooLong { tokens, limit } => {
                let mut message = "prompt has ".to_owned();
                let count = decimal(tokens as u64);
                message.append(count.as_str());
                message.append(" tokens; interactive limit for this hardware profile is ");
                let allowed = decimal(limit as u64);
                message.append(allowed.as_str());
                message.append(" and no long-context queue is configured");
                ServingError::overloaded(message)
            },
            Refusal::DecodeLatency => {
                let mut message = "admission rejected: predicted decode p95 ".to_owned();
                message.append(detail);
                message.append(" ms exceeds latency budget");
                ServingError::overloaded(message)
            },
            Refusal::FirstTokenLatency => {
                let mut message = "admission rejected: predicted TTFT ".to_owned();
                message.append(detail);
                message.append(" ms exceeds ");
                message.append(bound);
                message.append(" ms SLO");
                ServingError::overloaded(message)
            },
            Refusal::SlotsExhausted => ServingError::overloaded(
                "engine request slots exhausted".to_owned(),
            ),
            Refusal::PagesUnavailable => {
                let mut message = "KV admission rejected: ".to_owned();
                message.append(detail);
                ServingError::overloaded(message)
            },
            Refusal::PrefixUnavailable => {
                let mut message = "prefix cache attach failed: ".to_owned();
                message.append(detail);
                ServingError::overloaded(message)
            },
        }
    }
}

/// What admission reads of a request.
#[derive(Clone, Copy, Debug, PartialEq, Eq, Structural)]
pub struct RequestShape {
    pub prompt_tokens: usize,
    pub maximum_new_tokens: usize,
    pub temperature: F32,
    pub repetition_penalty: F32,
}

impl RequestShape {
    /// Temperature zero and no repetition penalty.
    pub open spec fn greedy(self) -> bool {
        &&& self.temperature.is_equal(F32 { bits: 0 })
        &&& self.repetition_penalty.is_equal(F32 { bits: 0x3f80_0000 })
    }

    pub open spec fn total(self) -> int {
        self.prompt_tokens + self.maximum_new_tokens
    }
}

/// Lengths that requests are held to.
#[derive(Clone, Copy, Debug, PartialEq, Eq, Structural)]
pub struct AdmissionLimits {
    pub maximum_sequence_tokens: usize,
    pub max_position_embeddings: usize,
    pub interactive_prompt_limit: usize,
}

/// Prompt and answer length do not add up to a machine integer.
#[derive(Clone, Copy, Debug, PartialEq, Eq, Structural)]
pub struct RequestLengthOverflow;

/// Predicted times, and the times they are held to. All are in milliseconds but the two
/// per-token times, which are in microseconds.
#[derive(Clone, Copy, Debug, PartialEq, Eq, Structural)]
pub struct LatencyForecast {
    pub decode_ms: F64,
    pub step_budget_ms: F64,
    pub decode_us: F64,
    pub tpot_slo_us: F64,
    pub first_token_ms: F64,
    pub ttft_slo_ms: F64,
}

impl LatencyForecast {
    /// The refusal that the forecast calls for.
    pub open spec fn verdict(self) -> Option<Refusal> {
        if self.decode_ms.is_at_least(self.step_budget_ms) || self.decode_us.is_at_least(
            self.tpot_slo_us,
        ) {
            Some(Refusal::DecodeLatency)
        } else if self.first_token_ms.is_at_least(self.ttft_slo_ms) {
            Some(Refusal::FirstTokenLatency)
        } else {
            None
        }
    }
}

#[derive(Clone, Copy, Debug, PartialEq, Eq, Structural)]
pub enum AdmissionStage {
    LookingUpPrefix,
    Forecasting,
    AcquiringSlot,
    ReservingPages,
    AttachingPrefix,
    Ended,
}

/// What to do for the request next.
#[derive(Clone, Copy, Debug, PartialEq, Eq, Structural)]
pub enum AdmissionAction {
    /// Look for the longest cached prefix of at most `limit` prompt tokens.
    LookUpPrefix { limit: usize },
    /// Predict latencies with this request added; `remaining_prompt` tokens are to be run.
    Forecast { remaining_prompt: usize },
    AcquireSlot,
    /// Reserve this many private pages for the slot.
    ReservePages { slot: RequestSlotId, pages: usize },
    /// Initialise the slot and share the cached prefix with it.
    InitializeAndAttach { slot: RequestSlotId, capacity: usize, pages: usize, tokens: usize },
    /// Initialise the slot; the request waits for its prefill.
    InitializeAndInstall { slot: RequestSlotId, capacity: usize, pages: usize },
    /// The prefix is attached: record it; the request waits for the rest of its prefill.
    Install { slot: RequestSlotId, prefilled: usize },
    /// Give back what was taken, then answer the client.
    Refuse { reason: Refusal, release_pages: bool, release_slot: bool },
}

/// One request on its way into the engine.
#[derive(Clone, Copy, Debug, PartialEq, Eq, Structural)]
pub struct Admission {
    pub stage: AdmissionStage,
    pub page_size: KvPageSize,
    pub prompt_tokens: usize,
    pub total_tokens: usize,
    /// A cached prefix was found; `prefix_tokens` is its length.
    pub prefix_hit: bool,
    pub prefix_tokens: usize,
    pub slot: Option<RequestSlotId>,
    pub pages_reserved: bool,
}

impl Admission {
    /// A slot is held exactly from its acquisition to the end, pages from their
    /// reservation on.
    pub open spec fn well_formed(self) -> bool {
        &&& self.prompt_tokens <= self.total_tokens
        &&& match self.stage {
            AdmissionStage::LookingUpPrefix
            | AdmissionStage::Forecasting
            | AdmissionStage::AcquiringSlot => self.slot is None && !self.pages_reserved,
            AdmissionStage::ReservingPages => self.slot is Some && !self.pages_reserved,
            AdmissionStage::AttachingPrefix => self.slot is Some && self.pages_reserved,
            AdmissionStage::Ended => true,
        }
    }

    /// Pages that the request needs beside those of its shared prefix.
    pub open spec fn private_pages(self) -> int {
        crate::num::max_int(
            crate::num::ceil_div(self.total_tokens as int, self.page_size.tokens())
                - self.prefix_tokens as int / self.page_size.tokens(),
            0,
        )
    }

    pub open spec fn refused(self, reason: Refusal) -> AdmissionAction {
        AdmissionAction::Refuse {
            reason,
            release_pages: self.pages_reserved,
            release_slot: self.slot is Some,
        }
    }

    pub open spec fn ended(self) -> Admission {
        Admission { stage: AdmissionStage::Ended, slot: None, pages_reserved: false, ..self }
    }

    /// The refusal that the shape of a request calls for by itself.
    pub open spec fn screened(shape: RequestShape, limits: AdmissionLimits) -> Option<Refusal> {
        if !shape.greedy() {
            Some(Refusal::NotGreedy)
        } else if shape.total() > limits.maximum_sequence_tokens || shape.total()
            > limits.max_position_embeddings {
            Some(Refusal::SequenceCapacity)
        } else if shape.prompt_tokens > limits.interactive_prompt_limit {
            Some(
                Refusal::PromptTooLong {
                    tokens: shape.prompt_tokens,
                    limit: limits.interactive_prompt_limit,
                },
            )
        } else {
            None
        }
    }

    /// Screens a request that has just arrived.
    pub fn begin(shape: RequestShape, limits: AdmissionLimits, page_size: KvPageSize) -> (r: Result<
        (Admission, AdmissionAction),
        RequestLengthOverflow,
    >)
        ensures
            r is Err <==> shape.greedy() && shape.total() > usize::MAX,
            match r {
                Ok((admission, action)) => {
                    &&& admission.well_formed()
                    &&& admission.slot is None
                    &&& admission.page_size == page_size
                    &&& match Admission::screened(shape, limits) {
                        Some(reason) => {
                            &&& admission.stage == AdmissionStage::Ended
                            &&& action == AdmissionAction::Refuse {
                                reason,
                                release_pages: false,
                                release_slot: false,
                            }
                        },
                        None => {
                            &&& admission.stage == AdmissionStage::LookingUpPrefix
                            &&& admission.prompt_tokens == shape.prompt_tokens
                            &&& admission.total_tokens == shape.total()
                            &&& !admission.prefix_hit
                            &&& admission.prefix_tokens == 0
                            &&& action == AdmissionAction::LookUpPrefix {
                                limit: crate::cache::reusable_boundary(
                                    shape.prompt_tokens as int,
                                    page_size.tokens(),
                                ) as usize,
                            }
                        },
                    }
                },
                Err(_) => true,
            },
    {
        let mut admission = Admission {
            stage: AdmissionStage::Ended,
            page_size,
            prompt_tokens: shape.prompt_tokens,
            total_tokens: shape.prompt_tokens,
            prefix_hit: false,
            prefix_tokens: 0,
            slot: None,
            pages_reserved: false,
        };
        let greedy: bool = shape.temperature.equals(F32 { bits: 0 })
            && shape.repetition_penalty.equals(F32 { bits: 0x3f80_0000 });
        if !greedy {
            return Ok(
                (
                    admission,
                    AdmissionAction::Refuse {
                        reason: Refusal::NotGreedy,
                        release_pages: false,
                        release_slot: false,
                    },
                ),
            );
        }
        let total: usize = match shape.prompt_tokens.checked_add(shape.maximum_new_tokens) {
            Some(total) => total,
            None => {
                return Err(RequestLengthOverflow);
            },
        };
        admission.total_tokens = total;
        if total > limits.maximum_sequence_tokens || total > limits.max_position_embeddings {
            return Ok(
                (
                    admission,
                    AdmissionAction::Refuse {
                        reason: Refusal::SequenceCapacity,
                        release_pages: false,
                        release_slot: false,
                    },
                ),
            );
        }
        if shape.prompt_tokens > limits.interactive_prompt_limit {
            return Ok(
                (
                    admission,
                    AdmissionAction::Refuse {
                        reason: Refusal::PromptTooLong {
                            tokens: shape.prompt_tokens,
                            limit: limits.interactive_prompt_limit,
                        },
                        release_pages: false,
                        release_slot: false,
                    },
                ),
            );
        }
        admission.stage = AdmissionStage::LookingUpPrefix;
        let limit: usize = reusable_limit(shape.prompt_tokens, page_size.value());
        Ok((admission, AdmissionAction::LookUpPrefix { limit }))
    }

    /// The prefix lookup is done; `hit` is the length of the prefix it found.
    pub fn prefix_found(&mut self, hit: Option<usize>) -> (r: AdmissionAction)
        requires
            old(self).well_formed(),
            old(self).stage == AdmissionStage::LookingUpPrefix,
        ensures
            final(self).well_formed(),
            ({
                let tokens = match hit {
                    Some(tokens) => tokens,
                    None => 0,
                };
                &&& *final(self) == (Admission {
                    stage: AdmissionStage::Forecasting,
                    prefix_hit: hit is Some,
                    prefix_tokens: tokens,
                    ..*old(self)
                })
                &&& r == (AdmissionAction::Forecast {
                    remaining_prompt: crate::num::max_int(
                        old(self).prompt_tokens - tokens,
                        0,
                    ) as usize,
                })
            }),
    {
        let tokens: usize = match hit {
            Some(tokens) => tokens,
            None => 0,
        };
        self.prefix_hit = hit.is_some();
        self.prefix_tokens = tokens;
        self.stage = AdmissionStage::Forecasting;
        AdmissionAction::Forecast { remaining_prompt: self.prompt_tokens.saturating_sub(tokens) }
    }

    /// The latencies have been predicted.
    pub fn forecast(&mut self, forecast: LatencyForecast) -> (r: AdmissionAction)
        requires
            old(self).well_formed(),
            old(self).stage == AdmissionStage::Forecasting,
        ensures
            final(self).well_formed(),
            match forecast.verdict() {
                Some(reason) => r == old(self).refused(reason) && *final(self) == old(self).ended(),
                None => r == AdmissionAction::AcquireSlot && *final(self) == (Admission {
                    stage: AdmissionStage::AcquiringSlot,
                    ..*old(self)
                }),
            },
    {
        let refusal: Option<Refusal> = if forecast.decode_ms.at_least(forecast.step_budget_ms)
            || forecast.decode_us.at_least(forecast.tpot_slo_us) {
            Some(Refusal::DecodeLatency)
        } else if forecast.first_token_ms.at_least(forecast.ttft_slo_ms) {
            Some(Refusal::FirstTokenLatency)
        } else {
            None
        };
        match refusal {
            Some(reason) => self.refuse(reason),
            None => {
                self.stage = AdmissionStage::AcquiringSlot;
                AdmissionAction::AcquireSlot
            },
        }
    }

    /// A slot was asked for; `slot` is what was given.
    pub fn slot_acquired(&mut self, slot: Option<RequestSlotId>) -> (r: AdmissionAction)
        requires
            old(self).well_formed(),
            old(self).stage == AdmissionStage::AcquiringSlot,
        ensures
            final(self).well_formed(),
            match slot {
                Some(id) => {
                    &&& r == AdmissionAction::ReservePages {
                        slot: id,
                        pages: old(self).private_pages() as usize,
                    }
                    &&& old(self).private_pages() <= usize::MAX
                    &&& *final(self) == (Admission {
                        stage: AdmissionStage::ReservingPages,
                        slot: Some(id),
                        ..*old(self)
                    })
                },
                None => r == old(self).refused(Refusal::SlotsExhausted) && *final(self) == old(
                    self,
                ).ended(),
            },
    {
        match slot {
            Some(id) => {
                let pages: usize = self.pages_needed();
                self.slot = Some(id);
                self.stage = AdmissionStage::ReservingPages;
                AdmissionAction::ReservePages { slot: id, pages }
            },
            None => self.refuse(Refusal::SlotsExhausted),
        }
    }

    /// The pages were asked for; `granted` says whether they could be reserved.
    pub fn reservation_done(&mut self, granted: bool) -> (r: AdmissionAction)
        requires
            old(self).well_formed(),
            old(self).stage == AdmissionStage::ReservingPages,
        ensures
            final(self).well_formed(),
            ({
                let slot = old(self).slot->Some_0;
                let pages = old(self).private_pages() as usize;
                let capacity = old(self).total_tokens;
                let tokens = old(self).prefix_tokens;
                if !granted {
                    r == old(self).refused(Refusal::PagesUnavailable) && *final(self) == old(
                        self,
                    ).ended()
                } else if old(self).prefix_hit {
                    r == (AdmissionAction::InitializeAndAttach { slot, capacity, pages, tokens })
                        && *final(self) == (Admission {
                        stage: AdmissionStage::AttachingPrefix,
                        pages_reserved: true,
                        ..*old(self)
                    })
                } else {
                    r == (AdmissionAction::InitializeAndInstall { slot, capacity, pages })
                        && *final(self) == old(self).ended()
                }
            }),
    {
        if !granted {
            return self.refuse(Refusal::PagesUnavailable);
        }
        let slot: RequestSlotId = self.slot.unwrap();
        let pages: usize = self.pages_needed();
        let capacity: usize = self.total_tokens;
        let tokens: usize = self.prefix_tokens;
        if self.prefix_hit {
            self.pages_reserved = true;
            self.stage = AdmissionStage::AttachingPrefix;
            AdmissionAction::InitializeAndAttach { slot, capacity, pages, tokens }
        } else {
            self.end();
            AdmissionAction::InitializeAndInstall { slot, capacity, pages }
        }
    }

    /// The prefix was offered to the slot; `attached` says whether that worked.
    pub fn attach_done(&mut self, attached: bool) -> (r: AdmissionAction)
        requires
            old(self).well_formed(),
            old(self).stage == AdmissionStage::AttachingPrefix,
        ensures
            final(self).well_formed(),
            *final(self) == old(self).ended(),
            r == (if attached {
                AdmissionAction::Install {
                    slot: old(self).slot->Some_0,
                    prefilled: old(self).prefix_tokens,
                }
            } else {
                old(self).refused(Refusal::PrefixUnavailable)
            }),
    {
        if !attached {
            return self.refuse(Refusal::PrefixUnavailable);
        }
        let slot: RequestSlotId = self.slot.unwrap();
        let prefilled: usize = self.prefix_tokens;
        self.end();
        AdmissionAction::Install { slot, prefilled }
    }

    fn pages_needed(&self) -> (r: usize)
        ensures
            r == self.private_pages(),
    {
        let page_size: usize = self.page_size.value();
        let total: usize = div_ceil(self.total_tokens, page_size);
        total.saturating_sub(self.prefix_tokens / page_size)
    }

    fn end(&mut self)
        ensures
            *final(self) == old(self).ended(),
    {
        self.stage = AdmissionStage::Ended;
        self.slot = None;
        self.pages_reserved = false;
    }

    fn refuse(&mut self, reason: Refusal) -> (r: AdmissionAction)
        ensures
            r == old(self).refused(reason),
            *final(self) == old(self).ended(),
    {
        let action = AdmissionAction::Refuse {
            reason,
            release_pages: self.pages_reserved,
            release_slot: self.slot.is_some(),
        };
        self.end();
        action
    }
}

/// The requests that compete with a new one.
#[derive(Debug)]
pub struct EngineLoad {
    pub decode_count: usize,
    pub maximum_context: usize,
    /// Prompt tokens still to run, for each queued request in slot order.
    pub queued_prompt_tokens: Vec<usize>,
}

pub open spec fn decoding_requests(slots: Seq<RequestView>) -> int
    decreases slots.len(),
{
    if slots.len() == 0 {
        0
    } else {
        decoding_requests(slots.drop_last()) + if slots.last().phase == RequestPhase::Decoding {
            1int
        } else {
            0int
        }
    }
}

/// The longest decoding request, or `floor` if none is longer.
pub open spec fn longest_context(slots: Seq<RequestView>, floor: int) -> int
    decreases slots.len(),
{
    if slots.len() == 0 {
        floor
    } else if slots.last().phase == RequestPhase::Decoding {
        crate::num::max_int(
            longest_context(slots.drop_last(), floor),
            slots.last().tokens.len() as int,
        )
    } else {
        longest_context(slots.drop_last(), floor)
    }
}

pub open spec fn queued_prompts(slots: Seq<RequestView>) -> Seq<usize>
    decreases slots.len(),
{
    if slots.len() == 0 {
        Seq::empty()
    } else if slots.last().phase == RequestPhase::QueuedPrefill {
        queued_prompts(slots.drop_last()).push(
            crate::num::max_int(slots.last().prompt_len - slots.last().prefilled, 0) as usize,
        )
    } else {
        queued_prompts(slots.drop_last())
    }
}

/// Surveys the slots on behalf of a new request of `total` tokens. The new request counts
/// as one more decoding request.
pub fn survey_load(slots: &RequestSlots, total: usize) -> (r: EngineLoad)
    ensures
        r.decode_count == crate::num::min_int(decoding_requests(slots@) + 1, usize::MAX as int),
        r.maximum_context == longest_context(slots@, total as int),
        r.queued_prompt_tokens@ == queued_prompts(slots@),
{
    let mut decode_count: usize = 1;
    let mut maximum_context: usize = total;
    let mut queued: Vec<usize> = Vec::new();
    let mut index: usize = 0;
    while index < slots.entries.len()
        invariant
            index <= slots@.len(),
            slots@.len() == slots.entries@.len(),
            decode_count == crate::num::min_int(
                decoding_requests(slots@.take(index as int)) + 1,
                usize::MAX as int,
            ),
            decoding_requests(slots@.take(index as int)) >= 0,
            maximum_context == longest_context(slots@.take(index as int), total as int),
            queued@ == queued_prompts(slots@.take(index as int)),
        decreases slots@.len() - index,
    {
        let state = &slots.entries[index];
        proof {
            let upto = slots@.take(index + 1);
            assert(upto.drop_last() =~= slots@.take(index as int));
            assert(upto.last() == state@);
        }
        if state.phase == RequestPhase::Decoding {
            decode_count = decode_count.saturating_add(1);
            maximum_context = max_usize(maximum_context, state.tokens.len());
        } else if state.phase == RequestPhase::QueuedPrefill {
            queued.push(state.prompt_len.saturating_sub(state.prefilled));
        }
        index = index + 1;
    }
    assert(slots@.take(index as int) =~= slots@);
    EngineLoad { decode_count, maximum_context, queued_prompt_tokens: queued }
}

/// An admission whose every stage succeeds reserves enough pages: those of the shared
/// prefix and the private ones together cover every token of the request.
pub proof fn reserved_pages_cover_request(admission: Admission)
    ensures
        admission.total_tokens <= (admission.private_pages() + admission.prefix_tokens as int
            / admission.page_size.tokens()) * admission.page_size.tokens(),
{
    let page = admission.page_size.tokens();
    let total = crate::num::ceil_div(admission.total_tokens as int, page);
    let shared = admission.prefix_tokens as int / page;
    crate::num::ceil_div_covers(admission.total_tokens as int, page);
    assert(total * page <= (admission.private_pages() + shared) * page) by (nonlinear_arith)
        requires
            total <= admission.private_pages() + shared,
            page > 0,
    ;
}

/// A refused request keeps nothing: the refusal gives back the slot exactly if one is
/// held, and the pages exactly if they are reserved.
pub proof fn refusal_gives_everything_back(admission: Admission, reason: Refusal)
    requires
        admission.well_formed(),
        admission.stage != AdmissionStage::Ended,
    ensures
        admission.refused(reason) == (AdmissionAction::Refuse {
            reason,
            release_pages: admission.stage == AdmissionStage::AttachingPrefix,
            release_slot: admission.stage == AdmissionStage::ReservingPages || admission.stage
                == AdmissionStage::AttachingPrefix,
        }),
        admission.ended().slot is None,
        !admission.ended().pages_reserved,
{
}

/// Only requests that no retry could help are answered as client errors.
pub proof fn only_shape_refusals_are_client_errors(
    shape: RequestShape,
    limits: AdmissionLimits,
    forecast: LatencyForecast,
)
    ensures
        Admission::screened(shape, limits) matches Some(reason) ==> (reason.is_client_error()
            <==> !shape.greedy() || shape.total() > limits.maximum_sequence_tokens || shape.total()
            > limits.max_position_embeddings),
        forecast.verdict() matches Some(reason) ==> !reason.is_client_error(),
        !Refusal::SlotsExhausted.is_client_error(),
        !Refusal::PagesUnavailable.is_client_error(),
        !Refusal::PrefixUnavailable.is_client_error(),
{
}

} // verus!
