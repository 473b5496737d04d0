//! What one engine step does to the requests it ran.
use vstd::prelude::*;

use crate::engine::owner::StepError;
use crate::num::min_usize;
use crate::scheduler::{RequestPhase, RequestSlotId, RequestSlots, RequestState, ScheduledWork};
#[allow(unused_imports)]
use crate::scheduler::RequestView;

verus! {

/// Running totals of a temporary-buffer pool.
#[derive(Clone, Copy, Debug, PartialEq, Eq, Structural)]
pub struct PoolStats {
    pub hits: u64,
    pub misses: u64,
    pub available_elements: usize,
    pub dropped_elements: u64,
}

/// Pool hits and misses that fall on one step.
#[derive(Clone, Copy, Debug, PartialEq, Eq, Structural)]
pub struct PoolUse {
    pub bf16_hits: u64,
    pub bf16_misses: u64,
    pub fp8_hits: u64,
    pub fp8_misses: u64,
}

impl PoolUse {
    /// What was used between two readings of the pools.
    pub fn between(
        bf16_started: PoolStats,
        bf16_finished: PoolStats,
        fp8_started: PoolStats,
        fp8_finished: PoolStats,
    ) -> (r: PoolUse)
        ensures
            r == (PoolUse {
                bf16_hits: bf16_finished.hits.saturating_sub(bf16_started.hits),
                bf16_misses: bf16_finished.misses.saturating_sub(bf16_started.misses),
                fp8_hits: fp8_finished.hits.saturating_sub(fp8_started.hits),
                fp8_misses: fp8_finished.misses.saturating_sub(fp8_started.misses),
            }),
    {
        PoolUse {
            bf16_hits: bf16_finished.hits.saturating_sub(bf16_started.hits),
            bf16_misses: bf16_finished.misses.saturating_sub(bf16_started.misses),
            fp8_hits: fp8_finished.hits.saturating_sub(fp8_started.hits),
            fp8_misses: fp8_finished.misses.saturating_sub(fp8_started.misses),
        }
    }
}

/// How far the answer to a request has come. Times and the reply channel are kept
/// beside it by the application.
#[derive(Clone, Copy, Debug, PartialEq, Eq, Structural)]
pub struct ResponseState {
    pub prompt_tokens: usize,
    pub maximum_new_tokens: usize,
    pub generated_tokens: usize,
    pub stop_on_eos: bool,
    pub first_scheduled: bool,
    pub bf16_pool_hits: u64,
    pub bf16_pool_misses: u64,
    pub fp8_pool_hits: u64,
    pub fp8_pool_misses: u64,
}

impl ResponseState {
    pub open spec fn vacant_state() -> ResponseState {
        ResponseState::admitted_state(0, 0, true)
    }

    pub open spec fn admitted_state(
        prompt_tokens: usize,
        maximum_new_tokens: usize,
        stop_on_eos: bool,
    ) -> ResponseState {
        ResponseState {
            prompt_tokens,
            maximum_new_tokens,
            generated_tokens: 0,
            stop_on_eos,
            first_scheduled: false,
            bf16_pool_hits: 0,
            bf16_pool_misses: 0,
            fp8_pool_hits: 0,
            fp8_pool_misses: 0,
        }
    }

    /// The state of a slot that answers no request.
    pub fn vacant() -> (r: Self)
        ensures
            r == ResponseState::vacant_state(),
    {
        ResponseState::admitted(0, 0, true)
    }

    /// The state of a request that was just admitted.
    pub fn admitted(prompt_tokens: usize, maximum_new_tokens: usize, stop_on_eos: bool) -> (r: Self)
        ensures
            r == ResponseState::admitted_state(prompt_tokens, maximum_new_tokens, stop_on_eos),
    {
        ResponseState {
            prompt_tokens,
            maximum_new_tokens,
            generated_tokens: 0,
            stop_on_eos,
            first_scheduled: false,
            bf16_pool_hits: 0,
            bf16_pool_misses: 0,
            fp8_pool_hits: 0,
            fp8_pool_misses: 0,
        }
    }

    pub open spec fn with_pool_use(self, used: PoolUse) -> ResponseState {
        ResponseState {
            bf16_pool_hits: self.bf16_pool_hits.saturating_add(used.bf16_hits),
            bf16_pool_misses: self.bf16_pool_misses.saturating_add(used.bf16_misses),
            fp8_pool_hits: self.fp8_pool_hits.saturating_add(used.fp8_hits),
            fp8_pool_misses: self.fp8_pool_misses.saturating_add(used.fp8_misses),
            ..self
        }
    }

    fn charge(&mut self, used: PoolUse)
        ensures
            *final(self) == old(self).with_pool_use(used),
    {
        self.bf16_pool_hits = self.bf16_pool_hits.saturating_add(used.bf16_hits);
        self.bf16_pool_misses = self.bf16_pool_misses.saturating_add(used.bf16_misses);
        self.fp8_pool_hits = self.fp8_pool_hits.saturating_add(used.fp8_hits);
        self.fp8_pool_misses = self.fp8_pool_misses.saturating_add(used.fp8_misses);
    }
}

#[derive(Clone, Copy, Debug, PartialEq, Eq, Structural)]
pub enum FinishReason {
    /// The model produced the end-of-sequence token.
    Stop,
    /// The request has all the tokens it asked for.
    Length,
}

impl FinishReason {
    /// The reason as clients see it.
    pub fn name(self) -> (r: &'static str)
        ensures
            r@ == (match self {
                FinishReason::Stop => "stop"@,
                FinishReason::Length => "length"@,
            }),
    {
        match self {
            FinishReason::Stop => "stop",
            FinishReason::Length => "length",
        }
    }
}

/// A token that a step produced for a request.
#[derive(Clone, Copy, Debug, PartialEq, Eq, Structural)]
pub struct Emission {
    pub token: u32,
    /// The token becomes part of the answer.
    pub kept: bool,
    /// It is the first token of the answer.
    pub first: bool,
    pub finish: Option<FinishReason>,
}

/// What one row of a step asks for.
#[derive(Clone, Copy, Debug, PartialEq, Eq, Structural)]
pub struct RowOutcome {
    pub slot: RequestSlotId,
    /// Publish the request's first so many tokens as a reusable prefix.
    pub publish: Option<usize>,
    pub emission: Option<Emission>,
}

/// The constants that decide how rows are applied.
#[derive(Clone, Copy, Debug, PartialEq, Eq, Structural)]
pub struct StepRules {
    pub page_size: usize,
    pub eos_token_id: u32,
}

/// Prompt tokens that are done after `tokens` more have run.
pub open spec fn advanced_prefill(request: RequestView, tokens: int) -> nat {
    crate::num::min_int(request.prefilled + tokens, request.prompt_len as int) as nat
}

pub open spec fn on_page_boundary(prefilled: int, page_size: int) -> bool {
    prefilled > 0 && page_size > 0 && prefilled % page_size == 0
}

/// The token that a row emits, given the state of its response.
pub open spec fn emission(state: ResponseState, token: u32, rules: StepRules) -> Emission {
    let eos = state.stop_on_eos && token == rules.eos_token_id;
    let length = state.generated_tokens + 1 >= state.maximum_new_tokens;
    Emission {
        token,
        kept: !eos,
        first: state.generated_tokens == 0,
        finish: if eos {
            Some(FinishReason::Stop)
        } else if length {
            Some(FinishReason::Length)
        } else {
            None
        },
    }
}

/// What a row asks for, before the row is applied.
pub open spec fn row_outcome(
    item: ScheduledWork,
    request: RequestView,
    state: ResponseState,
    token: u32,
    rules: StepRules,
) -> RowOutcome {
    match item {
        ScheduledWork::Decode { slot } => RowOutcome {
            slot,
            publish: None,
            emission: Some(emission(state, token, rules)),
        },
        ScheduledWork::Prefill { slot, tokens } => {
            let prefilled = advanced_prefill(request, tokens as int);
            RowOutcome {
                slot,
                publish: if on_page_boundary(prefilled as int, rules.page_size as int) {
                    Some(prefilled as usize)
                } else {
                    None
                },
                emission: if prefilled < request.prompt_len {
                    None
                } else {
                    Some(emission(state, token, rules))
                },
            }
        },
    }
}

/// The request after a row has been applied to it.
pub open spec fn row_request(item: ScheduledWork, request: RequestView, outcome: RowOutcome) -> RequestView {
    let ran = match item {
        ScheduledWork::Decode { .. } => request,
        ScheduledWork::Prefill { tokens, .. } => RequestView {
            prefilled: advanced_prefill(request, tokens as int),
            ..request
        },
    };
    match outcome.emission {
        Some(emission) => if emission.kept {
            RequestView {
                phase: RequestPhase::Decoding,
                tokens: ran.tokens.push(emission.token),
                ..ran
            }
        } else {
            ran
        },
        None => ran,
    }
}

/// The response after a row has been applied to it.
pub open spec fn row_state(state: ResponseState, outcome: RowOutcome, used: PoolUse) -> ResponseState {
    let charged = state.with_pool_use(used);
    if outcome.emission is Some {
        ResponseState { generated_tokens: (charged.generated_tokens + 1) as usize, ..charged }
    } else {
        charged
    }
}

impl RequestState {
    /// Appends a generated token; the request decodes from then on.
    pub fn push_token(&mut self, token: u32)
        ensures
            final(self)@ == (RequestView {
                phase: RequestPhase::Decoding,
                tokens: old(self)@.tokens.push(token),
                ..old(self)@
            }),
    {
        self.tokens.push(token);
        self.phase = RequestPhase::Decoding;
    }
}

/// Applies the sampled `token` of one row to its request and response.
pub fn complete_row(
    item: ScheduledWork,
    request: &mut RequestState,
    state: &mut ResponseState,
    token: u32,
    rules: StepRules,
    used: PoolUse,
) -> (r: RowOutcome)
    requires
        old(state).generated_tokens < usize::MAX,
    ensures
        r == row_outcome(item, old(request)@, *old(state), token, rules),
        final(request)@ == row_request(item, old(request)@, r),
        *final(state) == row_state(*old(state), r, used),
{
    state.charge(used);
    let mut publish: Option<usize> = None;
    if let ScheduledWork::Prefill { tokens, .. } = item {
        request.prefilled =
        min_usize(request.prefilled.saturating_add(tokens), request.prompt_len);
        if request.prefilled > 0 && rules.page_size > 0 && request.prefilled % rules.page_size == 0 {
            publish = Some(request.prefilled);
        }
        if request.prefilled < request.prompt_len {
            return RowOutcome { slot: item.slot(), publish, emission: None };
        }
    }
    let first: bool = state.generated_tokens == 0;
    state.generated_tokens = state.generated_tokens + 1;
    let eos: bool = state.stop_on_eos && token == rules.eos_token_id;
    let length: bool = state.generated_tokens >= state.maximum_new_tokens;
    if !eos {
        request.push_token(token);
    }
    let finish: Option<FinishReason> = if eos {
        Some(FinishReason::Stop)
    } else if length {
        Some(FinishReason::Length)
    } else {
        None
    };
    RowOutcome {
        slot: item.slot(),
        publish,
        emission: Some(Emission { token, kept: !eos, first, finish }),
    }
}

/// Requests, responses and outcomes while a step is applied row by row.
#[verifier::ext_equal]
pub struct StepView {
    pub slots: Seq<RequestView>,
    pub states: Seq<ResponseState>,
    pub rows: Seq<RowOutcome>,
}

/// One row applied; `None` if its slot does not exist.
pub open spec fn row_applied(
    before: StepView,
    item: ScheduledWork,
    token: u32,
    rules: StepRules,
    used: PoolUse,
) -> Option<StepView> {
    let slot = item.slot_id().0 as int;
    if slot >= before.slots.len() {
        None
    } else {
        let outcome = row_outcome(item, before.slots[slot], before.states[slot], token, rules);
        Some(
            StepView {
                slots: before.slots.update(slot, row_request(item, before.slots[slot], outcome)),
                states: before.states.update(slot, row_state(before.states[slot], outcome, used)),
                rows: before.rows.push(outcome),
            },
        )
    }
}

/// The first `count` rows applied, up to the first row whose slot does not exist.
pub open spec fn rows_applied(
    before: StepView,
    work: Seq<ScheduledWork>,
    sampled: Seq<u32>,
    rules: StepRules,
    used: PoolUse,
    count: int,
) -> StepView
    decreases count,
{
    if count <= 0 {
        before
    } else {
        let sofar = rows_applied(before, work, sampled, rules, used, count - 1);
        if sofar.rows.len() < before.rows.len() + count - 1 {
            sofar
        } else {
            match row_applied(sofar, work[count - 1], sampled[count - 1], rules, used) {
                Some(after) => after,
                None => sofar,
            }
        }
    }
}

/// Applies a whole step: `sampled[i]` is the token sampled for `work[i]`.
///
/// The step fails, after the rows before it, at the first row whose slot does not exist.
pub fn complete_step(
    work: &Vec<ScheduledWork>,
    slots: &mut RequestSlots,
    states: &mut Vec<ResponseState>,
    sampled: &[u32],
    rules: StepRules,
    used: PoolUse,
) -> (r: Result<Vec<RowOutcome>, StepError>)
    requires
        old(states)@.len() == old(slots)@.len(),
        sampled@.len() >= work@.len(),
        forall|i: int|
            0 <= i < old(states)@.len() ==> (#[trigger] old(states)@[i]).generated_tokens
                + work@.len() <= usize::MAX,
    ensures
        ({
            let before = StepView {
                slots: old(slots)@,
                states: old(states)@,
                rows: Seq::<RowOutcome>::empty(),
            };
            let after = rows_applied(before, work@, sampled@, rules, used, work@.len() as int);
            &&& final(slots)@ == after.slots
            &&& final(states)@ == after.states
            &&& match r {
                Ok(rows) => rows@ == after.rows && rows@.len() == work@.len(),
                Err(e) => e == StepError::UnknownSlot && after.rows.len() < work@.len(),
            }
        }),
{
    let ghost before = StepView {
        slots: slots@,
        states: states@,
        rows: Seq::<RowOutcome>::empty(),
    };
    let mut rows: Vec<RowOutcome> = Vec::new();
    let mut index: usize = 0;
    while index < work.len()
        invariant
            index <= work@.len(),
            sampled@.len() >= work@.len(),
            before.rows == Seq::<RowOutcome>::empty(),
            before.slots == old(slots)@,
            before.states == old(states)@,
            rows@.len() == index,
            states@.len() == slots@.len(),
            forall|i: int|
                0 <= i < states@.len() ==> (#[trigger] states@[i]).generated_tokens + work@.len()
                    - index <= usize::MAX,
            (StepView { slots: slots@, states: states@, rows: rows@ }) == rows_applied(
                before,
                work@,
                sampled@,
                rules,
                used,
                index as int,
            ),
        decreases work@.len() - index,
    {
        let item = work[index];
        let slot: usize = item.slot().0 as usize;
        let ghost sofar = StepView { slots: slots@, states: states@, rows: rows@ };
        if slot >= slots.entries.len() {
            proof {
                lemma_rows_stop(before, work@, sampled@, rules, used, index as int, work@.len() as int);
            }
            return Err(StepError::UnknownSlot);
        }
        let mut state: ResponseState = states[slot];
        let outcome = complete_row(
            item,
            &mut slots.entries[slot],
            &mut state,
            sampled[index],
            rules,
            used,
        );
        states.set(slot, state);
        rows.push(outcome);
        proof {
            let after = StepView { slots: slots@, states: states@, rows: rows@ };
            assert(after =~= row_applied(sofar, item, sampled@[index as int], rules, used)->Some_0);
        }
        index = index + 1;
    }
    Ok(rows)
}

proof fn lemma_rows_stop(
    before: StepView,
    work: Seq<ScheduledWork>,
    sampled: Seq<u32>,
    rules: StepRules,
    used: PoolUse,
    stop: int,
    count: int,
)
    requires
        before.rows.len() == 0,
        0 <= stop < count <= work.len(),
        rows_applied(before, work, sampled, rules, used, stop).rows.len() == stop,
        work[stop].slot_id().0 >= rows_applied(
            before,
            work,
            sampled,
            rules,
            used,
            stop,
        ).slots.len(),
    ensures
        rows_applied(before, work, sampled, rules, used, count) == rows_applied(
            before,
            work,
            sampled,
            rules,
            used,
            stop,
        ),
    decreases count,
{
    if count - 1 > stop {
        lemma_rows_stop(before, work, sampled, rules, used, stop, count - 1);
    }
}

/// A request that has not finished has fewer tokens than it asked for; one that has
/// finished by length has exactly as many as it asked for, or one if it asked for none.
pub proof fn emission_respects_token_budget(state: ResponseState, token: u32, rules: StepRules)
    requires
        state.generated_tokens == 0 || state.generated_tokens < state.maximum_new_tokens,
    ensures
        ({
            let emitted = emission(state, token, rules);
            let generated = state.generated_tokens + 1;
            &&& emitted.finish is None ==> generated < state.maximum_new_tokens
            &&& emitted.finish == Some(FinishReason::Length) ==> generated == crate::num::max_int(
                state.maximum_new_tokens as int,
                1,
            )
            &&& emitted.finish == Some(FinishReason::Stop) <==> !emitted.kept
        }),
{
}

/// A row of work that fell to one request, with its sampled token.
pub struct RequestRow {
    pub item: ScheduledWork,
    pub token: u32,
    pub used: PoolUse,
}

/// A request over several steps, until it is finished.
pub struct RequestLife {
    pub request: RequestView,
    pub state: ResponseState,
    pub finish: Option<FinishReason>,
}

impl RequestLife {
    /// A request that was just admitted.
    pub open spec fn admitted(
        request: RequestView,
        maximum_new_tokens: usize,
        stop_on_eos: bool,
    ) -> RequestLife {
        RequestLife {
            request,
            state: ResponseState::admitted_state(
                request.tokens.len() as usize,
                maximum_new_tokens,
                stop_on_eos,
            ),
            finish: None,
        }
    }

    /// The request after one more row; a finished request gets no more.
    pub open spec fn with_row(self, row: RequestRow, rules: StepRules) -> RequestLife {
        let outcome = row_outcome(row.item, self.request, self.state, row.token, rules);
        if self.finish is Some {
            self
        } else {
            RequestLife {
                request: row_request(row.item, self.request, outcome),
                state: row_state(self.state, outcome, row.used),
                finish: match outcome.emission {
                    Some(emission) => emission.finish,
                    None => None,
                },
            }
        }
    }

    /// The request after its first `upto` rows.
    pub open spec fn after_rows(self, rows: Seq<RequestRow>, rules: StepRules, upto: int) -> RequestLife
        decreases upto,
    {
        if upto <= 0 {
            self
        } else {
            self.after_rows(rows, rules, upto - 1).with_row(rows[upto - 1], rules)
        }
    }

    /// What holds of an admitted request as long as it lives, and when it is finished.
    pub open spec fn keeps_its_promise(self, prompt: Seq<u32>, rules: StepRules) -> bool {
        let generated = self.state.generated_tokens;
        let wanted = crate::num::max_int(self.state.maximum_new_tokens as int, 1);
        let tokens = self.request.tokens;
        &&& prompt.len() <= tokens.len()
        &&& tokens.take(prompt.len() as int) == prompt
        &&& self.state.prompt_tokens == prompt.len()
        &&& self.state.stop_on_eos ==> forall|i: int|
            prompt.len() <= i < tokens.len() ==> #[trigger] tokens[i] != rules.eos_token_id
        &&& match self.finish {
            None => tokens.len() - prompt.len() == generated && generated < wanted,
            Some(FinishReason::Length) => tokens.len() - prompt.len() == generated && generated
                == wanted,
            Some(FinishReason::Stop) => {
                &&& self.state.stop_on_eos
                &&& tokens.len() - prompt.len() == generated - 1
                &&& generated <= wanted
            },
        }
    }
}

/// A request keeps its promise over any number of steps. While it is not finished, its answer
/// holds exactly the tokens that were generated, and fewer than it asked for. Finished by
/// length, it holds exactly as many as it asked for, or one if it asked for none. Stopped, it
/// holds what came before the token that ends the text, which is never part of an answer.
/// The prompt stays as it was.
pub proof fn requests_complete_as_promised(
    request: RequestView,
    maximum_new_tokens: usize,
    stop_on_eos: bool,
    rows: Seq<RequestRow>,
    rules: StepRules,
    upto: int,
)
    requires
        request.tokens.len() <= usize::MAX,
        0 <= upto <= rows.len(),
    ensures
        ({
            let start = RequestLife::admitted(request, maximum_new_tokens, stop_on_eos);
            let end = start.after_rows(rows, rules, upto);
            &&& end.keeps_its_promise(request.tokens, rules)
            &&& end.state.maximum_new_tokens == maximum_new_tokens
            &&& end.state.stop_on_eos == stop_on_eos
        }),
    decreases upto,
{
    let start = RequestLife::admitted(request, maximum_new_tokens, stop_on_eos);
    let prompt = request.tokens;
    if upto > 0 {
        requests_complete_as_promised(
            request,
            maximum_new_tokens,
            stop_on_eos,
            rows,
            rules,
            upto - 1,
        );
        let before = start.after_rows(rows, rules, upto - 1);
        let after = start.after_rows(rows, rules, upto);
        assert(after.request.tokens.take(prompt.len() as int) =~= prompt) by {
            assert(before.request.tokens.take(prompt.len() as int) == prompt);
            assert forall|i: int| 0 <= i < prompt.len() implies after.request.tokens[i]
                == prompt[i] by {
                assert(before.request.tokens.take(prompt.len() as int)[i] == prompt[i]);
            }
        }
    } else {
        assert(request.tokens.take(prompt.len() as int) =~= prompt);
    }
}

/// A completed step is one row of life for every request that it works on once: the request
/// and its response change as by that row alone, whatever else the step does.
pub proof fn steps_advance_each_request_by_its_row(
    before: StepView,
    work: Seq<ScheduledWork>,
    sampled: Seq<u32>,
    rules: StepRules,
    used: PoolUse,
    place: int,
    count: int,
)
    requires
        before.rows.len() == 0,
        before.states.len() == before.slots.len(),
        0 <= place < count <= work.len(),
        rows_applied(before, work, sampled, rules, used, count).rows.len() == count,
        forall|i: int|
            0 <= i < count && i != place ==> (#[trigger] work[i]).slot_id() != work[place].slot_id(),
    ensures
        ({
            let after = rows_applied(before, work, sampled, rules, used, count);
            let slot = work[place].slot_id().0 as int;
            let start = RequestLife {
                request: before.slots[slot],
                state: before.states[slot],
                finish: None,
            };
            let row = RequestRow { item: work[place], token: sampled[place], used };
            let end = start.with_row(row, rules);
            &&& slot < before.slots.len()
            &&& after.slots[slot] == end.request
            &&& after.states[slot] == end.state
            &&& after.rows[place].slot.0 == slot
            &&& match after.rows[place].emission {
                Some(emission) => emission.finish == end.finish,
                None => end.finish is None,
            }
        }),
    decreases count,
{
    lemma_step_keeps_sizes(before, work, sampled, rules, used, count - 1);
    if count - 1 == place {
        lemma_untouched_request(before, work, sampled, rules, used, work[place].slot_id(), place);
    } else {
        steps_advance_each_request_by_its_row(
            before,
            work,
            sampled,
            rules,
            used,
            place,
            count - 1,
        );
        assert(work[count - 1].slot_id() != work[place].slot_id());
    }
}

proof fn lemma_step_keeps_sizes(
    before: StepView,
    work: Seq<ScheduledWork>,
    sampled: Seq<u32>,
    rules: StepRules,
    used: PoolUse,
    count: int,
)
    requires
        before.rows.len() == 0,
        before.states.len() == before.slots.len(),
        0 <= count,
    ensures
        ({
            let after = rows_applied(before, work, sampled, rules, used, count);
            &&& after.slots.len() == before.slots.len()
            &&& after.states.len() == before.states.len()
            &&& after.rows.len() <= count
        }),
    decreases count,
{
    if count > 0 {
        lemma_step_keeps_sizes(before, work, sampled, rules, used, count - 1);
    }
}

proof fn lemma_untouched_request(
    before: StepView,
    work: Seq<ScheduledWork>,
    sampled: Seq<u32>,
    rules: StepRules,
    used: PoolUse,
    slot: RequestSlotId,
    count: int,
)
    requires
        before.rows.len() == 0,
        before.states.len() == before.slots.len(),
        0 <= count <= work.len(),
        forall|i: int| 0 <= i < count ==> (#[trigger] work[i]).slot_id() != slot,
    ensures
        ({
            let after = rows_applied(before, work, sampled, rules, used, count);
            slot.0 < before.slots.len() ==> after.slots[slot.0 as int] == before.slots[slot.0 as int]
                && after.states[slot.0 as int] == before.states[slot.0 as int]
        }),
    decreases count,
{
    if count > 0 {
        lemma_untouched_request(before, work, sampled, rules, used, slot, count - 1);
        lemma_step_keeps_sizes(before, work, sampled, rules, used, count - 1);
        assert(work[count - 1].slot_id() != slot);
    }
}

/// The request of every work item is marked as scheduled.
pub open spec fn all_scheduled(work: Seq<ScheduledWork>, states: Seq<ResponseState>) -> bool {
    forall|i: int|
        0 <= i < work.len() ==> states[(#[trigger] work[i]).slot_id().0 as int].first_scheduled
}

/// Marks every request of a step as scheduled.
pub fn mark_scheduled(work: &Vec<ScheduledWork>, states: &mut Vec<ResponseState>)
    requires
        forall|i: int|
            0 <= i < work@.len() ==> (#[trigger] work@[i]).slot_id().0 < old(states)@.len(),
    ensures
        final(states)@.len() == old(states)@.len(),
        forall|s: int|
            0 <= s < old(states)@.len() ==> #[trigger] final(states)@[s] == (ResponseState {
                first_scheduled: old(states)@[s].first_scheduled || exists|i: int|
                    0 <= i < work@.len() && (#[trigger] work@[i]).slot_id().0 == s,
                ..old(states)@[s]
            }),
        all_scheduled(work@, final(states)@),
{
    let ghost before = states@;
    let mut index: usize = 0;
    while index < work.len()
        invariant
            index <= work@.len(),
            before == old(states)@,
            states@.len() == before.len(),
            forall|i: int|
                0 <= i < work@.len() ==> (#[trigger] work@[i]).slot_id().0 < before.len(),
            forall|s: int|
                0 <= s < before.len() ==> #[trigger] states@[s] == (ResponseState {
                    first_scheduled: before[s].first_scheduled || exists|i: int|
                        0 <= i < index && (#[trigger] work@[i]).slot_id().0 == s,
                    ..before[s]
                }),
        decreases work@.len() - index,
    {
        let slot: usize = work[index].slot().0 as usize;
        let mut state: ResponseState = states[slot];
        state.first_scheduled = true;
        let ghost earlier = states@;
        states.set(slot, state);
        proof {
            assert forall|s: int| 0 <= s < before.len() implies #[trigger] states@[s] == (
            ResponseState {
                first_scheduled: before[s].first_scheduled || exists|i: int|
                    0 <= i < index + 1 && (#[trigger] work@[i]).slot_id().0 == s,
                ..before[s]
            }) by {
                if s == slot {
                    assert(work@[index as int].slot_id().0 == s);
                } else {
                    assert(states@[s] == earlier[s]);
                    if exists|i: int| 0 <= i < index + 1 && (#[trigger] work@[i]).slot_id().0 == s {
                        let i = choose|i: int|
                            0 <= i < index + 1 && (#[trigger] work@[i]).slot_id().0 == s;
                        assert(i < index);
                    }
                }
            }
        }
        index = index + 1;
    }
}

/// The generated part of a finished request: what follows its prompt.
pub fn generated_tokens(request: &RequestState, state: &ResponseState) -> (r: Vec<u32>)
    requires
        state.prompt_tokens <= request@.tokens.len(),
    ensures
        r@ == request@.tokens.skip(state.prompt_tokens as int),
{
    let r = vstd::slice::slice_to_vec(
        vstd::slice::slice_subrange(
            request.tokens.as_slice(),
            state.prompt_tokens,
            request.tokens.len(),
        ),
    );
    assert(r@ =~= request@.tokens.skip(state.prompt_tokens as int));
    r
}

} // verus!
