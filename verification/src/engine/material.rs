//! What models are calibrated, measured and warmed up on: texts, sequences and batches.
use vstd::prelude::*;

use crate::engine::batch::RaggedBatch;
use crate::engine::corpus::{
    calibration_sequences, calibration_text_from_line, choose_row_text, decode_sample_positions,
    gathered, has_enough_tokens, line_views, parsed_members, parsed_string, sequence_start,
    CorpusError,
};
use crate::engine::workload::{
    batch_prompts, build_ragged_input, decode_metadata, forced_tokens, probe_prompt,
    prompt_tokens, repeated_prompt_batch, slot_ids, timed_step, DecodeMetadata, TimedStep,
    WorkloadError,
};
use crate::text::trimmed;

verus! {

/// A row's text is its `text` if it has one, string or not, and its `prompt` only if it has
/// none.
pub proof fn rows_give_text_before_prompt(
    text: Option<Option<&str>>,
    prompt: Option<Option<&str>>,
    r: Result<String, CorpusError>,
)
    requires
        call_ensures(choose_row_text, (text, prompt), r),
    ensures
        text is Some && text->0 is Some ==> r is Ok && r->Ok_0@ == text->0->0@,
        text is Some && text->0 is None ==> r is Err,
        text is None && prompt is Some && prompt->0 is Some ==> r is Ok && r->Ok_0@
            == prompt->0->0@,
        text is None && prompt is Some && prompt->0 is None ==> r is Err,
        text is None && prompt is None ==> r is Err,
        r is Err ==> r->Err_0 == CorpusError::MissingText,
{
}

/// Blank lines give nothing. Lines that begin with a brace give the text of the row, or the
/// reason that it has none. Lines that begin with a quote give the string if they are one.
/// All other lines give themselves, without white space at their ends.
pub proof fn lines_give_their_text(
    line: &str,
    r: Result<Option<String>, CorpusError>,
    text: Seq<char>,
)
    requires
        call_ensures(calibration_text_from_line, (line,), r),
        text == trimmed(line@),
    ensures
        text.len() == 0 <==> r is Ok && r->Ok_0 is None,
        text.len() > 0 && text[0] != '{' && text[0] != '"' ==> r is Ok && r->Ok_0->0@ == text,
        text.len() > 0 && text[0] == '"' ==> r is Ok && r->Ok_0->0@ == (if parsed_string(
            text,
        ) is Some {
            parsed_string(text)->0
        } else {
            text
        }),
        text.len() > 0 && text[0] == '{' && parsed_members(text) is None ==> r is Err && r->Err_0
            == CorpusError::InvalidJson,
        text.len() > 0 && text[0] == '{' && parsed_members(text) is Some ==> {
            let members = parsed_members(text)->0;
            let has_text = members.dom().contains("text"@);
            let has_prompt = members.dom().contains("prompt"@);
            &&& has_text && members["text"@] is Some ==> r is Ok && r->Ok_0->0@
                == members["text"@]->0
            &&& has_text && members["text"@] is None ==> r is Err && r->Err_0
                == CorpusError::MissingText
            &&& !has_text && has_prompt && members["prompt"@] is Some ==> r is Ok && r->Ok_0->0@
                == members["prompt"@]->0
            &&& !has_text && !(has_prompt && members["prompt"@] is Some) ==> r is Err && r->Err_0
                == CorpusError::MissingText
        },
{
}

/// A stream is long enough if it holds a full sequence for each that is wanted.
pub proof fn enough_is_a_full_sequence_each(
    tokens: usize,
    sequences: usize,
    length: usize,
    r: Result<bool, CorpusError>,
)
    requires
        call_ensures(has_enough_tokens, (tokens, sequences, length), r),
    ensures
        r is Err <==> sequences * length > usize::MAX,
        r is Ok ==> (r->Ok_0 <==> tokens >= sequences * length),
{
}

/// The first `upto` lines behind each other.
pub open spec fn joined(lines: Seq<Seq<u32>>, upto: int) -> Seq<u32>
    decreases upto,
{
    if upto <= 0 {
        Seq::empty()
    } else {
        joined(lines, upto - 1) + lines[upto - 1]
    }
}

/// Lines are read whole and in order, and just as many as it takes to reach the target; all
/// of them if it is out of reach.
pub proof fn lines_are_read_until_the_target(lines: Seq<Seq<u32>>, target: int, upto: int) -> (read:
    int)
    requires
        0 < upto <= lines.len(),
    ensures
        1 <= read <= upto,
        gathered(lines, target, upto) == joined(lines, read),
        read < upto ==> joined(lines, read).len() >= target,
        read > 1 ==> joined(lines, read - 1).len() < target,
    decreases upto,
{
    if upto == 1 {
        assert(gathered(lines, target, 0) == Seq::<u32>::empty());
        reveal_with_fuel(joined, 2);
        assert(joined(lines, 0) == Seq::<u32>::empty());
        1
    } else {
        let earlier = lines_are_read_until_the_target(lines, target, upto - 1);
        if gathered(lines, target, upto - 1).len() >= target {
            earlier
        } else {
            upto
        }
    }
}

/// How many stream tokens the first `upto` sequences hold: all but the first of each.
pub open spec fn stream_tokens(sequences: Seq<Vec<u32>>, upto: int) -> int
    decreases upto,
{
    if upto <= 0 {
        0
    } else {
        stream_tokens(sequences, upto - 1) + sequences[upto - 1]@.len() - 1
    }
}

/// The length of a sequence by its number: of twenty in a row, five are short, seven are
/// twice as long, five four times, and three eight times, unless that is more than allowed.
pub open spec fn length_of(index: int, limit: int) -> int {
    let nominal = if index % 20 < 5 {
        96int
    } else if index % 20 < 12 {
        192
    } else if index % 20 < 17 {
        384
    } else {
        768
    };
    if nominal < limit {
        nominal
    } else {
        limit
    }
}

proof fn lemma_starts(sequences: Seq<Vec<u32>>, stream: Seq<u32>, bos: u32, limit: int, upto: int)
    requires
        limit >= 64,
        0 <= upto <= sequences.len(),
        sequence_start(sequences.len() as int, limit) <= stream.len(),
        forall|i: int|
            0 <= i < sequences.len() ==> (#[trigger] sequences[i])@
                == crate::engine::corpus::sequence_at(stream, bos, i, limit),
    ensures
        sequence_start(upto, limit) == stream_tokens(sequences, upto),
        upto < sequences.len() ==> sequences[upto]@.len() == length_of(upto, limit),
    decreases upto,
{
    if upto > 0 {
        lemma_starts(sequences, stream, bos, limit, upto - 1);
    }
    if upto < sequences.len() {
        crate::engine::corpus::sequences_partition_the_stream(
            stream,
            bos,
            sequences.len() as int,
            limit,
            sequences.len() as int,
            upto,
        );
        let one = sequences[upto]@;
        assert(one == crate::engine::corpus::sequence_at(stream, bos, upto, limit));
        assert(one.len() == 1 + sequence_start(upto + 1, limit) - sequence_start(upto, limit));
    }
}

/// Every sequence begins with the token that begins a text and goes on with the stream where
/// the one before it stopped. Lengths are mixed in a fixed pattern. There are as many as
/// wanted, or as the stream has tokens for.
pub proof fn sequences_are_cut_from_the_stream(
    lines: &Vec<Vec<u32>>,
    bos: u32,
    wanted: usize,
    limit: usize,
    r: Result<Vec<Vec<u32>>, CorpusError>,
    index: int,
    at: int,
    stream: Seq<u32>,
)
    requires
        call_ensures(calibration_sequences, (lines, bos, wanted, limit), r),
        r is Ok,
        stream == gathered(line_views(lines@), wanted * limit, lines@.len() as int),
        0 <= index < r->Ok_0@.len(),
        1 <= at < r->Ok_0@[index]@.len(),
    ensures
        ({
            let sequences = r->Ok_0@;
            &&& limit >= 64
            &&& sequences.len() <= wanted
            &&& sequences[index]@.len() == length_of(index, limit as int)
            &&& sequences[index]@[0] == bos
            &&& sequences[index]@[at] == stream[stream_tokens(sequences, index) + at - 1]
            &&& stream_tokens(sequences, sequences.len() as int) <= stream.len()
            &&& sequences.len() < wanted ==> stream_tokens(sequences, sequences.len() as int)
                + length_of(sequences.len() as int, limit as int) - 1 > stream.len()
        }),
{
    let sequences = r->Ok_0@;
    lemma_starts(sequences, stream, bos, limit as int, index);
    lemma_starts(sequences, stream, bos, limit as int, sequences.len() as int);
    crate::engine::corpus::sequences_partition_the_stream(
        stream,
        bos,
        sequences.len() as int,
        limit as int,
        sequences.len() as int,
        index,
    );
    let one = sequences[index]@;
    let tail = stream.subrange(
        sequence_start(index, limit as int),
        sequence_start(index + 1, limit as int),
    );
    assert(one == crate::engine::corpus::sequence_at(stream, bos, index, limit as int));
    assert(one.skip(1)[at - 1] == one[at]);
    assert(tail[at - 1] == stream[sequence_start(index, limit as int) + at - 1]);
}

/// Sequences shorter than 64 are not cut.
pub proof fn short_sequences_are_not_cut(
    lines: &Vec<Vec<u32>>,
    bos: u32,
    wanted: usize,
    limit: usize,
    r: Result<Vec<Vec<u32>>, CorpusError>,
)
    requires
        call_ensures(calibration_sequences, (lines, bos, wanted, limit), r),
    ensures
        limit < 64 <==> r is Err && r->Err_0 == CorpusError::SequencesTooShort,
{
}

/// As many positions are sampled as asked for, or as there are behind the first token. They
/// are spread evenly: of two neighbours, neither is further than the other from its share of
/// the way from the second token to the last.
pub proof fn samples_are_spread_evenly(tokens: usize, requested: usize, r: Vec<usize>, i: int)
    requires
        call_ensures(decode_sample_positions, (tokens, requested), r),
        0 <= i < r@.len(),
    ensures
        tokens >= 2,
        requested > 0,
        r@.len() == requested || r@.len() == tokens - 1,
        r@.len() <= requested,
        r@.len() <= tokens - 1,
        r@.len() == 1 ==> r@[i] == tokens - 1,
        r@.len() > 1 ==> (r@.len() - 1) * (r@[i] - 1) <= (tokens - 2) * i < (r@.len() - 1) * r@[i],
{
    let count = crate::engine::corpus::sample_count(tokens as int, requested as int);
    crate::engine::corpus::sample_positions_are_spread(tokens as int, requested as int, i);
    let position = crate::engine::corpus::sample_position(tokens as int, count, i);
    assert(r@[i] == position);
    if count > 1 {
        let steps = count - 1;
        let way = (tokens - 2) * i;
        assert(way >= 0) by (nonlinear_arith)
            requires
                way == (tokens - 2) * i,
                tokens >= 2,
                i >= 0,
        ;
        assert(steps * (way / steps) <= way < steps * (way / steps + 1)) by (nonlinear_arith)
            requires
                steps > 0,
                way >= 0,
        ;
    }
}

/// Nothing is sampled of a sequence of one token, or if nothing is asked for; otherwise
/// something is.
pub proof fn something_is_sampled_if_asked_for(tokens: usize, requested: usize, r: Vec<usize>)
    requires
        call_ensures(decode_sample_positions, (tokens, requested), r),
    ensures
        r@.len() == 0 <==> tokens < 2 || requested == 0,
{
}

/// Timed steps count positions up and go through their tokens round after round.
pub proof fn timed_steps_cycle(first: u32, cycle: u32, base: usize, step: usize, r: Result<
    TimedStep,
    WorkloadError,
>, next: Result<TimedStep, WorkloadError>)
    requires
        cycle > 0,
        first + cycle <= u32::MAX,
        base + step + 1 <= u32::MAX,
        call_ensures(timed_step, (first, cycle, base, step), r),
        call_ensures(timed_step, (first, cycle, base, (step + 1) as usize), next),
    ensures
        r is Ok,
        next is Ok,
        r->Ok_0.position == base + step,
        next->Ok_0.position == base + step + 1,
        first <= r->Ok_0.token < first + cycle,
        step == 0 ==> r->Ok_0.token == first,
        next->Ok_0.token == (if r->Ok_0.token + 1 == first + cycle {
            first as int
        } else {
            r->Ok_0.token + 1
        }),
{
    let c = cycle as int;
    let s = step as int;
    lemma_next_remainder(s, c);
    vstd::arithmetic::div_mod::lemma_small_mod(0, cycle as nat);
}

proof fn lemma_next_remainder(s: int, c: int)
    by (nonlinear_arith)
    requires
        c > 0,
        s >= 0,
    ensures
        (s + 1) % c == (if s % c + 1 == c {
            0
        } else {
            s % c + 1
        }),
{
    assert(s == c * (s / c) + s % c);
    if s % c + 1 == c {
        assert(s + 1 == c * (s / c + 1));
    }
}

/// A decode batch has a row, a segment and an output for each slot, numbered alike.
pub proof fn decode_rows_are_numbered_alike(
    batch: usize,
    ids: Result<Vec<u32>, WorkloadError>,
    r: Result<DecodeMetadata, WorkloadError>,
    i: int,
)
    requires
        call_ensures(slot_ids, (batch,), ids),
        call_ensures(decode_metadata, (batch,), r),
        0 <= i < batch <= u32::MAX,
    ensures
        ids is Ok,
        ids->Ok_0@.len() == batch,
        ids->Ok_0@[i] == i,
        r is Ok,
        r->Ok_0.request_slots@ == ids->Ok_0@,
        r->Ok_0.segment_slots@ == ids->Ok_0@,
        r->Ok_0.output_rows@ == ids->Ok_0@,
        r->Ok_0.segment_offsets@.len() == batch + 1,
        r->Ok_0.segment_offsets@[i] == i,
        r->Ok_0.segment_offsets@[i + 1] == i + 1,
{
    assert(r->Ok_0.request_slots@ =~= ids->Ok_0@);
    assert(r->Ok_0.segment_slots@ =~= ids->Ok_0@);
    assert(r->Ok_0.output_rows@ =~= ids->Ok_0@);
}

/// Forced tokens differ from slot to slot by one, and from step to step by seventeen.
pub proof fn forced_tokens_differ(
    batch: usize,
    step: usize,
    r: Result<Vec<u32>, WorkloadError>,
    next: Result<Vec<u32>, WorkloadError>,
    slot: int,
)
    requires
        call_ensures(forced_tokens, (batch, step), r),
        call_ensures(forced_tokens, (batch, (step + 1) as usize), next),
        0 <= slot < batch,
        (step + 1) * 17 + batch + 5000 <= u32::MAX,
        step + 1 <= usize::MAX,
    ensures
        r is Ok,
        next is Ok,
        r->Ok_0@.len() == batch,
        step == 0 && slot == 0 ==> r->Ok_0@[slot] == 5000,
        slot > 0 ==> r->Ok_0@[slot] == r->Ok_0@[slot - 1] + 1,
        next->Ok_0@[slot] == r->Ok_0@[slot] + 17,
{
}

proof fn lemma_prompts_batch(prompts: Seq<Seq<u32>>, upto: int)
    requires
        0 <= upto <= prompts.len(),
    ensures
        ({
            let b = crate::engine::workload::prompts_batch(prompts, upto);
            &&& b.token_ids.len() == prompt_tokens(prompts, upto)
            &&& b.segment_offsets.len() == upto + 1
            &&& b.segment_slots.len() == upto
            &&& b.output_rows.len() == upto
            &&& prompt_tokens(prompts, upto) >= 0
        }),
    decreases upto,
{
    if upto > 0 {
        lemma_prompts_batch(prompts, upto - 1);
    }
}

proof fn lemma_prompts_segments(prompts: Seq<Seq<u32>>, upto: int, slot: int)
    requires
        0 <= slot < upto <= prompts.len(),
        upto <= u32::MAX,
        prompt_tokens(prompts, upto) <= u32::MAX,
    ensures
        ({
            let b = crate::engine::workload::prompts_batch(prompts, upto);
            &&& b.segment_slots[slot] == slot
            &&& b.segment_offsets[slot + 1] == prompt_tokens(prompts, slot + 1)
            &&& prompt_tokens(prompts, slot + 1) > 0 ==> b.output_rows[slot] == prompt_tokens(
                prompts,
                slot + 1,
            ) - 1
        }),
    decreases upto,
{
    lemma_prompts_batch(prompts, upto - 1);
    lemma_prompts_batch(prompts, upto);
    if slot < upto - 1 {
        lemma_prompts_segments(prompts, upto - 1, slot);
        lemma_prompts_batch(prompts, slot + 1);
    }
}

/// How many tokens the first `upto` prompts have.
pub open spec fn tokens_of(prompts: Seq<Vec<u32>>, upto: int) -> int
    decreases upto,
{
    if upto <= 0 {
        0
    } else {
        tokens_of(prompts, upto - 1) + prompts[upto - 1]@.len()
    }
}

proof fn lemma_tokens_of(prompts: Seq<Vec<u32>>, upto: int)
    requires
        0 <= upto <= prompts.len(),
    ensures
        tokens_of(prompts, upto) == prompt_tokens(
            crate::engine::workload::prompt_views(prompts),
            upto,
        ),
        tokens_of(prompts, upto) >= 0,
    decreases upto,
{
    if upto > 0 {
        lemma_tokens_of(prompts, upto - 1);
    }
}

/// A batch of prompts runs each in the slot of its number, from its first position, one
/// behind the other; its output row is its last.
pub proof fn prompts_run_side_by_side(
    prompts: &Vec<Vec<u32>>,
    r: Result<RaggedBatch, WorkloadError>,
    slot: int,
    position: int,
)
    requires
        call_ensures(batch_prompts, (prompts,), r),
        0 <= slot < prompts@.len() <= u32::MAX,
        0 <= position < prompts@[slot]@.len(),
    ensures
        r is Ok <==> tokens_of(prompts@, prompts@.len() as int) <= u32::MAX,
        r is Ok ==> {
            let b = r->Ok_0;
            let first = tokens_of(prompts@, slot);
            &&& b.token_ids@.len() == tokens_of(prompts@, prompts@.len() as int)
            &&& 0 <= first + position < b.token_ids@.len()
            &&& b.token_ids@[first + position] == prompts@[slot]@[position]
            &&& b.positions@[first + position] == position
            &&& b.request_slots@[first + position] == slot
            &&& b.segment_slots@.len() == prompts@.len()
            &&& b.segment_slots@[slot] == slot
            &&& b.segment_offsets@[slot + 1] == first + prompts@[slot]@.len()
            &&& b.output_rows@[slot] == first + prompts@[slot]@.len() - 1
        },
{
    let views = crate::engine::workload::prompt_views(prompts@);
    lemma_tokens_of(prompts@, prompts@.len() as int);
    lemma_tokens_of(prompts@, slot);
    lemma_tokens_of(prompts@, slot + 1);
    if r is Ok {
        crate::engine::workload::packed_prompts_keep_their_tokens(
            views,
            prompts@.len() as int,
            slot,
            position,
        );
        lemma_prompts_segments(views, prompts@.len() as int, slot);
        lemma_prompts_batch(views, prompts@.len() as int);
    }
}

/// A probe begins a text and fills the rest with one token.
pub proof fn probes_begin_a_text(bos: u32, count: usize, r: Vec<u32>, i: int)
    requires
        call_ensures(probe_prompt, (bos, count), r),
        0 <= i < count,
    ensures
        r@.len() == count,
        i == 0 ==> r@[i] == bos,
        i > 0 ==> r@[i] == 42,
{
}

/// A batch of one prompt repeated runs the probe in every slot.
pub proof fn repeated_prompts_are_probes(
    bos: u32,
    tokens: usize,
    batch: usize,
    r: Result<RaggedBatch, WorkloadError>,
    slot: int,
    i: int,
)
    requires
        call_ensures(repeated_prompt_batch, (bos, tokens, batch), r),
        r is Ok,
        0 <= slot < batch <= u32::MAX,
        0 <= i < tokens,
    ensures
        r->Ok_0.token_ids@.len() == batch * tokens,
        0 <= slot * tokens + i < batch * tokens,
        r->Ok_0.token_ids@[slot * tokens + i] == (if i == 0 {
            bos
        } else {
            42
        }),
        r->Ok_0.positions@[slot * tokens + i] == i,
        r->Ok_0.request_slots@[slot * tokens + i] == slot,
{
    let prompt = crate::engine::config::warmup_prompt(bos, tokens as int);
    let prompts = crate::engine::workload::repeated(prompt, batch as int);
    lemma_equal_lengths(prompts, tokens as int, batch as int);
    lemma_equal_lengths(prompts, tokens as int, slot);
    crate::engine::workload::packed_prompts_keep_their_tokens(prompts, batch as int, slot, i);
}

proof fn lemma_equal_lengths(prompts: Seq<Seq<u32>>, length: int, upto: int)
    requires
        0 <= upto <= prompts.len(),
        forall|i: int| 0 <= i < prompts.len() ==> (#[trigger] prompts[i]).len() == length,
    ensures
        prompt_tokens(prompts, upto) == upto * length,
    decreases upto,
{
    if upto > 0 {
        lemma_equal_lengths(prompts, length, upto - 1);
        assert((upto - 1) * length + length == upto * length) by (nonlinear_arith);
        assert(prompts[upto - 1].len() == length);
    } else {
        assert(upto * length == 0) by (nonlinear_arith)
            requires
                upto == 0,
        ;
    }
}

/// A batch of different prompts begins a text in every slot, and goes on with tokens that its
/// slot and their position decide.
pub proof fn mixed_prompts_differ_by_slot(
    bos: u32,
    batch: usize,
    tokens: usize,
    r: Result<RaggedBatch, WorkloadError>,
    slot: int,
    i: int,
)
    requires
        call_ensures(build_ragged_input, (bos, batch, tokens), r),
        r is Ok,
        0 <= slot < batch <= u32::MAX,
        0 <= i < tokens,
    ensures
        r->Ok_0.token_ids@.len() == batch * tokens,
        0 <= slot * tokens + i < batch * tokens,
        i == 0 ==> r->Ok_0.token_ids@[slot * tokens + i] == bos,
        i > 0 ==> r->Ok_0.token_ids@[slot * tokens + i] == 100 + (17000 * slot + 17 * i + 43)
            % 5000,
        r->Ok_0.positions@[slot * tokens + i] == i,
        r->Ok_0.request_slots@[slot * tokens + i] == slot,
{
    let prompts = crate::engine::workload::mixed_prompts(bos, batch as int, tokens as int);
    lemma_equal_lengths(prompts, tokens as int, batch as int);
    lemma_equal_lengths(prompts, tokens as int, slot);
    crate::engine::workload::packed_prompts_keep_their_tokens(prompts, batch as int, slot, i);
    assert((slot * 1000 + i) * 17 + 43 == 17000 * slot + 17 * i + 43);
    assert(0 <= (17000 * slot + 17 * i + 43) % 5000 < 5000);
}

} // verus!
