//! Calibration corpora: text lines, the sequences cut from their tokens and the positions
//! sampled in each.
use vstd::prelude::*;

use vstd::string::StrSliceExecFns;

use crate::num::min_usize;
#[allow(unused_imports)]
use crate::num::min_int;
use crate::text::trim;
#[allow(unused_imports)]
use crate::text::trimmed;

verus! {

#[derive(Clone, Copy, Debug, PartialEq, Eq, Structural)]
pub enum CorpusError {
    /// A line that starts like a JSON object is not JSON.
    InvalidJson,
    /// A JSON row has no string under `text` or, failing that, `prompt`.
    MissingText,
    /// Sequences of fewer than 64 tokens are not cut.
    SequencesTooShort,
    TargetOverflow,
    OffsetOverflow,
}

/// The JSON values of `serde_json`.
#[verifier::external_type_specification]
#[verifier::external_body]
pub struct ExJsonValue(serde_json::Value);

/// The errors of `serde_json`.
#[verifier::external_type_specification]
#[verifier::external_body]
pub struct ExJsonError(serde_json::Error);

/// The members of a JSON object by name, each with its text if it is a string; no members if
/// the value is not an object.
pub uninterp spec fn json_members(value: serde_json::Value) -> Map<Seq<char>, Option<Seq<char>>>;

/// The text of a JSON value, if it is a string.
pub uninterp spec fn json_text(value: serde_json::Value) -> Option<Seq<char>>;

/// The members of the JSON value that a text is parsed into, if it is JSON.
pub uninterp spec fn parsed_members(text: Seq<char>) -> Option<
    Map<Seq<char>, Option<Seq<char>>>,
>;

/// The text of the JSON string that a text is parsed into, if it is one.
pub uninterp spec fn parsed_string(text: Seq<char>) -> Option<Seq<char>>;

/// Calls `serde_json::from_str` for a JSON value of any form.
///
/// Claimed: whether the text is JSON, and which members its value has, is a function of the
/// text.
#[verifier::external_body]
fn parse_json(text: &str) -> (r: Result<serde_json::Value, serde_json::Error>)
    ensures
        match r {
            Ok(value) => parsed_members(text@) == Some(json_members(value)),
            Err(_) => parsed_members(text@) is None,
        },
{
    serde_json::from_str(text)
}

/// Calls `serde_json::from_str` for a string.
///
/// Claimed: whether the text is a JSON string, and which text it holds, is a function of the
/// text.
#[verifier::external_body]
fn parse_json_string(text: &str) -> (r: Result<String, serde_json::Error>)
    ensures
        match r {
            Ok(string) => parsed_string(text@) == Some(string@),
            Err(_) => parsed_string(text@) is None,
        },
{
    serde_json::from_str(text)
}

/// Calls `serde_json::Value::get` with a member's name.
///
/// Claimed: an object gives the member of that name, if it has one, and any other value
/// gives none.
#[verifier::external_body]
fn json_member<'a>(value: &'a serde_json::Value, name: &str) -> (r: Option<&'a serde_json::Value>)
    ensures
        match r {
            Some(member) => json_members(*value).dom().contains(name@) && json_members(*value)[name@]
                == json_text(*member),
            None => !json_members(*value).dom().contains(name@),
        },
{
    value.get(name)
}

/// The contract of `serde_json::Value::as_str`: it gives the text of a string, and nothing
/// for any other value.
pub assume_specification[ serde_json::Value::as_str ](value: &serde_json::Value) -> (r: Option<&str>)
    ensures
        match r {
            Some(text) => json_text(*value) == Some(text@),
            None => json_text(*value) is None,
        },
;

/// The text of a JSON row: that of its `text` member or, only if there is none, of its
/// `prompt` member.
pub open spec fn row_text(
    text: Option<Option<Seq<char>>>,
    prompt: Option<Option<Seq<char>>>,
) -> Option<Seq<char>> {
    match (text, prompt) {
        (Some(string), _) => string,
        (None, Some(string)) => string,
        (None, None) => None,
    }
}

/// A member as the row's text is chosen from it.
pub open spec fn member_of(members: Map<Seq<char>, Option<Seq<char>>>, name: Seq<char>) -> Option<
    Option<Seq<char>>,
> {
    if members.dom().contains(name) {
        Some(members[name])
    } else {
        None
    }
}

pub open spec fn optional_text(text: Option<&str>) -> Option<Seq<char>> {
    match text {
        Some(text) => Some(text@),
        None => None,
    }
}

pub open spec fn optional_member(member: Option<Option<&str>>) -> Option<Option<Seq<char>>> {
    match member {
        Some(text) => Some(optional_text(text)),
        None => None,
    }
}

/// Chooses a JSON row's text from its `text` and `prompt` members: `None` where there is no
/// such member, `Some(None)` where it is not a string.
pub fn choose_row_text(text: Option<Option<&str>>, prompt: Option<Option<&str>>) -> (r: Result<
    String,
    CorpusError,
>)
    ensures
        match r {
            Ok(chosen) => row_text(optional_member(text), optional_member(prompt)) == Some(chosen@),
            Err(e) => e == CorpusError::MissingText && row_text(
                optional_member(text),
                optional_member(prompt),
            ) is None,
        },
{
    let member = match text {
        Some(string) => Some(string),
        None => prompt,
    };
    match member {
        Some(Some(string)) => Ok(string.to_owned()),
        Some(None) => Err(CorpusError::MissingText),
        None => Err(CorpusError::MissingText),
    }
}

fn member_text<'a>(value: &'a serde_json::Value, name: &str) -> (r: Option<Option<&'a str>>)
    ensures
        optional_member(r) == member_of(json_members(*value), name@),
{
    match json_member(value, name) {
        Some(member) => Some(member.as_str()),
        None => None,
    }
}

/// The text that a corpus line stands for: nothing on a blank line; the text of a JSON row;
/// the contents of a JSON string; else the line itself, without white space at its ends.
pub open spec fn line_text(line: Seq<char>) -> Result<Option<Seq<char>>, CorpusError> {
    let text = trimmed(line);
    if text.len() == 0 {
        Ok(None)
    } else if text[0] == '{' {
        match parsed_members(text) {
            None => Err(CorpusError::InvalidJson),
            Some(members) => match row_text(
                member_of(members, "text"@),
                member_of(members, "prompt"@),
            ) {
                Some(chosen) => Ok(Some(chosen)),
                None => Err(CorpusError::MissingText),
            },
        }
    } else if text[0] == '"' && parsed_string(text) is Some {
        Ok(parsed_string(text))
    } else {
        Ok(Some(text))
    }
}

/// Reads one line of a corpus of plain text, JSON strings and JSON rows.
pub fn calibration_text_from_line(line: &str) -> (r: Result<Option<String>, CorpusError>)
    ensures
        match r {
            Ok(Some(text)) => line_text(line@) == Ok::<Option<Seq<char>>, CorpusError>(Some(text@)),
            Ok(None) => line_text(line@) == Ok::<Option<Seq<char>>, CorpusError>(None),
            Err(e) => line_text(line@) == Err::<Option<Seq<char>>, CorpusError>(e),
        },
{
    let text = trim(line);
    if text.unicode_len() == 0 {
        return Ok(None);
    }
    let first: char = text.get_char(0);
    if first == '{' {
        return match parse_json(text) {
            Ok(value) => match choose_row_text(
                member_text(&value, "text"),
                member_text(&value, "prompt"),
            ) {
                Ok(chosen) => Ok(Some(chosen)),
                Err(e) => Err(e),
            },
            Err(_) => Err(CorpusError::InvalidJson),
        };
    }
    if first == '"' {
        match parse_json_string(text) {
            Ok(string) => {
                return Ok(Some(string));
            },
            Err(_) => {},
        }
    }
    Ok(Some(text.to_owned()))
}

/// The token stream of the first `upto` lines, which ends with the line that reaches the
/// target.
pub open spec fn gathered(lines: Seq<Seq<u32>>, target: int, upto: int) -> Seq<u32>
    decreases upto,
{
    if upto <= 0 {
        Seq::empty()
    } else {
        let before = gathered(lines, target, upto - 1);
        if upto > 1 && before.len() >= target {
            before
        } else {
            before + lines[upto - 1]
        }
    }
}

/// The length that the sequence at an index is cut to, unless the limit is shorter.
pub open spec fn nominal_length(index: int) -> int {
    let bucket = index % 20;
    if bucket <= 4 {
        96
    } else if bucket <= 11 {
        192
    } else if bucket <= 16 {
        384
    } else {
        768
    }
}

/// The stream tokens in the sequence at an index: all but its first token.
pub open spec fn payload(index: int, limit: int) -> int {
    min_int(nominal_length(index), limit) - 1
}

/// Where in the stream the sequence at an index starts.
pub open spec fn sequence_start(index: int, limit: int) -> int
    decreases index,
{
    if index <= 0 {
        0
    } else {
        sequence_start(index - 1, limit) + payload(index - 1, limit)
    }
}

/// The sequence at an index.
pub open spec fn sequence_at(stream: Seq<u32>, bos_token_id: u32, index: int, limit: int) -> Seq<u32> {
    seq![bos_token_id] + stream.subrange(
        sequence_start(index, limit),
        sequence_start(index + 1, limit),
    )
}

/// `count` sequences are cut: as many as are wanted, or as the stream has tokens for.
pub open spec fn is_sequence_count(available: int, wanted: int, limit: int, count: int) -> bool {
    &&& 0 <= count <= wanted
    &&& sequence_start(count, limit) <= available
    &&& count < wanted ==> sequence_start(count + 1, limit) > available
}

/// The stream has tokens for the sequences before `k`, but sequence `k` ends behind every
/// machine integer.
pub open spec fn ends_too_far(available: int, wanted: int, limit: int, k: int) -> bool {
    0 <= k < wanted && sequence_start(k, limit) <= available && sequence_start(k + 1, limit)
        > usize::MAX
}

proof fn lemma_payload(index: int, limit: int)
    requires
        limit >= 64,
        index >= 0,
    ensures
        63 <= payload(index, limit) <= 767,
{
}

proof fn lemma_starts_grow(a: int, b: int, limit: int)
    requires
        limit >= 64,
        0 <= a <= b,
    ensures
        0 <= sequence_start(a, limit) <= sequence_start(b, limit),
        sequence_start(b, limit) - sequence_start(a, limit) >= b - a,
    decreases b,
{
    if a < b {
        lemma_payload(b - 1, limit);
        lemma_starts_grow(a, b - 1, limit);
    } else if a > 0 {
        lemma_payload(a - 1, limit);
        lemma_starts_grow(a - 1, a - 1, limit);
    }
}

/// Whether the stream holds enough tokens for all sequences.
pub fn has_enough_tokens(tokens: usize, max_sequences: usize, max_sequence_tokens: usize) -> (r:
    Result<bool, CorpusError>)
    ensures
        r == (if max_sequences * max_sequence_tokens > usize::MAX {
            Err::<bool, CorpusError>(CorpusError::TargetOverflow)
        } else {
            Ok::<bool, CorpusError>(tokens >= max_sequences * max_sequence_tokens)
        }),
{
    match max_sequences.checked_mul(max_sequence_tokens) {
        Some(target) => Ok(tokens >= target),
        None => Err(CorpusError::TargetOverflow),
    }
}

pub open spec fn line_views(lines: Seq<Vec<u32>>) -> Seq<Seq<u32>> {
    Seq::new(lines.len(), |i: int| lines[i]@)
}

fn nominal(index: usize) -> (r: usize)
    ensures
        r == nominal_length(index as int),
{
    let bucket: usize = index % 20;
    if bucket <= 4 {
        96
    } else if bucket <= 11 {
        192
    } else if bucket <= 16 {
        384
    } else {
        768
    }
}

/// Cuts sequences from a corpus, given the tokens of its text lines. Every sequence starts
/// with the token that begins a text; lengths are mixed.
pub fn calibration_sequences(
    lines: &Vec<Vec<u32>>,
    bos_token_id: u32,
    max_sequences: usize,
    max_sequence_tokens: usize,
) -> (r: Result<Vec<Vec<u32>>, CorpusError>)
    ensures
        ({
            let stream = gathered(
                line_views(lines@),
                max_sequences * max_sequence_tokens,
                lines@.len() as int,
            );
            let limit = max_sequence_tokens as int;
            match r {
                Ok(sequences) => {
                    &&& limit >= 64
                    &&& lines@.len() == 0 || max_sequences * max_sequence_tokens <= usize::MAX
                    &&& is_sequence_count(
                        stream.len() as int,
                        max_sequences as int,
                        limit,
                        sequences@.len() as int,
                    )
                    &&& forall|i: int|
                        0 <= i < sequences@.len() ==> (#[trigger] sequences@[i])@ == sequence_at(
                            stream,
                            bos_token_id,
                            i,
                            limit,
                        )
                    &&& forall|k: int|
                        !#[trigger] ends_too_far(
                            stream.len() as int,
                            max_sequences as int,
                            limit,
                            k,
                        )
                },
                Err(CorpusError::SequencesTooShort) => limit < 64,
                Err(CorpusError::TargetOverflow) => limit >= 64 && lines@.len() > 0
                    && max_sequences * max_sequence_tokens > usize::MAX,
                Err(e) => {
                    &&& e == CorpusError::OffsetOverflow
                    &&& limit >= 64
                    &&& lines@.len() == 0 || max_sequences * max_sequence_tokens <= usize::MAX
                    &&& exists|k: int| #[trigger]
                        ends_too_far(stream.len() as int, max_sequences as int, limit, k)
                },
            }
        }),
{
    if max_sequence_tokens < 64 {
        return Err(CorpusError::SequencesTooShort);
    }
    let ghost target = max_sequences * max_sequence_tokens;
    let ghost views = line_views(lines@);
    let mut stream: Vec<u32> = Vec::new();
    let mut next: usize = 0;
    let mut enough: bool = false;
    while next < lines.len() && !enough
        invariant
            next <= lines@.len(),
            target == max_sequences * max_sequence_tokens,
            views == line_views(lines@),
            stream@ == gathered(views, target, next as int),
            next > 0 ==> target <= usize::MAX,
            next > 0 ==> enough == (stream@.len() >= target),
            next == 0 ==> !enough,
            max_sequence_tokens >= 64,
        decreases lines@.len() - next,
    {
        append_tokens(&mut stream, &lines[next]);
        assert(views[next as int] == lines@[next as int]@);
        next = next + 1;
        enough =
        match has_enough_tokens(stream.len(), max_sequences, max_sequence_tokens) {
            Ok(enough) => enough,
            Err(e) => {
                return Err(e);
            },
        };
    }
    proof {
        if next < lines@.len() {
            lemma_gathered_is_complete(views, target, next as int, lines@.len() as int);
        }
    }
    cut_sequences(&stream, bos_token_id, max_sequences, max_sequence_tokens)
}

proof fn lemma_gathered_is_complete(lines: Seq<Seq<u32>>, target: int, from: int, upto: int)
    requires
        0 < from <= upto,
        gathered(lines, target, from).len() >= target,
    ensures
        gathered(lines, target, upto) == gathered(lines, target, from),
    decreases upto,
{
    if from < upto {
        lemma_gathered_is_complete(lines, target, from, upto - 1);
    }
}

fn append_tokens(stream: &mut Vec<u32>, tokens: &Vec<u32>)
    ensures
        final(stream)@ == old(stream)@ + tokens@,
{
    let mut index: usize = 0;
    while index < tokens.len()
        invariant
            index <= tokens@.len(),
            stream@ == old(stream)@ + tokens@.take(index as int),
        decreases tokens@.len() - index,
    {
        stream.push(tokens[index]);
        assert(tokens@.take(index + 1) =~= tokens@.take(index as int).push(tokens@[index as int]));
        index = index + 1;
    }
    assert(tokens@.take(index as int) =~= tokens@);
}

/// Cuts a token stream into sequences.
fn cut_sequences(
    stream: &Vec<u32>,
    bos_token_id: u32,
    max_sequences: usize,
    max_sequence_tokens: usize,
) -> (r: Result<Vec<Vec<u32>>, CorpusError>)
    requires
        max_sequence_tokens >= 64,
    ensures
        match r {
            Ok(sequences) => {
                &&& is_sequence_count(
                    stream@.len() as int,
                    max_sequences as int,
                    max_sequence_tokens as int,
                    sequences@.len() as int,
                )
                &&& forall|i: int|
                    0 <= i < sequences@.len() ==> (#[trigger] sequences@[i])@ == sequence_at(
                        stream@,
                        bos_token_id,
                        i,
                        max_sequence_tokens as int,
                    )
                &&& forall|k: int|
                    !#[trigger] ends_too_far(
                        stream@.len() as int,
                        max_sequences as int,
                        max_sequence_tokens as int,
                        k,
                    )
            },
            Err(e) => e == CorpusError::OffsetOverflow && exists|k: int| #[trigger]
                ends_too_far(
                    stream@.len() as int,
                    max_sequences as int,
                    max_sequence_tokens as int,
                    k,
                ),
        },
{
    let mut sequences: Vec<Vec<u32>> = Vec::new();
    let mut offset: usize = 0;
    let ghost limit = max_sequence_tokens as int;
    while sequences.len() < max_sequences
        invariant
            limit == max_sequence_tokens,
            limit >= 64,
            sequences@.len() <= max_sequences,
            offset == sequence_start(sequences@.len() as int, limit),
            offset <= stream@.len(),
            forall|i: int|
                0 <= i < sequences@.len() ==> (#[trigger] sequences@[i])@ == sequence_at(
                    stream@,
                    bos_token_id,
                    i,
                    limit,
                ),
        decreases max_sequences - sequences@.len(),
    {
        let ghost before = sequences@;
        let index: usize = sequences.len();
        let length: usize = min_usize(nominal(index), max_sequence_tokens);
        proof {
            lemma_payload(index as int, limit);
        }
        let payload: usize = length - 1;
        let end: usize = match offset.checked_add(payload) {
            Some(end) => end,
            None => {
                assert(ends_too_far(
                    stream@.len() as int,
                    max_sequences as int,
                    limit,
                    index as int,
                ));
                return Err(CorpusError::OffsetOverflow);
            },
        };
        assert(end == sequence_start(index + 1, limit));
        if end > stream.len() {
            assert forall|k: int|
                !#[trigger] ends_too_far(stream@.len() as int, max_sequences as int, limit, k) by {
                if 0 <= k <= index {
                    lemma_starts_grow(k + 1, index + 1, limit);
                } else if k > index {
                    lemma_starts_grow(index + 1, k, limit);
                }
            }
            return Ok(sequences);
        }
        let mut sequence: Vec<u32> = Vec::new();
        sequence.push(bos_token_id);
        let mut at: usize = offset;
        while at < end
            invariant
                offset <= at <= end <= stream@.len(),
                sequence@ == seq![bos_token_id] + stream@.subrange(offset as int, at as int),
            decreases end - at,
        {
            sequence.push(stream[at]);
            assert(stream@.subrange(offset as int, at + 1) =~= stream@.subrange(
                offset as int,
                at as int,
            ).push(stream@[at as int]));
            at = at + 1;
        }
        assert(sequence@ == sequence_at(stream@, bos_token_id, index as int, limit));
        sequences.push(sequence);
        offset = end;
        assert forall|i: int| 0 <= i < sequences@.len() implies (#[trigger] sequences@[i])@
            == sequence_at(stream@, bos_token_id, i, limit) by {
            if i < index {
                assert(sequences@[i] == before[i]);
            }
        }
    }
    assert forall|k: int|
        !#[trigger] ends_too_far(stream@.len() as int, max_sequences as int, limit, k) by {
        if 0 <= k < max_sequences {
            lemma_starts_grow(k + 1, max_sequences as int, limit);
        }
    }
    Ok(sequences)
}

/// Every cut sequence starts with the token that begins a text, is at most as long as the
/// limit, and lies in the stream right behind the sequence before it.
pub proof fn sequences_partition_the_stream(
    stream: Seq<u32>,
    bos_token_id: u32,
    wanted: int,
    limit: int,
    count: int,
    index: int,
)
    requires
        limit >= 64,
        is_sequence_count(stream.len() as int, wanted, limit, count),
        0 <= index < count,
    ensures
        sequence_at(stream, bos_token_id, index, limit)[0] == bos_token_id,
        64 <= sequence_at(stream, bos_token_id, index, limit).len() <= min_int(768, limit),
        sequence_at(stream, bos_token_id, index, limit).skip(1) == stream.subrange(
            sequence_start(index, limit),
            sequence_start(index + 1, limit),
        ),
        0 <= sequence_start(index, limit) < sequence_start(index + 1, limit) <= stream.len(),
{
    lemma_payload(index, limit);
    lemma_starts_grow(0, index, limit);
    lemma_starts_grow(index + 1, count, limit);
    let tail = stream.subrange(sequence_start(index, limit), sequence_start(index + 1, limit));
    assert(sequence_at(stream, bos_token_id, index, limit).skip(1) =~= tail);
}

/// The number of cut sequences is determined by the stream.
pub proof fn sequence_count_is_unique(available: int, wanted: int, limit: int, a: int, b: int)
    requires
        limit >= 64,
        is_sequence_count(available, wanted, limit, a),
        is_sequence_count(available, wanted, limit, b),
    ensures
        a == b,
{
    if a < b {
        lemma_starts_grow(a + 1, b, limit);
    } else if b < a {
        lemma_starts_grow(b + 1, a, limit);
    }
}

/// How many positions are sampled.
pub open spec fn sample_count(sequence_tokens: int, requested: int) -> int {
    if sequence_tokens < 2 || requested == 0 {
        0
    } else {
        min_int(requested, sequence_tokens - 1)
    }
}

/// The sampled position at an index: spread evenly from the second token to the last.
pub open spec fn sample_position(sequence_tokens: int, count: int, index: int) -> int {
    if count == 1 {
        sequence_tokens - 1
    } else {
        1 + (sequence_tokens - 2) * index / (count - 1)
    }
}

proof fn lemma_positions_increase(span: int, steps: int, index: int)
    requires
        0 < steps <= span,
        0 <= index < steps,
    ensures
        span * index / steps < span * (index + 1) / steps,
        span * (index + 1) / steps <= span,
        span * index <= span * steps,
        0 <= span * index / steps,
{
    assert(span * (index + 1) == span * index + span) by (nonlinear_arith);
    assert(span * index >= 0) by (nonlinear_arith)
        requires
            span >= 0,
            index >= 0,
    ;
    assert(span * (index + 1) <= span * steps) by (nonlinear_arith)
        requires
            span >= 0,
            index + 1 <= steps,
    ;
    let a = span * index;
    assert(a / steps + 1 <= (a + span) / steps) by (nonlinear_arith)
        requires
            0 < steps <= span,
            0 <= a,
    ;
    let b = a + span;
    assert(b / steps <= span) by (nonlinear_arith)
        requires
            0 < steps,
            0 <= b <= span * steps,
    ;
    assert(0 <= a / steps) by (nonlinear_arith)
        requires
            0 < steps,
            0 <= a,
    ;
}

/// Picks the positions of a sequence at which decoding is sampled.
pub fn decode_sample_positions(sequence_tokens: usize, requested: usize) -> (r: Vec<usize>)
    requires
        sequence_tokens >= 2 ==> (sequence_tokens - 2) * (sample_count(
            sequence_tokens as int,
            requested as int,
        ) - 1) <= usize::MAX,
    ensures
        ({
            let count = sample_count(sequence_tokens as int, requested as int);
            r@ == Seq::new(
                count as nat,
                |i: int| sample_position(sequence_tokens as int, count, i) as usize,
            )
        }),
{
    let mut positions: Vec<usize> = Vec::new();
    if sequence_tokens < 2 || requested == 0 {
        assert(positions@ =~= Seq::new(0nat, |i: int| sample_position(sequence_tokens as int, 0, i) as usize));
        return positions;
    }
    let span: usize = sequence_tokens - 2;
    let count: usize = min_usize(requested, span + 1);
    let mut index: usize = 0;
    while index < count
        invariant
            index <= count,
            sequence_tokens >= 2,
            span == sequence_tokens - 2,
            1 <= count <= span + 1,
            span * (count - 1) <= usize::MAX,
            positions@ == Seq::new(
                index as nat,
                |i: int| sample_position(sequence_tokens as int, count as int, i) as usize,
            ),
        decreases count - index,
    {
        let position: usize = if count == 1 {
            sequence_tokens - 1
        } else {
            proof {
                if index < count - 1 {
                    lemma_positions_increase(span as int, count - 1, index as int);
                } else {
                    lemma_positions_increase(span as int, count - 1, index - 1);
                }
            }
            1 + span * index / (count - 1)
        };
        assert(position == sample_position(sequence_tokens as int, count as int, index as int));
        proof {
            if index > 0 {
                lemma_positions_increase(span as int, count - 1, index - 1);
            }
        }
        if index == 0 || positions[index - 1] != position {
            positions.push(position);
        }
        index = index + 1;
        assert(positions@ =~= Seq::new(
            index as nat,
            |i: int| sample_position(sequence_tokens as int, count as int, i) as usize,
        ));
    }
    positions
}

/// Sampled positions increase, start behind the first token, and end at the last token.
pub proof fn sample_positions_are_spread(sequence_tokens: int, requested: int, index: int)
    requires
        requested >= 0,
        0 <= index < sample_count(sequence_tokens, requested),
    ensures
        ({
            let count = sample_count(sequence_tokens, requested);
            let position = sample_position(sequence_tokens, count, index);
            &&& 1 <= position < sequence_tokens
            &&& index + 1 < count ==> position < sample_position(sequence_tokens, count, index + 1)
            &&& index + 1 == count ==> position == sequence_tokens - 1
            &&& index == 0 && count > 1 ==> position == 1
        }),
{
    let count = sample_count(sequence_tokens, requested);
    if count > 1 {
        let span = sequence_tokens - 2;
        let steps = count - 1;
        if index < steps {
            lemma_positions_increase(span, steps, index);
        } else {
            lemma_positions_increase(span, steps, index - 1);
        }
        assert(span * steps / steps == span) by (nonlinear_arith)
            requires
                steps > 0,
                span >= 0,
        ;
        assert(span * 0 / steps == 0) by (nonlinear_arith)
            requires
                steps > 0,
        ;
    }
}

} // verus!
