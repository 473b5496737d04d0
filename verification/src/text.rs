//! Text comparison and decimal rendering.
use vstd::prelude::*;
use vstd::string::{StrSliceExecFns, StringExecFns};

verus! {

/// Whether two texts hold the same characters.
pub fn text_eq(left: &str, right: &str) -> (r: bool)
    ensures
        r == (left@ == right@),
{
    left.to_owned() == right.to_owned()
}

/// The character of a decimal digit.
pub open spec fn digit_char(d: int) -> char {
    (48 + d) as char
}

/// `n` in decimal notation, without leading zeros.
pub open spec fn decimal_text(n: nat) -> Seq<char>
    decreases n,
{
    if n < 10 {
        seq![digit_char(n as int)]
    } else {
        decimal_text(n / 10).push(digit_char((n % 10) as int))
    }
}

fn digit_str(d: u64) -> (r: &'static str)
    requires
        d < 10,
    ensures
        r@ == seq![digit_char(d as int)],
{
    proof {
        reveal_strlit("0");
        reveal_strlit("1");
        reveal_strlit("2");
        reveal_strlit("3");
        reveal_strlit("4");
        reveal_strlit("5");
        reveal_strlit("6");
        reveal_strlit("7");
        reveal_strlit("8");
        reveal_strlit("9");
    }
    match d {
        0 => "0",
        1 => "1",
        2 => "2",
        3 => "3",
        4 => "4",
        5 => "5",
        6 => "6",
        7 => "7",
        8 => "8",
        _ => "9",
    }
}

/// Renders `n` in decimal notation.
pub fn decimal(n: u64) -> (r: String)
    ensures
        r@ == decimal_text(n as nat),
    decreases n,
{
    if n < 10 {
        digit_str(n).to_owned()
    } else {
        let mut text = decimal(n / 10);
        text.append(digit_str(n % 10));
        text
    }
}

/// `part` occurs in `text` at `position`.
pub open spec fn occurs_at(text: Seq<char>, part: Seq<char>, position: int) -> bool {
    &&& 0 <= position
    &&& position + part.len() <= text.len()
    &&& text.subrange(position, position + part.len()) == part
}

/// `part` occurs somewhere in `text`.
pub open spec fn occurs(text: Seq<char>, part: Seq<char>) -> bool {
    exists|position: int| #[trigger] occurs_at(text, part, position)
}

/// Whether `part` occurs somewhere in `text`.
pub fn contains_text(text: &str, part: &str) -> (r: bool)
    ensures
        r == occurs(text@, part@),
{
    let length: usize = text.unicode_len();
    let width: usize = part.unicode_len();
    if width > length {
        return false;
    }
    let mut position: usize = 0;
    while position <= length - width
        invariant
            length == text@.len(),
            width == part@.len(),
            width <= length,
            position <= length - width + 1,
            forall|p: int| 0 <= p < position ==> !#[trigger] occurs_at(text@, part@, p),
        decreases length - width + 1 - position,
    {
        if text_eq(text.substring_char(position, position + width), part) {
            assert(occurs_at(text@, part@, position as int));
            return true;
        }
        if position == length - width {
            return false;
        }
        position = position + 1;
    }
    false
}

/// Whether `text` ends with `part`.
pub fn ends_with_text(text: &str, part: &str) -> (r: bool)
    ensures
        r == occurs_at(text@, part@, text@.len() - part@.len()),
{
    let length: usize = text.unicode_len();
    let width: usize = part.unicode_len();
    width <= length && text_eq(text.substring_char(length - width, length), part)
}

/// The characters with the Unicode property `White_Space`.
pub open spec fn is_space(c: char) -> bool {
    let code = c as u32;
    ||| 0x09 <= code <= 0x0d
    ||| code == 0x20
    ||| code == 0x85
    ||| code == 0xa0
    ||| code == 0x1680
    ||| 0x2000 <= code <= 0x200a
    ||| code == 0x2028
    ||| code == 0x2029
    ||| code == 0x202f
    ||| code == 0x205f
    ||| code == 0x3000
}

fn space(c: char) -> (r: bool)
    ensures
        r == is_space(c),
{
    let code: u32 = c as u32;
    (0x09 <= code && code <= 0x0d) || code == 0x20 || code == 0x85 || code == 0xa0 || code == 0x1680
        || (0x2000 <= code && code <= 0x200a) || code == 0x2028 || code == 0x2029 || code == 0x202f
        || code == 0x205f || code == 0x3000
}

/// The text without white space at its start.
pub open spec fn without_leading_space(text: Seq<char>) -> Seq<char>
    decreases text.len(),
{
    if text.len() > 0 && is_space(text[0]) {
        without_leading_space(text.skip(1))
    } else {
        text
    }
}

/// The text without white space at its end.
pub open spec fn without_trailing_space(text: Seq<char>) -> Seq<char>
    decreases text.len(),
{
    if text.len() > 0 && is_space(text.last()) {
        without_trailing_space(text.drop_last())
    } else {
        text
    }
}

/// The text without white space at either end.
pub open spec fn trimmed(text: Seq<char>) -> Seq<char> {
    without_trailing_space(without_leading_space(text))
}

/// Drops white space at both ends.
pub fn trim(text: &str) -> (r: &str)
    ensures
        r@ == trimmed(text@),
{
    let length: usize = text.unicode_len();
    let mut start: usize = 0;
    assert(text@.skip(0) =~= text@);
    while start < length && space(text.get_char(start))
        invariant
            start <= length,
            length == text@.len(),
            without_leading_space(text@) == without_leading_space(text@.skip(start as int)),
        decreases length - start,
    {
        assert(text@.skip(start as int).skip(1) =~= text@.skip(start + 1));
        start = start + 1;
    }
    let ghost rest = text@.skip(start as int);
    assert(rest == without_leading_space(text@));
    let mut end: usize = length;
    assert(rest.take(end - start) =~= rest);
    while end > start && space(text.get_char(end - 1))
        invariant
            start <= end <= length,
            length == text@.len(),
            rest == text@.skip(start as int),
            without_trailing_space(rest) == without_trailing_space(rest.take(end - start)),
        decreases end,
    {
        assert(rest.take(end - start).drop_last() =~= rest.take(end - 1 - start));
        end = end - 1;
    }
    assert(text@.subrange(start as int, end as int) =~= rest.take(end - start));
    text.substring_char(start, end)
}

pub open spec fn lower_char(c: char) -> char {
    if 'A' <= c && c <= 'Z' {
        (c as u32 + 32) as char
    } else {
        c
    }
}

/// The text with ASCII capitals made small.
pub open spec fn lowered(text: Seq<char>) -> Seq<char> {
    Seq::new(text.len(), |i: int| lower_char(text[i]))
}

/// Whether `text` equals `word` up to the case of ASCII letters in `text`.
pub fn lowered_eq(text: &str, word: &str) -> (r: bool)
    ensures
        r == (lowered(text@) == word@),
{
    let length: usize = text.unicode_len();
    if length != word.unicode_len() {
        return false;
    }
    let mut index: usize = 0;
    while index < length
        invariant
            index <= length,
            length == text@.len(),
            length == word@.len(),
            forall|i: int| 0 <= i < index ==> lower_char(text@[i]) == #[trigger] word@[i],
        decreases length - index,
    {
        let c: u32 = text.get_char(index) as u32;
        let lower: u32 = if 65 <= c && c <= 90 {
            c + 32
        } else {
            c
        };
        let w: u32 = word.get_char(index) as u32;
        if lower != w {
            assert(lowered(text@)[index as int] != word@[index as int]);
            return false;
        }
        index = index + 1;
    }
    assert(lowered(text@) =~= word@);
    true
}

/// A setting that is on unless it says no.
pub open spec fn allowed_by(setting: Option<Seq<char>>) -> bool {
    match setting {
        Some(text) => {
            let word = lowered(trimmed(text));
            word != "0"@ && word != "false"@ && word != "off"@ && word != "no"@
        },
        None => true,
    }
}

/// A setting that is off unless it says yes.
pub open spec fn asked_by(setting: Option<Seq<char>>) -> bool {
    match setting {
        Some(text) => {
            let word = lowered(trimmed(text));
            word == "1"@ || word == "true"@ || word == "on"@ || word == "yes"@
        },
        None => false,
    }
}

/// Reads a setting that is on unless it says no.
pub fn setting_allows(setting: Option<&str>) -> (r: bool)
    ensures
        r == allowed_by(
            match setting {
                Some(text) => Some(text@),
                None => None,
            },
        ),
{
    match setting {
        Some(text) => {
            let word = trim(text);
            !lowered_eq(word, "0") && !lowered_eq(word, "false") && !lowered_eq(word, "off")
                && !lowered_eq(word, "no")
        },
        None => true,
    }
}

/// Reads a setting that is off unless it says yes.
pub fn setting_asks(setting: Option<&str>) -> (r: bool)
    ensures
        r == asked_by(
            match setting {
                Some(text) => Some(text@),
                None => None,
            },
        ),
{
    match setting {
        Some(text) => {
            let word = trim(text);
            lowered_eq(word, "1") || lowered_eq(word, "true") || lowered_eq(word, "on")
                || lowered_eq(word, "yes")
        },
        None => false,
    }
}

/// Trimming twice is trimming once.
pub proof fn trim_is_idempotent(text: Seq<char>)
    ensures
        trimmed(trimmed(text)) == trimmed(text),
{
    lemma_leading(text);
    let rest = without_leading_space(text);
    lemma_trailing(rest);
    let core = trimmed(text);
    assert(without_leading_space(core) == core);
    assert(without_trailing_space(core) == core);
}

proof fn lemma_leading(text: Seq<char>)
    ensures
        without_leading_space(text).len() > 0 ==> !is_space(without_leading_space(text)[0]),
    decreases text.len(),
{
    if text.len() > 0 && is_space(text[0]) {
        lemma_leading(text.skip(1));
    }
}

proof fn lemma_trailing(text: Seq<char>)
    ensures
        without_trailing_space(text).len() > 0 ==> !is_space(without_trailing_space(text).last())
            && without_trailing_space(text)[0] == text[0],
    decreases text.len(),
{
    if text.len() > 0 && is_space(text.last()) {
        lemma_trailing(text.drop_last());
    }
}

} // verus!
