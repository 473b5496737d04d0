//! What is read of and written into text, in characters.
use vstd::prelude::*;

use crate::cache::{reusable_limit, KvPageSize};
use crate::order::{rank_descending, text_precedes};
use crate::scheduler::{RequestSlotId, RequestSlots, RequestState, ScheduledWork};
use crate::text::{
    contains_text, decimal, decimal_text, ends_with_text, is_space, lowered_eq, setting_allows,
    setting_asks, text_eq, trim, without_leading_space, without_trailing_space,
};

verus! {

/// Texts are equal if they hold the same characters in the same order.
pub proof fn equal_texts_hold_equal_characters(left: &str, right: &str, r: bool)
    requires
        call_ensures(text_eq, (left, right), r),
    ensures
        r <==> left@.len() == right@.len() && forall|i: int|
            0 <= i < left@.len() ==> #[trigger] left@[i] == right@[i],
{
    if left@.len() == right@.len() && forall|i: int|
        0 <= i < left@.len() ==> #[trigger] left@[i] == right@[i] {
        assert(left@ =~= right@);
    }
}

/// A number is written by the digit of its ones behind the number of its tens, and a number
/// without tens by its digit alone.
pub proof fn numbers_are_written_by_tens(n: u64, tens: u64, whole: String, front: String)
    requires
        call_ensures(decimal, (n,), whole),
        call_ensures(decimal, (tens,), front),
        tens == n / 10,
    ensures
        whole@.len() > 0,
        whole@.last() as int == '0' as int + n % 10,
        n < 10 ==> whole@.len() == 1,
        n >= 10 ==> whole@.drop_last() == front@,
{
    if n >= 10 {
        assert(decimal_text(n as nat).drop_last() =~= decimal_text((n / 10) as nat));
    }
}

/// A text contains a part if it is that part with something in front and something behind.
pub proof fn parts_stand_somewhere(text: &str, part: &str, r: bool, front: Seq<char>, back: Seq<char>)
    requires
        call_ensures(contains_text, (text, part), r),
    ensures
        text@ == front + part@ + back ==> r,
        r ==> exists|at: int|
            0 <= at <= text@.len() - part@.len() && #[trigger] text@.subrange(at, at + part@.len())
                == part@,
{
    if text@ == front + part@ + back {
        assert(text@.subrange(front.len() as int, (front.len() + part@.len()) as int) =~= part@);
        assert(crate::text::occurs_at(text@, part@, front.len() as int));
    }
    if r {
        let at = choose|at: int| #[trigger] crate::text::occurs_at(text@, part@, at);
        assert(text@.subrange(at, at + part@.len()) == part@);
    }
}

/// A text ends with a part if it is that part with something in front.
pub proof fn ends_stand_last(text: &str, part: &str, r: bool, front: Seq<char>)
    requires
        call_ensures(ends_with_text, (text, part), r),
    ensures
        text@ == front + part@ ==> r,
        r ==> part@.len() <= text@.len() && text@.skip(text@.len() - part@.len()) == part@,
{
    if text@ == front + part@ {
        assert(text@.subrange(text@.len() - part@.len(), text@.len() as int) =~= part@);
    }
    if r {
        assert(text@.skip(text@.len() - part@.len()) =~= text@.subrange(
            text@.len() - part@.len(),
            text@.len() as int,
        ));
    }
}

proof fn lemma_leading(text: Seq<char>)
    ensures
        ({
            let rest = without_leading_space(text);
            let cut = text.len() - rest.len();
            &&& 0 <= cut
            &&& rest == text.skip(cut)
            &&& rest.len() > 0 ==> !is_space(rest[0])
            &&& forall|i: int| 0 <= i < cut ==> is_space(#[trigger] text[i])
        }),
    decreases text.len(),
{
    if text.len() > 0 && is_space(text[0]) {
        lemma_leading(text.skip(1));
        let rest = without_leading_space(text);
        let cut = text.len() - rest.len();
        assert(rest =~= text.skip(cut));
        assert forall|i: int| 0 <= i < cut implies is_space(#[trigger] text[i]) by {
            if i > 0 {
                assert(text.skip(1)[i - 1] == text[i]);
            }
        }
    } else {
        assert(text.skip(0) =~= text);
    }
}

proof fn lemma_trailing(text: Seq<char>)
    ensures
        ({
            let rest = without_trailing_space(text);
            &&& rest.len() <= text.len()
            &&& rest == text.take(rest.len() as int)
            &&& rest.len() > 0 ==> !is_space(rest.last())
            &&& forall|i: int| rest.len() <= i < text.len() ==> is_space(#[trigger] text[i])
        }),
    decreases text.len(),
{
    if text.len() > 0 && is_space(text.last()) {
        lemma_trailing(text.drop_last());
        let rest = without_trailing_space(text);
        assert(rest =~= text.take(rest.len() as int));
        assert forall|i: int| rest.len() <= i < text.len() implies is_space(#[trigger] text[i]) by {
            if i < text.len() - 1 {
                assert(text.drop_last()[i] == text[i]);
            }
        }
    } else {
        assert(text.take(text.len() as int) =~= text);
    }
}

/// Blank, tab and line ends are white space, and letters and digits are none.
pub proof fn blanks_are_space(c: char)
    ensures
        c == ' ' || c == '\t' || c == '\n' || c == '\r' ==> is_space(c),
        '0' <= c <= '9' || 'a' <= c <= 'z' || 'A' <= c <= 'Z' || c == '-' || c == '_' ==> !is_space(c),
        is_space(c) && (c as int) < 128 ==> c == ' ' || 9 <= (c as int) <= 13,
{
}

/// Trimming takes white space away at both ends, all of it, and nothing else.
pub proof fn trimming_takes_space_alone(text: &str, r: &str) -> (cut: int)
    requires
        call_ensures(trim, (text,), r),
    ensures
        0 <= cut <= text@.len() - r@.len(),
        r@ == text@.subrange(cut, cut + r@.len()),
        forall|i: int| 0 <= i < cut ==> is_space(#[trigger] text@[i]),
        forall|i: int| cut + r@.len() <= i < text@.len() ==> is_space(#[trigger] text@[i]),
        r@.len() > 0 ==> !is_space(r@[0]) && !is_space(r@.last()),
{
    let rest = without_leading_space(text@);
    lemma_leading(text@);
    lemma_trailing(rest);
    let cut = text@.len() - rest.len();
    assert(r@ =~= text@.subrange(cut, cut + r@.len()));
    assert forall|i: int| cut + r@.len() <= i < text@.len() implies is_space(#[trigger] text@[i]) by {
        assert(rest[i - cut] == text@[i]);
    }
    if r@.len() > 0 {
        assert(r@[0] == rest[0]);
    }
    cut
}

/// A text reads as a small word if it has its letters, of whichever size.
pub proof fn capitals_read_as_small(text: &str, word: &str, r: bool)
    requires
        call_ensures(lowered_eq, (text, word), r),
    ensures
        r <==> text@.len() == word@.len() && forall|i: int|
            0 <= i < text@.len() ==> {
                if 'A' <= #[trigger] text@[i] <= 'Z' {
                    word@[i] as int == text@[i] as int + 32
                } else {
                    word@[i] == text@[i]
                }
            },
{
    let lowered = crate::text::lowered(text@);
    if r {
        assert forall|i: int| 0 <= i < text@.len() implies {
            if 'A' <= #[trigger] text@[i] <= 'Z' {
                word@[i] as int == text@[i] as int + 32
            } else {
                word@[i] == text@[i]
            }
        } by {
            assert(lowered[i] == word@[i]);
        }
    } else if text@.len() == word@.len() {
        assert(lowered =~= word@ || exists|i: int|
            0 <= i < text@.len() && lowered[i] != #[trigger] word@[i]);
        let i = choose|i: int| 0 <= i < text@.len() && lowered[i] != #[trigger] word@[i];
        assert(lowered[i] == crate::text::lower_char(text@[i]));
    }
}

/// A setting that is not there allows and does not ask; one that is there allows unless it
/// says no in one of four words, and asks only if it says yes in one of four.
pub proof fn settings_are_read_as_words(
    setting: Option<&str>,
    allows: bool,
    asks: bool,
    word: Seq<char>,
)
    requires
        call_ensures(setting_allows, (setting,), allows),
        call_ensures(setting_asks, (setting,), asks),
        setting is Some ==> word == crate::text::lowered(crate::text::trimmed(setting->0@)),
    ensures
        setting is None ==> allows && !asks,
        setting is Some ==> (!allows <==> word == "0"@ || word == "false"@ || word == "off"@
            || word == "no"@),
        setting is Some ==> (asks <==> word == "1"@ || word == "true"@ || word == "on"@ || word
            == "yes"@),
{
}

/// Positions are ranked each once, those with larger keys first and equal ones in their order.
pub proof fn ranks_fall(keys: &Vec<i64>, r: Vec<usize>, i: int, j: int, position: int) -> (at: int)
    requires
        call_ensures(rank_descending, (keys,), r),
        0 <= i < j < r@.len(),
        0 <= position < keys@.len(),
    ensures
        r@.len() == keys@.len(),
        r@[i] < keys@.len(),
        keys@[r@[i] as int] >= keys@[r@[j] as int],
        keys@[r@[i] as int] == keys@[r@[j] as int] ==> r@[i] < r@[j],
        0 <= at < r@.len(),
        r@[at] == position,
{
    assert(r@[i] < keys@.len() && r@[j] < keys@.len());
    assert(crate::order::ranks_before(keys@, r@[i] as int, r@[j] as int));
    assert(crate::order::ranks_somewhere(r@, position));
    choose|at: int| 0 <= at < r@.len() && #[trigger] r@[at] == position
}

proof fn lemma_first_difference(a: Seq<char>, b: Seq<char>, k: int)
    requires
        0 <= k <= a.len(),
        k <= b.len(),
        a.take(k) == b.take(k),
    ensures
        crate::order::text_before(a, b) == crate::order::text_before(a.skip(k), b.skip(k)),
    decreases k,
{
    if k == 0 {
        assert(a.skip(0) =~= a);
        assert(b.skip(0) =~= b);
    } else {
        assert(a[0] == a.take(k)[0]);
        assert(b[0] == b.take(k)[0]);
        assert(a.skip(1).take(k - 1) =~= a.take(k).skip(1));
        assert(b.skip(1).take(k - 1) =~= b.take(k).skip(1));
        lemma_first_difference(a.skip(1), b.skip(1), k - 1);
        assert(a.skip(1).skip(k - 1) =~= a.skip(k));
        assert(b.skip(1).skip(k - 1) =~= b.skip(k));
    }
}

/// Of two texts, the first place at which they differ decides; a text that only goes on comes
/// later.
pub proof fn the_first_difference_decides(a: &str, b: &str, r: bool, k: int)
    requires
        call_ensures(text_precedes, (a, b), r),
        0 <= k <= a@.len(),
        k <= b@.len(),
        a@.take(k) == b@.take(k),
        k < a@.len() && k < b@.len() ==> a@[k] != b@[k],
    ensures
        k < a@.len() && k < b@.len() ==> (r <==> a@[k] < b@[k]),
        k == a@.len() ==> (r <==> k < b@.len()),
        k == b@.len() ==> !r,
{
    lemma_first_difference(a@, b@, k);
    if k < a@.len() {
        assert(a@.skip(k)[0] == a@[k]);
    }
    if k < b@.len() {
        assert(b@.skip(k)[0] == b@[k]);
    }
}

/// A page holds sixteen tokens or thirty-two, as its name says.
pub proof fn pages_hold_what_they_say(page: KvPageSize, r: usize)
    requires
        call_ensures(KvPageSize::value, (page,), r),
    ensures
        r == 16 <==> page == KvPageSize::P16,
        r == 32 <==> page == KvPageSize::P32,
{
}

/// What a prompt may share is whole pages, leaves it at least one token to run, and at most
/// one page of them.
pub proof fn prompts_share_all_but_a_page(prompt: usize, page: usize, r: usize)
    requires
        call_ensures(reusable_limit, (prompt, page), r),
    ensures
        page > 0 && prompt > 0 ==> r as int % page as int == 0,
        page > 0 && prompt > 0 ==> r < prompt <= r + page,
        page == 0 || prompt == 0 ==> r == 0,
{
    if page > 0 && prompt > 0 {
        crate::cache::reusable_boundary_is_last_page_below_prompt(prompt as int, page as int, 0);
        vstd::arithmetic::div_mod::lemma_fundamental_div_mod(prompt - 1, page as int);
        assert(page as int * ((prompt - 1) / page as int) == (prompt - 1) / page as int
            * page as int) by (nonlinear_arith);
    }
}

/// What contracts say of a request is what its entry holds.
pub proof fn requests_show_their_fields(state: &RequestState, slots: &RequestSlots)
    ensures
        state@.phase == state.phase,
        state@.prompt_len == state.prompt_len,
        state@.prefilled == state.prefilled,
        state@.reserved_pages == state.reserved_pages,
        state@.tokens == state.tokens@,
        slots@.len() == slots.entries@.len(),
        forall|i: int| 0 <= i < slots@.len() ==> #[trigger] slots@[i] == slots.entries@[i]@,
{
}

/// Work is for the slot that it names.
pub proof fn work_is_for_its_slot(item: ScheduledWork, r: RequestSlotId)
    requires
        call_ensures(ScheduledWork::slot, (item,), r),
    ensures
        item is Decode ==> r == item->Decode_slot,
        item is Prefill ==> r == item->Prefill_slot,
{
}

} // verus!
