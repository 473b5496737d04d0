//! Where tokens live: no request ever writes into a page that another one reads.
use vstd::prelude::*;

use crate::model::batch_cache::{physical_slot, tokens_entered, Geometry, PreparedView, SlotView};
use crate::num::ceil_div;

verus! {

/// The last page of the slot still has room for tokens.
pub open spec fn has_open_page(slot: SlotView, page_size: int) -> bool {
    slot.allocated as int % page_size != 0
}

/// The index of the page that the next token goes to.
pub open spec fn next_page(slot: SlotView, page_size: int) -> int {
    slot.allocated as int / page_size
}

/// Page `at` of slot `s` stands nowhere else in the tables.
pub open spec fn is_private(slots: Seq<SlotView>, s: int, at: int) -> bool {
    forall|t: int, j: int|
        0 <= t < slots.len() && 0 <= j < slots[t].pages.len() && #[trigger] slots[t].pages[j]
            == slots[s].pages[at] ==> t == s && j == at
}

/// No page that has room for tokens is shared.
pub open spec fn open_pages_are_private(slots: Seq<SlotView>, page_size: int) -> bool {
    forall|s: int|
        0 <= s < slots.len() && has_open_page(#[trigger] slots[s], page_size) ==> is_private(
            slots,
            s,
            next_page(slots[s], page_size),
        )
}

/// The grants from `from` on stand in no table.
pub open spec fn are_fresh(grants: Seq<u32>, from: int, slots: Seq<SlotView>) -> bool {
    forall|g: int, t: int, j: int|
        from <= g < grants.len() && 0 <= t < slots.len() && 0 <= j < slots[t].pages.len()
            ==> #[trigger] grants[g] != #[trigger] slots[t].pages[j]
}

/// Every table holds exactly the pages of its tokens.
pub open spec fn tables_match(slots: Seq<SlotView>, page_size: int) -> bool {
    forall|s: int|
        0 <= s < slots.len() ==> (#[trigger] slots[s]).pages.len() == ceil_div(
            slots[s].allocated as int,
            page_size,
        )
}

/// Row `i` of a batch was entered: its request has the token, at the row's place.
pub open spec fn is_placed(
    view: PreparedView,
    positions: Seq<u32>,
    slots: Seq<u32>,
    page_size: int,
    i: int,
) -> bool {
    &&& slots[i] < view.slots.len()
    &&& positions[i] < view.slots[slots[i] as int].allocated
    &&& view.physical[i] == physical_slot(
        view.slots[slots[i] as int].pages,
        positions[i] as int,
        page_size,
    )
}

/// What holds while the tokens of a batch are entered.
pub open spec fn is_placing(
    view: PreparedView,
    positions: Seq<u32>,
    slots: Seq<u32>,
    grants: Seq<u32>,
    page_size: int,
    rows: int,
) -> bool {
    &&& tables_match(view.slots, page_size)
    &&& open_pages_are_private(view.slots, page_size)
    &&& are_fresh(grants, view.used as int, view.slots)
    &&& view.physical.len() == rows
    &&& forall|i: int|
        0 <= i < rows ==> #[trigger] is_placed(view, positions, slots, page_size, i)
    &&& forall|i: int, j: int|
        0 <= i < j < rows ==> #[trigger] view.physical[i] != #[trigger] view.physical[j]
}

proof fn lemma_page_arithmetic(position: int, page_size: int)
    requires
        position >= 0,
        page_size == 16 || page_size == 32,
    ensures
        0 <= position / page_size,
        0 <= position % page_size < page_size,
        position == position / page_size * page_size + position % page_size,
        position % page_size == 0 ==> ceil_div(position, page_size) == position / page_size,
        position % page_size != 0 ==> ceil_div(position, page_size) == position / page_size + 1,
        ceil_div(position + 1, page_size) == position / page_size + 1,
        (position + 1) % page_size != 0 ==> (position + 1) / page_size == position / page_size,
{
    if page_size == 16 {
    } else {
    }
}

/// An earlier token of a slot lies in a page of its table.
proof fn lemma_earlier_page(position: int, allocated: int, page_size: int)
    requires
        0 <= position < allocated,
        page_size == 16 || page_size == 32,
    ensures
        0 <= position / page_size < ceil_div(allocated, page_size),
{
    if page_size == 16 {
    } else {
    }
}

proof fn lemma_places_differ(page: int, offset: int, other: int, shift: int, page_size: int)
    requires
        page_size == 16 || page_size == 32,
        0 <= offset < page_size,
        0 <= shift < page_size,
        page * page_size + offset == other * page_size + shift,
    ensures
        page == other,
        offset == shift,
{
    if page_size == 16 {
    } else {
    }
}

proof fn lemma_next_token_is_placed(
    before: PreparedView,
    positions: Seq<u32>,
    slots: Seq<u32>,
    grants: Seq<u32>,
    geometry: Geometry,
    upto: int,
)
    requires
        geometry.page_size == 16 || geometry.page_size == 32,
        0 <= upto < positions.len(),
        upto < slots.len(),
        grants.no_duplicates(),
        before.error is None,
        is_placing(
            tokens_entered(before, positions, slots, grants, geometry, upto),
            positions,
            slots,
            grants,
            geometry.page_size,
            upto,
        ),
        tokens_entered(before, positions, slots, grants, geometry, upto).error is None,
        tokens_entered(before, positions, slots, grants, geometry, upto + 1).error is None,
    ensures
        is_placing(
            tokens_entered(before, positions, slots, grants, geometry, upto + 1),
            positions,
            slots,
            grants,
            geometry.page_size,
            upto + 1,
        ),
{
    let size = geometry.page_size;
    let view = tokens_entered(before, positions, slots, grants, geometry, upto);
    let after = tokens_entered(before, positions, slots, grants, geometry, upto + 1);
    let s = slots[upto] as int;
    let position = positions[upto] as int;
    let own = view.slots[s];
    let at = position / size;
    lemma_page_arithmetic(position, size);
    assert(own.pages.len() == ceil_div(own.allocated as int, size));
    let pages = after.slots[s].pages;
    let page = pages[at];
    assert(0 <= at < pages.len());
    assert(after.slots[s].allocated == position + 1);
    assert(pages.len() == ceil_div(position + 1, size));
    assert forall|t: int| 0 <= t < after.slots.len() && t != s implies after.slots[t]
        == view.slots[t] by {}
    assert(tables_match(after.slots, size)) by {
        assert forall|t: int| 0 <= t < after.slots.len() implies (#[trigger] after.slots[t]).pages.len()
            == ceil_div(after.slots[t].allocated as int, size) by {
            if t != s {
                assert(after.slots[t] == view.slots[t]);
            }
        }
    }
    if position % size == 0 {
        assert(at == own.pages.len());
        assert(page == grants[view.used as int]);
    } else {
        assert(has_open_page(own, size));
        assert(is_private(view.slots, s, next_page(own, size)));
    }
    assert(is_private(after.slots, s, at)) by {
        assert forall|t: int, j: int|
            0 <= t < after.slots.len() && 0 <= j < after.slots[t].pages.len()
                && #[trigger] after.slots[t].pages[j] == page implies t == s && j == at by {
            if t == s && j == own.pages.len() {
            } else {
                assert(after.slots[t].pages[j] == view.slots[t].pages[j]);
                if position % size == 0 {
                    assert(grants[view.used as int] != view.slots[t].pages[j]);
                }
            }
        }
    }
    assert(open_pages_are_private(after.slots, size)) by {
        assert forall|t: int|
            0 <= t < after.slots.len() && has_open_page(
                #[trigger] after.slots[t],
                size,
            ) implies is_private(after.slots, t, next_page(after.slots[t], size)) by {
            if t == s {
                assert(next_page(after.slots[s], size) == at);
            } else {
                let place = next_page(view.slots[t], size);
                assert(after.slots[t] == view.slots[t]);
                assert(is_private(view.slots, t, place));
                lemma_page_arithmetic(view.slots[t].allocated as int, size);
                assert(0 <= place < view.slots[t].pages.len());
                assert forall|u: int, j: int|
                    0 <= u < after.slots.len() && 0 <= j < after.slots[u].pages.len()
                        && #[trigger] after.slots[u].pages[j]
                        == after.slots[t].pages[place] implies u == t && j == place by {
                    if u == s && j == own.pages.len() {
                        assert(grants[view.used as int] != view.slots[t].pages[place]);
                    } else {
                        assert(after.slots[u].pages[j] == view.slots[u].pages[j]);
                    }
                }
            }
        }
    }
    assert(are_fresh(grants, after.used as int, after.slots)) by {
        assert forall|g: int, t: int, j: int|
            after.used <= g < grants.len() && 0 <= t < after.slots.len() && 0 <= j
                < after.slots[t].pages.len() implies #[trigger] grants[g]
            != #[trigger] after.slots[t].pages[j] by {
            if t == s && j == own.pages.len() {
                assert(grants[view.used as int] != grants[g]);
            } else {
                assert(after.slots[t].pages[j] == view.slots[t].pages[j]);
            }
        }
    }
    assert(page * size + position % size <= i64::MAX) by {
        if size == 16 {
        } else {
        }
    }
    assert(is_placed(after, positions, slots, size, upto));
    assert forall|i: int| 0 <= i < upto implies #[trigger] is_placed(
        after,
        positions,
        slots,
        size,
        i,
    ) && after.physical[i] != after.physical[upto] by {
        assert(is_placed(view, positions, slots, size, i));
        let t = slots[i] as int;
        let earlier = positions[i] as int;
        lemma_earlier_page(earlier, view.slots[t].allocated as int, size);
        lemma_page_arithmetic(earlier, size);
        let held = view.slots[t].pages[earlier / size];
        assert(after.slots[t].pages[earlier / size] == held);
        if after.physical[i] == after.physical[upto] {
            lemma_places_differ(
                held as int,
                earlier % size,
                page as int,
                position % size,
                size,
            );
        }
    }
    assert forall|i: int, j: int| 0 <= i < j < upto + 1 implies #[trigger] after.physical[i]
        != #[trigger] after.physical[j] by {
        assert(is_placed(after, positions, slots, size, i));
    }
}

/// No two tokens of an accepted batch share a place, as long as pages with room for tokens
/// are not shared and the granted pages are new; and pages with room stay unshared.
pub proof fn tokens_never_share_a_place(
    before: PreparedView,
    positions: Seq<u32>,
    slots: Seq<u32>,
    grants: Seq<u32>,
    geometry: Geometry,
    upto: int,
)
    requires
        geometry.page_size == 16 || geometry.page_size == 32,
        0 <= upto <= positions.len(),
        upto <= slots.len(),
        grants.no_duplicates(),
        before.error is None,
        before.used == 0,
        before.physical.len() == 0,
        tables_match(before.slots, geometry.page_size),
        open_pages_are_private(before.slots, geometry.page_size),
        are_fresh(grants, 0, before.slots),
        tokens_entered(before, positions, slots, grants, geometry, upto).error is None,
    ensures
        ({
            let after = tokens_entered(before, positions, slots, grants, geometry, upto);
            &&& after.physical.no_duplicates()
            &&& open_pages_are_private(after.slots, geometry.page_size)
            &&& are_fresh(grants, after.used as int, after.slots)
        }),
{
    lemma_batch_is_placed(before, positions, slots, grants, geometry, upto);
}

proof fn lemma_batch_is_placed(
    before: PreparedView,
    positions: Seq<u32>,
    slots: Seq<u32>,
    grants: Seq<u32>,
    geometry: Geometry,
    upto: int,
)
    requires
        geometry.page_size == 16 || geometry.page_size == 32,
        0 <= upto <= positions.len(),
        upto <= slots.len(),
        grants.no_duplicates(),
        before.error is None,
        before.used == 0,
        before.physical.len() == 0,
        tables_match(before.slots, geometry.page_size),
        open_pages_are_private(before.slots, geometry.page_size),
        are_fresh(grants, 0, before.slots),
        tokens_entered(before, positions, slots, grants, geometry, upto).error is None,
    ensures
        is_placing(
            tokens_entered(before, positions, slots, grants, geometry, upto),
            positions,
            slots,
            grants,
            geometry.page_size,
            upto,
        ),
    decreases upto,
{
    if upto > 0 {
        lemma_batch_is_placed(before, positions, slots, grants, geometry, upto - 1);
        lemma_next_token_is_placed(before, positions, slots, grants, geometry, upto - 1);
    }
}

/// Published pages are full: none of them is a page that any request still writes to.
pub proof fn published_pages_are_full(
    slots: Seq<SlotView>,
    page_size: int,
    s: int,
    prefix_tokens: int,
    at: int,
    t: int,
)
    requires
        page_size == 16 || page_size == 32,
        tables_match(slots, page_size),
        open_pages_are_private(slots, page_size),
        0 <= s < slots.len(),
        0 <= prefix_tokens <= slots[s].allocated,
        0 <= at < prefix_tokens / page_size,
        0 <= t < slots.len(),
        has_open_page(slots[t], page_size),
    ensures
        slots[s].pages.take(prefix_tokens / page_size)[at] != slots[t].pages[next_page(
            slots[t],
            page_size,
        )],
{
    lemma_page_arithmetic(slots[s].allocated as int, page_size);
    lemma_page_arithmetic(slots[t].allocated as int, page_size);
    assert(prefix_tokens / page_size <= slots[s].allocated as int / page_size) by {
        if page_size == 16 {
        } else {
        }
    }
    assert(is_private(slots, t, next_page(slots[t], page_size)));
    assert(slots[s].pages[at] == slots[s].pages.take(prefix_tokens / page_size)[at]);
}

/// Sharing full pages with a slot, as a first prefix or as a longer one, leaves no page with
/// room for tokens shared.
pub proof fn sharing_keeps_open_pages_private(
    slots: Seq<SlotView>,
    page_size: int,
    s: int,
    prefix_tokens: nat,
    reserved: nat,
    pages: Seq<u32>,
)
    requires
        page_size == 16 || page_size == 32,
        tables_match(slots, page_size),
        open_pages_are_private(slots, page_size),
        0 <= s < slots.len(),
        prefix_tokens as int % page_size == 0,
        forall|t: int, j: int|
            0 <= t < slots.len() && has_open_page(slots[t], page_size) && 0 <= j < pages.len()
                ==> #[trigger] pages[j] != (#[trigger] slots[t]).pages[next_page(
                slots[t],
                page_size,
            )],
    ensures
        open_pages_are_private(
            slots.update(s, SlotView { allocated: prefix_tokens, reserved, pages }),
            page_size,
        ),
{
    let after = slots.update(s, SlotView { allocated: prefix_tokens, reserved, pages });
    assert forall|t: int|
        0 <= t < after.len() && has_open_page(#[trigger] after[t], page_size) implies is_private(
        after,
        t,
        next_page(after[t], page_size),
    ) by {
        assert(t != s);
        assert(after[t] == slots[t]);
        let place = next_page(slots[t], page_size);
        assert(is_private(slots, t, place));
        assert forall|u: int, j: int|
            0 <= u < after.len() && 0 <= j < after[u].pages.len() && #[trigger] after[u].pages[j]
                == after[t].pages[place] implies u == t && j == place by {
            if u != s {
                assert(after[u].pages[j] == slots[u].pages[j]);
            }
        }
    }
}

/// Releasing a slot leaves no page with room for tokens shared.
pub proof fn releasing_keeps_open_pages_private(slots: Seq<SlotView>, page_size: int, s: int)
    requires
        page_size == 16 || page_size == 32,
        tables_match(slots, page_size),
        open_pages_are_private(slots, page_size),
        0 <= s < slots.len(),
    ensures
        open_pages_are_private(slots.update(s, SlotView::vacant()), page_size),
{
    sharing_keeps_open_pages_private(slots, page_size, s, 0, 0, Seq::empty());
}

} // verus!
