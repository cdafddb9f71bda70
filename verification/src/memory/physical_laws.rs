//! What holds of the page allocator.

use vstd::prelude::*;
use vstd::multiset::Multiset;
use crate::memory::map::{
    all_page_aligned, all_valid, buffer_size, first_fit, map_of, page_count, strictly_ordered,
    valid_only,
};
use crate::memory::map_laws::{
    lemma_carved, lemma_map_of, lemma_sorted_apart, share_no_byte, within_one_of,
};
use crate::memory::physical::{
    buffer_of, fresh_on, lemma_page_addresses_len, page_addresses, pages_of, served_areas, serves,
    FreeList,
};
use crate::memory::types::PhysicalAddr;
use crate::memory::{MemoryRange, PAGE_SIZE};

verus! {

proof fn lemma_wrap(x: int, c: int)
    requires
        0 <= x < 2 * c,
    ensures
        x % c == if x < c {
            x
        } else {
            x - c
        },
{
    if x < c {
        vstd::arithmetic::div_mod::lemma_small_mod(x as nat, c as nat);
    } else {
        vstd::arithmetic::div_mod::lemma_small_mod((x - c) as nat, c as nat);
        vstd::arithmetic::div_mod::lemma_mod_add_multiples_vanish(x - c, c);
    }
}

/// A fresh allocator holds the pages it was given, in their order.
pub proof fn lemma_fresh(pages: Seq<PhysicalAddr>, capacity: int)
    requires
        pages.len() < capacity,
    ensures
        FreeList::fresh(pages, capacity).wf(),
        FreeList::fresh(pages, capacity).capacity() == capacity,
        FreeList::fresh(pages, capacity).pages() == pages,
{
    let s = FreeList::fresh(pages, capacity);
    assert forall|i: int| 0 <= i < pages.len() implies s.pages()[i] == pages[i] by {
        lemma_wrap(i, capacity);
    }
    assert(s.pages() =~= pages);
}

/// A request hands out the first free page and leaves the others in their
/// order; where no page is free it hands out nothing and changes nothing.
pub proof fn lemma_request(s: FreeList)
    requires
        s.wf(),
    ensures
        s.after_request().wf(),
        s.after_request().slots == s.slots,
        0 <= s.count() < s.capacity(),
        s.count() == s.pages().len(),
        s.count() == 0 ==> s.requested() is None && s.after_request() == s,
        s.count() > 0 ==> s.requested() == Some(s.pages()[0]),
        s.count() > 0 ==> s.after_request().pages() == s.pages().drop_first(),
{
    let c = s.capacity();
    let t = s.after_request();
    if s.count() > 0 {
        lemma_wrap(s.first + 1, c);
        lemma_wrap(s.first, c);
        assert forall|i: int| 0 <= i < t.count() implies t.pages()[i] == s.pages()[i + 1] by {
            lemma_wrap(t.first + i, c);
            lemma_wrap(s.first + i + 1, c);
        }
        assert(t.pages() =~= s.pages().drop_first());
    }
}

/// A page that is given back becomes the last free page, as long as the
/// buffer keeps one slot unused.
pub proof fn lemma_free(s: FreeList, page: PhysicalAddr)
    requires
        s.wf(),
        s.count() + 1 < s.capacity(),
    ensures
        s.after_free(page).wf(),
        s.after_free(page).pages() == s.pages().push(page),
{
    let c = s.capacity();
    let t = s.after_free(page);
    lemma_wrap(s.last + 1, c);
    assert forall|i: int| 0 <= i < t.count() implies t.pages()[i] == s.pages().push(page)[i] by {
        lemma_wrap(s.first + i, c);
    }
    assert(t.pages() =~= s.pages().push(page));
}

/// `n` requests in a row hand out the first `n` free pages.
pub proof fn lemma_requests(s: FreeList, n: nat)
    requires
        s.wf(),
        n <= s.count(),
    ensures
        s.after_requests(n).wf(),
        s.after_requests(n).pages() == s.pages().skip(n as int),
        n < s.count() ==> s.after_requests(n).requested() == Some(s.pages()[n as int]),
        n == s.count() ==> s.after_requests(n).requested() is None,
    decreases n,
{
    lemma_request(s);
    if n == 0 {
        assert(s.pages().skip(0) =~= s.pages());
    } else {
        let t = s.after_request();
        lemma_request(t);
        lemma_requests(t, (n - 1) as nat);
        assert(t.pages().skip(n - 1) =~= s.pages().skip(n as int));
    }
    lemma_request(s.after_requests(n));
}

/// Giving back the page that was just handed out leaves the allocator as full
/// as it was: the same pages are free, and the one that went round has become
/// the last.
pub proof fn lemma_request_then_free(s: FreeList)
    requires
        s.wf(),
        s.count() > 0,
    ensures
        s.requested() is Some,
        ({
            let t = s.after_request().after_free(s.requested()->0);
            &&& t.wf()
            &&& t.count() == s.count()
            &&& t.pages() == s.pages().drop_first().push(s.pages()[0])
            &&& t.pages().to_multiset() == s.pages().to_multiset()
        }),
{
    broadcast use vstd::seq_lib::group_to_multiset_ensures;

    lemma_request(s);
    let page = s.requested()->0;
    let u = s.after_request();
    lemma_request(u);
    lemma_free(u, page);
    let t = u.after_free(page);
    lemma_request(t);
    assert(s.pages().drop_first() =~= s.pages().remove(0));
    assert(t.pages().to_multiset() =~= s.pages().to_multiset());
}

/// Whether the addresses of `pages` ascend.
pub open spec fn ascending(pages: Seq<PhysicalAddr>) -> bool {
    forall|i: int, j: int| 0 <= i < j < pages.len() ==> (#[trigger] pages[i]).0 < (#[trigger] pages[j]).0
}

/// Whether the whole page at `page` lies in one of the ranges of `s`.
pub open spec fn page_within(page: PhysicalAddr, s: Seq<MemoryRange>) -> bool {
    exists|j: int|
        0 <= j < s.len() && (#[trigger] s[j]).contains(page.0 as int) && s[j].contains(
            page.0 + PAGE_SIZE - 1,
        )
}

/// Whether a byte of the page at `page` lies in one of the ranges of `s`.
pub open spec fn page_touches(page: PhysicalAddr, s: Seq<MemoryRange>) -> bool {
    exists|j: int|
        0 <= j < s.len() && (#[trigger] s[j]).first() <= page.0 + PAGE_SIZE - 1 && page.0
            <= s[j].last()
}

proof fn lemma_pages_of(range: MemoryRange, k: int)
    requires
        range.valid(),
        0 <= k < pages_of(range).len(),
    ensures
        pages_of(range)[k].0 == range.address + k * PAGE_SIZE,
        range.contains(pages_of(range)[k].0 as int),
        range.contains(pages_of(range)[k].0 + PAGE_SIZE - 1),
        range.address as int % (PAGE_SIZE as int) == 0 ==> pages_of(range)[k].0 as int % (
        PAGE_SIZE as int) == 0,
{
    let n = range.size as int / PAGE_SIZE as int;
    assert(k * PAGE_SIZE + PAGE_SIZE <= n * PAGE_SIZE) by (nonlinear_arith)
        requires
            0 <= k < n,
    ;
    assert(0 <= k * PAGE_SIZE) by (nonlinear_arith)
        requires
            0 <= k,
    ;
    if range.address as int % (PAGE_SIZE as int) == 0 {
        vstd::arithmetic::div_mod::lemma_mod_multiples_vanish(k, range.address as int, PAGE_SIZE as int);
        assert(k * PAGE_SIZE == PAGE_SIZE * k) by (nonlinear_arith);
    }
}

/// The pages of valid, disjoint ranges in ascending order: their addresses
/// ascend, so no page comes twice; each page lies in one of the ranges; and
/// where the ranges are page-aligned, so is each page.
pub proof fn lemma_page_addresses(s: Seq<MemoryRange>)
    requires
        all_valid(s),
        strictly_ordered(s),
    ensures
        ascending(page_addresses(s)),
        forall|k: int|
            0 <= k < page_addresses(s).len() ==> page_within(#[trigger] page_addresses(s)[k], s),
        all_page_aligned(s) ==> forall|k: int|
            0 <= k < page_addresses(s).len() ==> (#[trigger] page_addresses(s)[k]).0 as int % (
            PAGE_SIZE as int) == 0,
    decreases s.len(),
{
    let out = page_addresses(s);
    if s.len() > 0 {
        let front = s.drop_last();
        let x = s.last();
        let head = page_addresses(front);
        let tail = pages_of(x);
        assert forall|i: int| 0 <= i < front.len() implies (#[trigger] front[i]).valid() by {
            assert(s[i].valid());
        }
        assert forall|i: int, j: int| 0 <= i < j < front.len() implies (#[trigger] front[i]).last() < (
        #[trigger] front[j]).first() by {
            assert(s[i].last() < s[j].first());
        }
        assert(x.valid());
        lemma_page_addresses(front);
        assert(out == head + tail);
        assert forall|k: int| 0 <= k < out.len() implies page_within(#[trigger] out[k], s) by {
            if k < head.len() {
                assert(out[k] == head[k]);
                assert(page_within(head[k], front));
                let j = choose|j: int|
                    0 <= j < front.len() && (#[trigger] front[j]).contains(head[k].0 as int)
                        && front[j].contains(head[k].0 + PAGE_SIZE - 1);
                assert(s[j] == front[j]);
            } else {
                assert(out[k] == tail[k - head.len()]);
                lemma_pages_of(x, k - head.len());
                assert(s[s.len() - 1] == x);
            }
        }
        assert forall|i: int, j: int| 0 <= i < j < out.len() implies (#[trigger] out[i]).0 < (
        #[trigger] out[j]).0 by {
            if j < head.len() {
                assert(out[i] == head[i] && out[j] == head[j]);
            } else {
                assert(out[j] == tail[j - head.len()]);
                lemma_pages_of(x, j - head.len());
                if i < head.len() {
                    assert(out[i] == head[i]);
                    assert(page_within(head[i], front));
                    let m = choose|m: int|
                        0 <= m < front.len() && (#[trigger] front[m]).contains(head[i].0 as int)
                            && front[m].contains(head[i].0 + PAGE_SIZE - 1);
                    assert(s[m].last() < s[s.len() - 1].first());
                } else {
                    assert(out[i] == tail[i - head.len()]);
                    lemma_pages_of(x, i - head.len());
                    assert((i - head.len()) * PAGE_SIZE < (j - head.len()) * PAGE_SIZE)
                        by (nonlinear_arith)
                        requires
                            i < j,
                    ;
                }
            }
        }
        if all_page_aligned(s) {
            assert forall|i: int| 0 <= i < front.len() implies (#[trigger] front[i]).aligned_to(
                PAGE_SIZE as int,
            ) by {
                assert(s[i].aligned_to(PAGE_SIZE as int));
            }
            assert(s[s.len() - 1].aligned_to(PAGE_SIZE as int));
            assert forall|k: int| 0 <= k < out.len() implies (#[trigger] out[k]).0 as int % (
            PAGE_SIZE as int) == 0 by {
                if k < head.len() {
                    assert(out[k] == head[k]);
                } else {
                    assert(out[k] == tail[k - head.len()]);
                    lemma_pages_of(x, k - head.len());
                }
            }
        }
    }
}

proof fn lemma_first_fit(s: Seq<MemoryRange>, needed: int, from: int)
    requires
        0 <= from,
    ensures
        from <= first_fit(s, needed, from) || first_fit(s, needed, from) == s.len(),
        first_fit(s, needed, from) < s.len() ==> s[first_fit(s, needed, from)].size >= needed,
    decreases s.len() - from,
{
    if from < s.len() && s[from].size < needed {
        lemma_first_fit(s, needed, from + 1);
    }
}

/// Whether `page` is a page for an allocator on `map` to hand out: it is
/// page-aligned, lies as a whole in a range of the map, and shares no byte
/// with the free-page buffer.
pub open spec fn page_of(page: PhysicalAddr, map: Seq<MemoryRange>) -> bool {
    &&& page.0 as int % (PAGE_SIZE as int) == 0
    &&& page_within(page, map)
    &&& !page_touches(page, seq![buffer_of(map)])
}

/// The pages of a freshly set up allocator: there are fewer of them than the
/// buffer has slots, their addresses ascend, so no page comes twice, and
/// each is a page for the allocator to hand out.
pub proof fn lemma_pages_of_fresh_allocator(map: Seq<MemoryRange>)
    requires
        serves(map),
    ensures
        fresh_on(map).wf(),
        fresh_on(map).capacity() == page_count(map),
        fresh_on(map).pages() == page_addresses(served_areas(map)),
        fresh_on(map).pages().len() == page_count(served_areas(map)),
        ascending(fresh_on(map).pages()),
        fresh_on(map).pages().no_duplicates(),
        forall|k: int|
            0 <= k < fresh_on(map).pages().len() ==> page_of(#[trigger] fresh_on(map).pages()[k], map),
{
    let needed = buffer_size(map);
    let at = first_fit(map, needed, 0);
    let served = served_areas(map);
    let pages = page_addresses(served);
    let buffer = buffer_of(map);

    lemma_first_fit(map, needed, 0);
    crate::memory::map::lemma_page_count_bound(map);
    crate::memory::map::lemma_page_count_aligned(map);
    assert(map[at].valid() && map[at].aligned_to(PAGE_SIZE as int));
    assert(needed % (PAGE_SIZE as int) == 0 && needed >= PAGE_SIZE) by {
        broadcast use vstd::layout::layout_of_primitives;

        let bytes = page_count(map) * crate::memory::map::entry_size();
        assert(bytes == page_count(map) * 4 || bytes == page_count(map) * 8);
        assert(needed == crate::memory::map::page_aligned(bytes));
        if bytes % (PAGE_SIZE as int) != 0 {
            vstd::arithmetic::div_mod::lemma_mod_multiples_basic(
                bytes / (PAGE_SIZE as int) + 1,
                PAGE_SIZE as int,
            );
        }
    }
    crate::memory::map::lemma_page_count_carved(map, at, needed);
    lemma_carved(map, at, needed);
    lemma_page_addresses(served);
    lemma_page_addresses_len(served);
    lemma_fresh(pages, page_count(map));
    assert forall|k: int| 0 <= k < pages.len() implies page_of(#[trigger] pages[k], map) by {
        let page = pages[k];
        assert(page_within(page, served));
        let j = choose|j: int|
            0 <= j < served.len() && (#[trigger] served[j]).contains(page.0 as int)
                && served[j].contains(page.0 + PAGE_SIZE - 1);
        assert(within_one_of(served[j], map));
        let m = choose|m: int| 0 <= m < map.len() && served[j].within(#[trigger] map[m]);
        assert(map[m].contains(page.0 as int) && map[m].contains(page.0 + PAGE_SIZE - 1));
        assert(!served[j].overlaps(buffer));
        assert(!page_touches(page, seq![buffer])) by {
            if page_touches(page, seq![buffer]) {
                let b = choose|b: int|
                    0 <= b < seq![buffer].len() && (#[trigger] seq![buffer][b]).first() <= page.0
                        + PAGE_SIZE - 1 && page.0 <= seq![buffer][b].last();
                assert(seq![buffer][b] == buffer);
            }
        }
    }
    assert forall|i: int, j: int| 0 <= i < pages.len() && 0 <= j < pages.len() && i != j implies pages[i]
        != pages[j] by {
        if i < j {
            assert(pages[i].0 < pages[j].0);
        } else {
            assert(pages[j].0 < pages[i].0);
        }
    }
}

/// The pages of a freshly set up allocator, drained. As many requests in a
/// row as the allocator has pages hand out each of its pages once: each is a
/// page for the allocator to hand out, and differs from the others. The
/// request after these hands out nothing.
pub proof fn lemma_fresh_allocator_serves_each_page_once(map: Seq<MemoryRange>, k: int, l: int)
    requires
        serves(map),
        0 <= k < page_count(served_areas(map)),
        0 <= l < page_count(served_areas(map)),
    ensures
        ({
            let pages = page_addresses(served_areas(map));
            let s = fresh_on(map);
            &&& s.wf()
            &&& pages.len() == page_count(served_areas(map))
            &&& s.after_requests(k as nat).requested() == Some(pages[k])
            &&& page_of(pages[k], map)
            &&& k != l ==> pages[k] != pages[l]
            &&& s.after_requests(pages.len()).requested() is None
        }),
{
    let s = fresh_on(map);
    lemma_pages_of_fresh_allocator(map);
    lemma_requests(s, k as nat);
    lemma_requests(s, s.pages().len());
}

/// A page of a memory map lies in the memory that the map was built from,
/// and shares no byte with what was reserved: where `page` lies as a whole
/// in a range of the map of `available` and `reserved`, it lies as a whole
/// in an available range, and shares no byte with a valid reserved range.
pub proof fn lemma_page_is_available_and_not_reserved(
    available: Seq<MemoryRange>,
    reserved: Seq<MemoryRange>,
    page: PhysicalAddr,
)
    requires
        page_within(page, map_of(available, reserved)),
    ensures
        page_within(page, available),
        !page_touches(page, valid_only(reserved)),
{
    let map = map_of(available, reserved);
    lemma_map_of(available, reserved);
    let m = choose|m: int|
        0 <= m < map.len() && (#[trigger] map[m]).contains(page.0 as int) && map[m].contains(
            page.0 + PAGE_SIZE - 1,
        );
    assert(within_one_of(map[m], available));
    let a = choose|a: int| 0 <= a < available.len() && map[m].within(#[trigger] available[a]);
    assert(available[a].contains(page.0 as int) && available[a].contains(page.0 + PAGE_SIZE - 1));
    if page_touches(page, valid_only(reserved)) {
        let r = choose|r: int|
            0 <= r < valid_only(reserved).len() && (#[trigger] valid_only(reserved)[r]).first()
                <= page.0 + PAGE_SIZE - 1 && page.0 <= valid_only(reserved)[r].last();
        assert(!map[m].overlaps(valid_only(reserved)[r]));
    }
}

/// The memory map of available ranges that share no byte has its ranges
/// valid, disjoint and in ascending order, as an allocator asks.
pub proof fn lemma_map_of_memory_apart(available: Seq<MemoryRange>, reserved: Seq<MemoryRange>)
    requires
        share_no_byte(available),
    ensures
        all_valid(map_of(available, reserved)),
        strictly_ordered(map_of(available, reserved)),
{
    lemma_sorted_apart(available);
    lemma_map_of(available, reserved);
}

/// A call of the allocator.
pub enum Call {
    /// A request for a page.
    Request,
    /// The return of a page.
    Free(PhysicalAddr),
}

/// Where a row of calls leaves the allocator, and which pages its callers
/// then hold: those that were handed out and not given back.
pub struct Outcome {
    pub state: FreeList,
    pub held: Multiset<PhysicalAddr>,
}

/// The outcome of the calls `calls`, made one after the other on an
/// allocator in the state `start` whose callers hold no page.
pub open spec fn after_calls(start: FreeList, calls: Seq<Call>) -> Outcome
    decreases calls.len(),
{
    if calls.len() == 0 {
        Outcome { state: start, held: Multiset::empty() }
    } else {
        let before = after_calls(start, calls.drop_last());
        match calls.last() {
            Call::Request => match before.state.requested() {
                Some(page) => Outcome {
                    state: before.state.after_request(),
                    held: before.held.insert(page),
                },
                None => before,
            },
            Call::Free(page) => Outcome {
                state: before.state.after_free(page),
                held: before.held.remove(page),
            },
        }
    }
}

/// Whether the callers give back only what they hold: each page that is
/// returned was handed out before and has not been given back since.
pub open spec fn returns_what_is_held(start: FreeList, calls: Seq<Call>) -> bool {
    forall|i: int|
        0 <= i < calls.len() ==> (#[trigger] calls[i] matches Call::Free(page) ==> after_calls(
            start,
            calls.take(i),
        ).held.count(page) > 0)
}

/// No page is lost and none is made: as long as the callers give back only
/// what they hold, the free pages of the allocator and the pages that its
/// callers hold are together the pages that were free at the start, each as
/// often as then.
pub proof fn lemma_calls_keep_the_pages(start: FreeList, calls: Seq<Call>)
    requires
        start.wf(),
        returns_what_is_held(start, calls),
    ensures
        after_calls(start, calls).state.wf(),
        after_calls(start, calls).state.capacity() == start.capacity(),
        after_calls(start, calls).state.pages().to_multiset().add(after_calls(start, calls).held)
            == start.pages().to_multiset(),
    decreases calls.len(),
{
    broadcast use {
        vstd::seq_lib::group_to_multiset_ensures,
        vstd::multiset::group_multiset_axioms,
        vstd::multiset::group_multiset_properties,
    };

    let after = after_calls(start, calls);
    lemma_request(start);
    if calls.len() == 0 {
        assert(start.pages().to_multiset().add(Multiset::empty()) =~= start.pages().to_multiset());
    } else {
        let front = calls.drop_last();
        assert forall|i: int| 0 <= i < front.len() implies (#[trigger] front[i] matches Call::Free(
            page,
        ) ==> after_calls(start, front.take(i)).held.count(page) > 0) by {
            assert(front.take(i) =~= calls.take(i));
            assert(front[i] == calls[i]);
        }
        lemma_calls_keep_the_pages(start, front);
        let before = after_calls(start, front);
        let free = before.state.pages();
        lemma_request(before.state);
        assert(free.to_multiset().len() + before.held.len() == start.pages().to_multiset().len());
        match calls.last() {
            Call::Request => {
                if before.state.requested() is Some {
                    let page = free[0];
                    assert(free.drop_first() =~= free.remove(0));
                    assert(after.state.pages().to_multiset().add(after.held) =~= free.to_multiset().add(
                        before.held,
                    ));
                }
            },
            Call::Free(page) => {
                assert(calls.take(calls.len() - 1) =~= front);
                assert(calls[calls.len() - 1] == calls.last());
                assert(before.held.count(page) > 0);
                assert(before.held.len() >= 1);
                lemma_free(before.state, page);
                assert(after.state.pages().to_multiset().add(after.held) =~= free.to_multiset().add(
                    before.held,
                ));
            },
        }
    }
}

/// What an allocator hands out, whatever went before. Set the allocator up
/// on a memory map, and let its callers request pages and give back what
/// they hold, in any order. Then a page that the allocator hands out next is
/// a page for it to hand out: it is page-aligned, lies as a whole in a range
/// of the map, and shares no byte with the free-page buffer. No caller holds
/// it at that time; and every page that a caller holds is such a page too.
pub proof fn lemma_allocator_hands_out_its_pages(map: Seq<MemoryRange>, calls: Seq<Call>)
    requires
        serves(map),
        returns_what_is_held(fresh_on(map), calls),
    ensures
        ({
            let after = after_calls(fresh_on(map), calls);
            &&& after.state.wf()
            &&& after.state.requested() matches Some(page) ==> page_of(page, map)
                && after.held.count(page) == 0
            &&& forall|page: PhysicalAddr| #[trigger]
                after.held.count(page) > 0 ==> page_of(page, map) && after.held.count(page) == 1
        }),
{
    broadcast use {
        vstd::seq_lib::group_to_multiset_ensures,
        vstd::multiset::group_multiset_axioms,
    };

    let start = fresh_on(map);
    let after = after_calls(start, calls);
    lemma_pages_of_fresh_allocator(map);
    lemma_calls_keep_the_pages(start, calls);
    start.pages().lemma_multiset_has_no_duplicates();
    lemma_request(after.state);
    let all = start.pages().to_multiset();
    assert forall|page: PhysicalAddr| all.count(page) > 0 implies page_of(page, map) && all.count(page)
        == 1 by {
        assert(start.pages().contains(page));
        let k = choose|k: int| 0 <= k < start.pages().len() && start.pages()[k] == page;
        assert(page_of(start.pages()[k], map));
    }
    if after.state.requested() is Some {
        let page = after.state.pages()[0];
        assert(after.state.pages().to_multiset().count(page) > 0);
        assert(all.count(page) == after.state.pages().to_multiset().count(page) + after.held.count(
            page,
        ));
    }
    assert forall|page: PhysicalAddr| #[trigger] after.held.count(page) > 0 implies page_of(page, map)
        && after.held.count(page) == 1 by {
        assert(all.count(page) == after.state.pages().to_multiset().count(page) + after.held.count(
            page,
        ));
    }
}

} // verus!
