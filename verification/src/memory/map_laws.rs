//! What holds of sorting and of cutting reserved ranges out of available
//! ones.

use vstd::prelude::*;
use crate::memory::MemoryRange;
use crate::memory::map::{
    all_page_aligned, all_valid, buffer_range, capped, carved, clear_of, covers,
    insert_by_address, map_of, sort_by_address, sorted_by_address, strictly_ordered, subtract,
    sweep, valid_only, MAX_AREAS,
};
use crate::memory::PAGE_SIZE;

verus! {

/// Whether `x` lies within one of the ranges of `s`.
pub open spec fn within_one_of(x: MemoryRange, s: Seq<MemoryRange>) -> bool {
    exists|j: int| 0 <= j < s.len() && x.within(#[trigger] s[j])
}

/// Whether no range of `s` shares a byte with a range of `reserved` at index
/// `from` or behind it.
pub open spec fn clear_from(s: Seq<MemoryRange>, reserved: Seq<MemoryRange>, from: int) -> bool {
    forall|i: int, k: int|
        0 <= i < s.len() && from <= k < reserved.len() ==> !(#[trigger] s[i]).overlaps(
            #[trigger] reserved[k],
        )
}

/// Whether every range of `s` lies within `outer`.
pub open spec fn all_within(s: Seq<MemoryRange>, outer: MemoryRange) -> bool {
    forall|i: int| 0 <= i < s.len() ==> (#[trigger] s[i]).within(outer)
}

/// Only valid ranges are left by `valid_only`.
pub proof fn lemma_valid_only(s: Seq<MemoryRange>)
    ensures
        all_valid(valid_only(s)),
        all_valid(s) ==> valid_only(s) == s,
    decreases s.len(),
{
    if s.len() > 0 {
        lemma_valid_only(s.drop_last());
        if all_valid(s) {
            assert(s.last().valid());
            assert(all_valid(s.drop_last())) by {
                assert forall|i: int| 0 <= i < s.drop_last().len() implies (#[trigger] s.drop_last()[i]).valid() by {
                    assert(s[i].valid());
                }
            }
            assert(s.drop_last().push(s.last()) =~= s);
        }
    }
}

proof fn lemma_insert(s: Seq<MemoryRange>, x: MemoryRange)
    requires
        sorted_by_address(s),
    ensures
        sorted_by_address(insert_by_address(s, x)),
        insert_by_address(s, x).to_multiset() == s.to_multiset().insert(x),
        insert_by_address(s, x).len() == s.len() + 1,
        all_valid(s) && x.valid() ==> all_valid(insert_by_address(s, x)),
    decreases s.len(),
{
    broadcast use vstd::seq_lib::group_to_multiset_ensures;

    if s.len() == 0 {
        assert(s =~= Seq::empty());
        assert(seq![x] =~= Seq::<MemoryRange>::empty().push(x));
    } else if s.last().address <= x.address {
    } else {
        let front = s.drop_last();
        lemma_insert(front, x);
        let inner = insert_by_address(front, x);
        assert(s =~= front.push(s.last()));
        assert(inner.push(s.last()).to_multiset() =~= s.to_multiset().insert(x));
        assert forall|i: int, j: int| 0 <= i < j < inner.push(s.last()).len() implies (
        #[trigger] inner.push(s.last())[i]).address <= (#[trigger] inner.push(s.last())[j]).address by {
            if j == inner.len() {
                // every range of `inner` is `x` or a range of `front`
                assert(inner.to_multiset().count(inner[i]) > 0);
                if inner[i] != x {
                    assert(front.to_multiset().count(inner[i]) > 0);
                    let k = choose|k: int| 0 <= k < front.len() && front[k] == inner[i];
                    assert(s[k].address <= s[s.len() - 1].address);
                }
            }
        }
        if all_valid(s) && x.valid() {
            assert forall|i: int| 0 <= i < front.len() implies (#[trigger] front[i]).valid() by {
                assert(s[i].valid());
            }
            assert(s.last().valid());
        }
    }
}

/// Sorting orders the ranges by address and neither adds nor drops one.
pub proof fn lemma_sort_by_address(s: Seq<MemoryRange>)
    ensures
        sorted_by_address(sort_by_address(s)),
        sort_by_address(s).to_multiset() == s.to_multiset(),
        sort_by_address(s).len() == s.len(),
        all_valid(s) ==> all_valid(sort_by_address(s)),
    decreases s.len(),
{
    broadcast use vstd::seq_lib::group_to_multiset_ensures;

    if s.len() > 0 {
        let front = s.drop_last();
        lemma_sort_by_address(front);
        lemma_insert(sort_by_address(front), s.last());
        assert(s =~= front.push(s.last()));
        if all_valid(s) {
            assert forall|i: int| 0 <= i < front.len() implies (#[trigger] front[i]).valid() by {
                assert(s[i].valid());
            }
            assert(s.last().valid());
        }
    }
}

/// What a sweep leaves of a range: valid ranges within it, in ascending order
/// and disjoint; and, where the reserved ranges come by ascending address,
/// ranges that share no byte with a reserved range at index `from` or behind.
pub proof fn lemma_sweep(remaining: MemoryRange, reserved: Seq<MemoryRange>, from: int)
    requires
        remaining.valid(),
        all_valid(reserved),
        0 <= from,
    ensures
        all_valid(sweep(remaining, reserved, from)),
        strictly_ordered(sweep(remaining, reserved, from)),
        all_within(sweep(remaining, reserved, from), remaining),
        sorted_by_address(reserved) ==> clear_from(sweep(remaining, reserved, from), reserved, from),
    decreases reserved.len() - from,
{
    let out = sweep(remaining, reserved, from);
    if from >= reserved.len() {
    } else {
        let r = reserved[from];
        assert(r.valid());
        if !remaining.overlaps(r) {
            lemma_sweep(remaining, reserved, from + 1);
        } else {
            let head = if r.first() > remaining.first() {
                seq![MemoryRange::spanning(remaining.first(), r.first() - 1)]
            } else {
                Seq::empty()
            };
            if r.last() >= remaining.last() {
                assert(out == head);
            } else {
                let next = MemoryRange::spanning(r.last() + 1, remaining.last());
                let rest = sweep(next, reserved, from + 1);
                lemma_sweep(next, reserved, from + 1);
                assert(out == head + rest);
                assert forall|i: int| 0 <= i < out.len() implies (#[trigger] out[i]).valid()
                    && out[i].within(remaining) by {
                    if i >= head.len() {
                        assert(out[i] == rest[i - head.len()]);
                        assert(rest[i - head.len()].within(next));
                    }
                }
                assert forall|i: int, j: int| 0 <= i < j < out.len() implies (#[trigger] out[i]).last()
                    < (#[trigger] out[j]).first() by {
                    assert(out[j] == rest[j - head.len()]);
                    assert(rest[j - head.len()].within(next));
                    if i >= head.len() {
                        assert(out[i] == rest[i - head.len()]);
                    }
                }
                if sorted_by_address(reserved) {
                    assert forall|i: int, k: int|
                        0 <= i < out.len() && from <= k < reserved.len() implies !(
                    #[trigger] out[i]).overlaps(#[trigger] reserved[k]) by {
                        if i >= head.len() {
                            assert(out[i] == rest[i - head.len()]);
                            assert(rest[i - head.len()].within(next));
                        } else if k > from {
                            assert(reserved[from].address <= reserved[k].address);
                        }
                    }
                }
            }
            if sorted_by_address(reserved) {
                assert forall|i: int, k: int|
                    0 <= i < head.len() && from <= k < reserved.len() implies !(
                #[trigger] head[i]).overlaps(#[trigger] reserved[k]) by {
                    if k > from {
                        assert(reserved[from].address <= reserved[k].address);
                    }
                }
            }
        }
    }
}

/// A range that shares no byte with a reserved range at index `from` or
/// behind passes a sweep unchanged.
pub proof fn lemma_sweep_untouched(x: MemoryRange, reserved: Seq<MemoryRange>, from: int)
    requires
        0 <= from,
        forall|k: int| from <= k < reserved.len() ==> !x.overlaps(#[trigger] reserved[k]),
    ensures
        sweep(x, reserved, from) == seq![x],
    decreases reserved.len() - from,
{
    if from < reserved.len() {
        assert(!x.overlaps(reserved[from]));
        lemma_sweep_untouched(x, reserved, from + 1);
    }
}

/// A byte of the range that lies in no reserved range at index `from` or
/// behind is left by the sweep.
pub proof fn lemma_sweep_keeps(remaining: MemoryRange, reserved: Seq<MemoryRange>, from: int, a: int)
    requires
        remaining.valid(),
        all_valid(reserved),
        0 <= from,
        remaining.contains(a),
        forall|k: int| from <= k < reserved.len() ==> !(#[trigger] reserved[k]).contains(a),
    ensures
        covers(sweep(remaining, reserved, from), a),
    decreases reserved.len() - from,
{
    let out = sweep(remaining, reserved, from);
    if from >= reserved.len() {
        assert(out[0].contains(a));
    } else {
        let r = reserved[from];
        assert(r.valid());
        assert(!r.contains(a));
        if !remaining.overlaps(r) {
            lemma_sweep_keeps(remaining, reserved, from + 1, a);
        } else {
            let head = if r.first() > remaining.first() {
                seq![MemoryRange::spanning(remaining.first(), r.first() - 1)]
            } else {
                Seq::empty()
            };
            if a < r.first() {
                assert(head[0].contains(a));
                assert(out[0] == head[0]);
            } else {
                let next = MemoryRange::spanning(r.last() + 1, remaining.last());
                let rest = sweep(next, reserved, from + 1);
                lemma_sweep_keeps(next, reserved, from + 1, a);
                let i = choose|i: int| 0 <= i < rest.len() && (#[trigger] rest[i]).contains(a);
                assert(out[head.len() + i] == rest[i]);
            }
        }
    }
}

/// Subtraction leaves valid ranges, each within an available range; where the
/// reserved ranges come by ascending address, none of them shares a byte with
/// a reserved range.
pub proof fn lemma_subtract_sound(available: Seq<MemoryRange>, reserved: Seq<MemoryRange>)
    requires
        all_valid(available),
        all_valid(reserved),
    ensures
        all_valid(subtract(available, reserved)),
        forall|i: int|
            0 <= i < subtract(available, reserved).len() ==> within_one_of(
                #[trigger] subtract(available, reserved)[i],
                available,
            ),
        sorted_by_address(reserved) ==> clear_of(subtract(available, reserved), reserved),
    decreases available.len(),
{
    let out = subtract(available, reserved);
    if available.len() > 0 {
        let front = available.drop_last();
        let x = available.last();
        let kept = subtract(front, reserved);
        let tail = sweep(x, reserved, 0);
        assert forall|i: int| 0 <= i < front.len() implies (#[trigger] front[i]).valid() by {
            assert(available[i].valid());
        }
        assert(x.valid());
        lemma_subtract_sound(front, reserved);
        lemma_sweep(x, reserved, 0);
        assert(out == kept + tail);
        assert forall|i: int| 0 <= i < out.len() implies (#[trigger] out[i]).valid() && within_one_of(
            out[i],
            available,
        ) by {
            if i < kept.len() {
                assert(out[i] == kept[i]);
                assert(within_one_of(kept[i], front));
                let j = choose|j: int| 0 <= j < front.len() && kept[i].within(#[trigger] front[j]);
                assert(out[i].within(available[j]));
            } else {
                assert(out[i] == tail[i - kept.len()]);
                assert(tail[i - kept.len()].within(x));
                assert(out[i].within(available[available.len() - 1]));
            }
        }
        if sorted_by_address(reserved) {
            assert forall|i: int, k: int|
                0 <= i < out.len() && 0 <= k < reserved.len() implies !(#[trigger] out[i]).overlaps(
                #[trigger] reserved[k],
            ) by {
                if i < kept.len() {
                    assert(out[i] == kept[i]);
                } else {
                    assert(out[i] == tail[i - kept.len()]);
                }
            }
        }
    }
}

/// Subtraction drops no byte that is available and not reserved.
pub proof fn lemma_subtract_complete(
    available: Seq<MemoryRange>,
    reserved: Seq<MemoryRange>,
    a: int,
)
    requires
        all_valid(available),
        all_valid(reserved),
        covers(available, a),
        !covers(reserved, a),
    ensures
        covers(subtract(available, reserved), a),
    decreases available.len(),
{
    let out = subtract(available, reserved);
    let j = choose|j: int| 0 <= j < available.len() && (#[trigger] available[j]).contains(a);
    let front = available.drop_last();
    let x = available.last();
    let kept = subtract(front, reserved);
    let tail = sweep(x, reserved, 0);
    assert(out == kept + tail);
    if j == available.len() - 1 {
        assert(x.valid());
        lemma_sweep_keeps(x, reserved, 0, a);
        let i = choose|i: int| 0 <= i < tail.len() && (#[trigger] tail[i]).contains(a);
        assert(out[kept.len() + i] == tail[i]);
    } else {
        assert forall|i: int| 0 <= i < front.len() implies (#[trigger] front[i]).valid() by {
            assert(available[i].valid());
        }
        assert(front[j].contains(a));
        lemma_subtract_complete(front, reserved, a);
        let i = choose|i: int| 0 <= i < kept.len() && (#[trigger] kept[i]).contains(a);
        assert(out[i] == kept[i]);
    }
}

/// What subtraction leaves is what is available and not reserved: a byte
/// lies in a range that is left exactly if it lies in an available range and
/// in no reserved one. The reserved ranges must come by ascending address.
pub proof fn lemma_subtract_is_difference(
    available: Seq<MemoryRange>,
    reserved: Seq<MemoryRange>,
    a: int,
)
    requires
        all_valid(available),
        all_valid(reserved),
        sorted_by_address(reserved),
    ensures
        covers(subtract(available, reserved), a) <==> covers(available, a) && !covers(reserved, a),
{
    let out = subtract(available, reserved);
    lemma_subtract_sound(available, reserved);
    if covers(out, a) {
        let i = choose|i: int| 0 <= i < out.len() && (#[trigger] out[i]).contains(a);
        assert(within_one_of(out[i], available));
        let j = choose|j: int| 0 <= j < available.len() && out[i].within(#[trigger] available[j]);
        assert(available[j].contains(a));
        if covers(reserved, a) {
            let k = choose|k: int| 0 <= k < reserved.len() && (#[trigger] reserved[k]).contains(a);
            assert(out[i].overlaps(reserved[k]));
        }
    }
    if covers(available, a) && !covers(reserved, a) {
        lemma_subtract_complete(available, reserved, a);
    }
}

/// Ranges that share no byte with a reserved range pass subtraction
/// unchanged.
pub proof fn lemma_subtract_untouched(s: Seq<MemoryRange>, reserved: Seq<MemoryRange>)
    requires
        clear_of(s, reserved),
    ensures
        subtract(s, reserved) == s,
    decreases s.len(),
{
    if s.len() > 0 {
        let front = s.drop_last();
        assert forall|i: int, k: int| 0 <= i < front.len() && 0 <= k < reserved.len() implies !(
        #[trigger] front[i]).overlaps(#[trigger] reserved[k]) by {
            assert(!s[i].overlaps(reserved[k]));
        }
        lemma_subtract_untouched(front, reserved);
        assert forall|k: int| 0 <= k < reserved.len() implies !s.last().overlaps(
            #[trigger] reserved[k],
        ) by {
            assert(!s[s.len() - 1].overlaps(reserved[k]));
        }
        lemma_sweep_untouched(s.last(), reserved, 0);
        assert(front + seq![s.last()] =~= s);
    } else {
        assert(s =~= Seq::empty());
    }
}

/// Cutting the same reserved ranges out a second time changes nothing, where
/// the reserved ranges come by ascending address.
pub proof fn lemma_subtract_idempotent(available: Seq<MemoryRange>, reserved: Seq<MemoryRange>)
    requires
        all_valid(available),
        all_valid(reserved),
        sorted_by_address(reserved),
    ensures
        subtract(subtract(available, reserved), reserved) == subtract(available, reserved),
{
    lemma_subtract_sound(available, reserved);
    lemma_subtract_untouched(subtract(available, reserved), reserved);
}

/// Where the available ranges are disjoint and come by ascending address, so
/// do the ranges that subtraction leaves.
pub proof fn lemma_subtract_ordered(available: Seq<MemoryRange>, reserved: Seq<MemoryRange>)
    requires
        all_valid(available),
        all_valid(reserved),
        strictly_ordered(available),
    ensures
        strictly_ordered(subtract(available, reserved)),
    decreases available.len(),
{
    let out = subtract(available, reserved);
    if available.len() > 0 {
        let front = available.drop_last();
        let x = available.last();
        let kept = subtract(front, reserved);
        let tail = sweep(x, reserved, 0);
        assert forall|i: int| 0 <= i < front.len() implies (#[trigger] front[i]).valid() by {
            assert(available[i].valid());
        }
        assert forall|i: int, j: int| 0 <= i < j < front.len() implies (#[trigger] front[i]).last() < (
        #[trigger] front[j]).first() by {
            assert(available[i].last() < available[j].first());
        }
        assert(x.valid());
        lemma_subtract_ordered(front, reserved);
        lemma_subtract_sound(front, reserved);
        lemma_sweep(x, reserved, 0);
        assert(out == kept + tail);
        assert forall|i: int, j: int| 0 <= i < j < out.len() implies (#[trigger] out[i]).last() < (
        #[trigger] out[j]).first() by {
            if j < kept.len() {
                assert(out[i] == kept[i] && out[j] == kept[j]);
            } else if i >= kept.len() {
                assert(out[i] == tail[i - kept.len()] && out[j] == tail[j - kept.len()]);
            } else {
                assert(out[i] == kept[i] && out[j] == tail[j - kept.len()]);
                assert(within_one_of(kept[i], front));
                let k = choose|k: int| 0 <= k < front.len() && kept[i].within(#[trigger] front[k]);
                assert(available[k].last() < available[available.len() - 1].first());
                assert(tail[j - kept.len()].within(x));
            }
        }
    }
}

/// A range of the valid ranges of `s` is a range of `s`.
pub proof fn lemma_valid_only_subset(s: Seq<MemoryRange>, x: MemoryRange)
    requires
        valid_only(s).contains(x),
    ensures
        s.contains(x),
    decreases s.len(),
{
    if s.len() > 0 {
        let front = s.drop_last();
        let i = choose|i: int| 0 <= i < valid_only(s).len() && valid_only(s)[i] == x;
        if s.last().valid() && i == valid_only(front).len() {
            assert(s[s.len() - 1] == x);
        } else {
            assert(valid_only(front)[i] == x);
            lemma_valid_only_subset(front, x);
            let j = choose|j: int| 0 <= j < front.len() && front[j] == x;
            assert(s[j] == x);
        }
    }
}

/// The ranges of a memory map: each is valid and lies within an available
/// range; none shares a byte with a valid reserved range; and where the
/// valid available ranges are disjoint, the ranges of the map are disjoint
/// and come by ascending address.
pub proof fn lemma_map_of(available: Seq<MemoryRange>, reserved: Seq<MemoryRange>)
    ensures
        all_valid(map_of(available, reserved)),
        map_of(available, reserved).len() <= MAX_AREAS,
        forall|i: int|
            0 <= i < map_of(available, reserved).len() ==> within_one_of(
                #[trigger] map_of(available, reserved)[i],
                available,
            ),
        clear_of(map_of(available, reserved), valid_only(reserved)),
        strictly_ordered(sort_by_address(valid_only(available))) ==> strictly_ordered(
            map_of(available, reserved),
        ),
{
    broadcast use vstd::seq_lib::group_to_multiset_ensures;

    let av = sort_by_address(valid_only(available));
    let rs = sort_by_address(valid_only(reserved));
    let full = subtract(av, rs);
    let map = map_of(available, reserved);
    lemma_valid_only(available);
    lemma_valid_only(reserved);
    lemma_sort_by_address(valid_only(available));
    lemma_sort_by_address(valid_only(reserved));
    lemma_subtract_sound(av, rs);
    assert(map == capped(full, MAX_AREAS as int));
    assert forall|i: int| 0 <= i < map.len() implies map[i] == full[i] by {}
    assert forall|i: int| 0 <= i < map.len() implies within_one_of(#[trigger] map[i], available) by {
        assert(within_one_of(full[i], av));
        let a = choose|a: int| 0 <= a < av.len() && full[i].within(#[trigger] av[a]);
        assert(av.contains(av[a]));
        assert(valid_only(available).to_multiset().count(av[a]) > 0);
        lemma_valid_only_subset(available, av[a]);
        let a0 = choose|a0: int| 0 <= a0 < available.len() && available[a0] == av[a];
        assert(map[i].within(available[a0]));
    }
    assert forall|i: int, k: int|
        0 <= i < map.len() && 0 <= k < valid_only(reserved).len() implies !(#[trigger] map[i]).overlaps(
        #[trigger] valid_only(reserved)[k],
    ) by {
        let x = valid_only(reserved)[k];
        assert(valid_only(reserved).contains(x));
        assert(rs.to_multiset().count(x) > 0);
        let q = choose|q: int| 0 <= q < rs.len() && rs[q] == x;
        assert(!full[i].overlaps(rs[q]));
    }
    if strictly_ordered(av) {
        lemma_subtract_ordered(av, rs);
        assert forall|i: int, j: int| 0 <= i < j < map.len() implies (#[trigger] map[i]).last() < (
        #[trigger] map[j]).first() by {
            assert(full[i].last() < full[j].first());
        }
    }
}

/// Whether no two valid ranges of `s` share a byte.
pub open spec fn share_no_byte(s: Seq<MemoryRange>) -> bool {
    forall|i: int, j: int|
        0 <= i < j < s.len() && (#[trigger] s[i]).valid() && (#[trigger] s[j]).valid() ==> !s[i].overlaps(
            s[j],
        )
}

/// Whether `x` shares no byte with a range of `s`.
pub open spec fn apart_from(x: MemoryRange, s: Seq<MemoryRange>) -> bool {
    forall|i: int| 0 <= i < s.len() ==> !x.overlaps(#[trigger] s[i])
}

proof fn lemma_insert_ordered(s: Seq<MemoryRange>, x: MemoryRange)
    requires
        all_valid(s),
        x.valid(),
        strictly_ordered(s),
        apart_from(x, s),
    ensures
        strictly_ordered(insert_by_address(s, x)),
    decreases s.len(),
{
    if s.len() == 0 {
    } else if s.last().address <= x.address {
        assert forall|i: int, j: int| 0 <= i < j < s.push(x).len() implies (#[trigger] s.push(x)[i]).last()
            < (#[trigger] s.push(x)[j]).first() by {
            if j == s.len() {
                assert(s[i].valid());
                assert(!x.overlaps(s[i]));
                if i < s.len() - 1 {
                    assert(s[i].last() < s[s.len() - 1].first());
                }
                assert(!x.overlaps(s[s.len() - 1]));
                assert(s[s.len() - 1].valid());
            }
        }
    } else {
        let front = s.drop_last();
        assert forall|i: int| 0 <= i < front.len() implies (#[trigger] front[i]).valid() && !x.overlaps(
            front[i],
        ) by {
            assert(s[i].valid());
            assert(!x.overlaps(s[i]));
        }
        assert forall|i: int, j: int| 0 <= i < j < front.len() implies (#[trigger] front[i]).last() < (
        #[trigger] front[j]).first() by {
            assert(s[i].last() < s[j].first());
        }
        lemma_insert_ordered(front, x);
        lemma_insert(front, x);
        let inner = insert_by_address(front, x);
        let out = inner.push(s.last());
        assert(!x.overlaps(s[s.len() - 1]));
        assert(s[s.len() - 1].valid());
        assert forall|i: int, j: int| 0 <= i < j < out.len() implies (#[trigger] out[i]).last() < (
        #[trigger] out[j]).first() by {
            if j == inner.len() {
                broadcast use vstd::seq_lib::group_to_multiset_ensures;

                assert(inner.to_multiset().count(inner[i]) > 0);
                if inner[i] != x {
                    assert(front.to_multiset().count(inner[i]) > 0);
                    let k = choose|k: int| 0 <= k < front.len() && front[k] == inner[i];
                    assert(s[k].last() < s[s.len() - 1].first());
                }
            } else {
                assert(inner[i].last() < inner[j].first());
            }
        }
    }
}

/// Valid ranges that share no byte are, sorted by address, disjoint and in
/// ascending order.
pub proof fn lemma_sorted_apart(s: Seq<MemoryRange>)
    requires
        share_no_byte(s),
    ensures
        strictly_ordered(sort_by_address(valid_only(s))),
{
    lemma_valid_only(s);
    lemma_valid_only_apart(s);
    lemma_sort_ordered(valid_only(s));
}

proof fn lemma_valid_only_apart(s: Seq<MemoryRange>)
    requires
        share_no_byte(s),
    ensures
        share_no_byte(valid_only(s)),
        forall|x: MemoryRange|
            x.valid() && apart_from_valid(x, s) ==> #[trigger] apart_from(x, valid_only(s)),
    decreases s.len(),
{
    if s.len() > 0 {
        let front = s.drop_last();
        assert forall|i: int, j: int|
            0 <= i < j < front.len() && (#[trigger] front[i]).valid() && (#[trigger] front[j]).valid() implies !front[i].overlaps(
            front[j],
        ) by {
            assert(!s[i].overlaps(s[j]));
        }
        lemma_valid_only_apart(front);
        lemma_valid_only(front);
        let kept = valid_only(front);
        assert forall|x: MemoryRange| x.valid() && apart_from_valid(x, s) implies #[trigger] apart_from(
            x,
            valid_only(s),
        ) by {
            assert forall|i: int| 0 <= i < front.len() && (#[trigger] front[i]).valid() implies !x.overlaps(
                front[i],
            ) by {
                assert(!x.overlaps(s[i]));
            }
            assert(apart_from_valid(x, front));
            assert(apart_from(x, kept));
            if s.last().valid() {
                assert(!x.overlaps(s[s.len() - 1]));
            }
        }
        if s.last().valid() {
            let x = s.last();
            assert forall|i: int| 0 <= i < front.len() && (#[trigger] front[i]).valid() implies !x.overlaps(
                front[i],
            ) by {
                assert(!s[i].overlaps(s[s.len() - 1]));
            }
            assert(apart_from_valid(x, front));
            assert(apart_from(x, kept));
            let out = valid_only(s);
            assert forall|i: int, j: int|
                0 <= i < j < out.len() && (#[trigger] out[i]).valid() && (#[trigger] out[j]).valid() implies !out[i].overlaps(
                out[j],
            ) by {
                if j == kept.len() {
                    assert(!x.overlaps(kept[i]));
                } else {
                    assert(!kept[i].overlaps(kept[j]));
                }
            }
        }
    }
}

/// Whether `x` shares no byte with a valid range of `s`.
pub open spec fn apart_from_valid(x: MemoryRange, s: Seq<MemoryRange>) -> bool {
    forall|i: int| 0 <= i < s.len() && (#[trigger] s[i]).valid() ==> !x.overlaps(s[i])
}

proof fn lemma_sort_ordered(s: Seq<MemoryRange>)
    requires
        all_valid(s),
        share_no_byte(s),
    ensures
        strictly_ordered(sort_by_address(s)),
    decreases s.len(),
{
    broadcast use vstd::seq_lib::group_to_multiset_ensures;

    if s.len() > 0 {
        let front = s.drop_last();
        let x = s.last();
        assert forall|i: int| 0 <= i < front.len() implies (#[trigger] front[i]).valid() by {
            assert(s[i].valid());
        }
        assert forall|i: int, j: int|
            0 <= i < j < front.len() && (#[trigger] front[i]).valid() && (#[trigger] front[j]).valid() implies !front[i].overlaps(
            front[j],
        ) by {
            assert(!s[i].overlaps(s[j]));
        }
        lemma_sort_ordered(front);
        lemma_sort_by_address(front);
        let sorted = sort_by_address(front);
        assert(s[s.len() - 1].valid());
        assert forall|i: int| 0 <= i < sorted.len() implies !x.overlaps(#[trigger] sorted[i]) by {
            assert(sorted.to_multiset().count(sorted[i]) > 0);
            assert(front.contains(sorted[i]));
            let k = choose|k: int| 0 <= k < front.len() && front[k] == sorted[i];
            assert(s[k].valid());
            assert(!s[k].overlaps(s[s.len() - 1]));
        }
        lemma_insert_ordered(sorted, x);
    }
}

/// Carving bytes from the start of a range leaves valid ranges, each within a
/// range that was there before, and keeps their order. Where the ranges are
/// disjoint, none of those that are left shares a byte with what was carved.
pub proof fn lemma_carved(s: Seq<MemoryRange>, at: int, needed: int)
    requires
        all_valid(s),
        0 <= at < s.len(),
        0 <= needed <= s[at].size,
    ensures
        all_valid(carved(s, at, needed)),
        forall|i: int|
            0 <= i < carved(s, at, needed).len() ==> within_one_of(
                #[trigger] carved(s, at, needed)[i],
                s,
            ),
        strictly_ordered(s) ==> strictly_ordered(carved(s, at, needed)),
        needed % (PAGE_SIZE as int) == 0 && all_page_aligned(s) ==> all_page_aligned(
            carved(s, at, needed),
        ),
        strictly_ordered(s) && needed > 0 ==> forall|i: int|
            0 <= i < carved(s, at, needed).len() ==> !(#[trigger] carved(s, at, needed)[i]).overlaps(
                buffer_range(s, at, needed),
            ),
{
    let c = carved(s, at, needed);
    assert(s[at].valid());
    let origin = |i: int|
        if s[at].size == needed && i >= at {
            i + 1
        } else {
            i
        };
    assert forall|i: int| 0 <= i < c.len() implies (#[trigger] c[i]).valid() && within_one_of(c[i], s)
        && c[i].within(s[origin(i)]) by {
        assert(s[origin(i)].valid());
        assert(c[i].within(s[origin(i)]));
    }
    if strictly_ordered(s) {
        assert forall|i: int, j: int| 0 <= i < j < c.len() implies (#[trigger] c[i]).last() < (
        #[trigger] c[j]).first() by {
            assert(c[i].within(s[origin(i)]));
            assert(c[j].within(s[origin(j)]));
            assert(s[origin(i)].last() < s[origin(j)].first());
        }
    }
    if strictly_ordered(s) && needed > 0 {
        let buffer = buffer_range(s, at, needed);
        assert forall|i: int| 0 <= i < c.len() implies !(#[trigger] c[i]).overlaps(buffer) by {
            assert(c[i].within(s[origin(i)]));
            if origin(i) < at {
                assert(s[origin(i)].last() < s[at].first());
            } else if origin(i) > at {
                assert(s[at].last() < s[origin(i)].first());
            }
        }
    }
    if needed % (PAGE_SIZE as int) == 0 && all_page_aligned(s) {
        assert forall|i: int| 0 <= i < c.len() implies (#[trigger] c[i]).aligned_to(
            PAGE_SIZE as int,
        ) by {
            assert(s[origin(i)].aligned_to(PAGE_SIZE as int));
            assert(s[at].aligned_to(PAGE_SIZE as int));
        }
    }
}

} // verus!
