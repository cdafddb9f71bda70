//! The memory map: the ranges of physical memory that are present and not
//! reserved.

use vstd::prelude::*;
use crate::data_structures::capacity_vec::CapacityVec;
use crate::memory::types::PhysicalAddr;
use crate::memory::{MemoryRange, PAGE_SIZE};

verus! {

/// The most ranges that a memory map holds.
pub const MAX_AREAS: usize = 64;

/// Whether every range of `s` is valid.
pub open spec fn all_valid(s: Seq<MemoryRange>) -> bool {
    forall|i: int| 0 <= i < s.len() ==> (#[trigger] s[i]).valid()
}

/// Whether the ranges of `s` come by ascending address.
pub open spec fn sorted_by_address(s: Seq<MemoryRange>) -> bool {
    forall|i: int, j: int| 0 <= i < j < s.len() ==> (#[trigger] s[i]).address <= (#[trigger] s[j]).address
}

/// Whether each range of `s` ends before the next one starts, so that the
/// ranges are disjoint and come by ascending address.
pub open spec fn strictly_ordered(s: Seq<MemoryRange>) -> bool {
    forall|i: int, j: int| 0 <= i < j < s.len() ==> (#[trigger] s[i]).last() < (#[trigger] s[j]).first()
}

/// Whether no range of `s` shares a byte with a range of `reserved`.
pub open spec fn clear_of(s: Seq<MemoryRange>, reserved: Seq<MemoryRange>) -> bool {
    forall|i: int, k: int|
        0 <= i < s.len() && 0 <= k < reserved.len() ==> !(#[trigger] s[i]).overlaps(#[trigger] reserved[k])
}

/// Whether the byte at `a` lies in one of the ranges of `s`.
pub open spec fn covers(s: Seq<MemoryRange>, a: int) -> bool {
    exists|i: int| 0 <= i < s.len() && (#[trigger] s[i]).contains(a)
}

/// The valid ranges of `s`, in their order.
pub open spec fn valid_only(s: Seq<MemoryRange>) -> Seq<MemoryRange>
    decreases s.len(),
{
    if s.len() == 0 {
        s
    } else if s.last().valid() {
        valid_only(s.drop_last()).push(s.last())
    } else {
        valid_only(s.drop_last())
    }
}

/// `s` with `x` put behind the last range whose address is not above that of
/// `x`.
pub open spec fn insert_by_address(s: Seq<MemoryRange>, x: MemoryRange) -> Seq<MemoryRange>
    decreases s.len(),
{
    if s.len() == 0 {
        seq![x]
    } else if s.last().address <= x.address {
        s.push(x)
    } else {
        insert_by_address(s.drop_last(), x).push(s.last())
    }
}

/// The ranges of `s` by ascending address; ranges of one address keep their
/// order.
pub open spec fn sort_by_address(s: Seq<MemoryRange>) -> Seq<MemoryRange>
    decreases s.len(),
{
    if s.len() == 0 {
        s
    } else {
        insert_by_address(sort_by_address(s.drop_last()), s.last())
    }
}

/// What is left of `remaining` when the reserved ranges from index `from` on
/// are cut out of it one after the other. A reserved range that shares no
/// byte with what is left at its turn is passed over.
pub open spec fn sweep(remaining: MemoryRange, reserved: Seq<MemoryRange>, from: int) -> Seq<
    MemoryRange,
>
    decreases reserved.len() - from,
{
    if from < 0 || from >= reserved.len() {
        seq![remaining]
    } else {
        let r = reserved[from];
        if !remaining.overlaps(r) {
            sweep(remaining, reserved, from + 1)
        } else {
            let head = if r.first() > remaining.first() {
                seq![MemoryRange::spanning(remaining.first(), r.first() - 1)]
            } else {
                Seq::empty()
            };
            if r.last() >= remaining.last() {
                head
            } else {
                head + sweep(
                    MemoryRange::spanning(r.last() + 1, remaining.last()),
                    reserved,
                    from + 1,
                )
            }
        }
    }
}

/// The available ranges with the reserved ranges cut out: for each available
/// range in turn, what a sweep over all reserved ranges leaves of it.
pub open spec fn subtract(available: Seq<MemoryRange>, reserved: Seq<MemoryRange>) -> Seq<
    MemoryRange,
>
    decreases available.len(),
{
    if available.len() == 0 {
        Seq::empty()
    } else {
        subtract(available.drop_last(), reserved) + sweep(available.last(), reserved, 0)
    }
}

/// The first `limit` items of `s`, or all of them if they are fewer.
pub open spec fn capped<T>(s: Seq<T>, limit: int) -> Seq<T> {
    if s.len() <= limit {
        s
    } else {
        s.take(limit)
    }
}

/// The ranges of the memory map that is built from the given available and
/// reserved ranges: invalid ranges are dropped, both lists are sorted by
/// address, the reserved ranges are cut out of the available ones, and of the
/// result the first `MAX_AREAS` ranges are kept.
pub open spec fn map_of(available: Seq<MemoryRange>, reserved: Seq<MemoryRange>) -> Seq<
    MemoryRange,
> {
    capped(
        subtract(sort_by_address(valid_only(available)), sort_by_address(valid_only(reserved))),
        MAX_AREAS as int,
    )
}

/// Number of whole pages in the ranges of `s`.
pub open spec fn page_count(s: Seq<MemoryRange>) -> int
    decreases s.len(),
{
    if s.len() == 0 {
        0
    } else {
        page_count(s.drop_last()) + s.last().size as int / PAGE_SIZE as int
    }
}

/// The least multiple of the page size that is not below `val`.
pub open spec fn page_aligned(val: int) -> int {
    if val % (PAGE_SIZE as int) == 0 {
        val
    } else {
        (val / (PAGE_SIZE as int) + 1) * PAGE_SIZE as int
    }
}

/// Rounds `val` up to a multiple of the page size.
pub fn page_align(val: usize) -> (r: usize)
    requires
        page_aligned(val as int) <= usize::MAX,
    ensures
        r == page_aligned(val as int),
        r % PAGE_SIZE == 0,
        val <= r < val + PAGE_SIZE,
{
    if val % PAGE_SIZE == 0 {
        val
    } else {
        ((val / PAGE_SIZE) + 1) * PAGE_SIZE
    }
}

/// Whether `range` is valid.
pub fn is_valid(range: &MemoryRange) -> (r: bool)
    ensures
        r == range.valid(),
{
    range.size > 0 && range.size - 1 <= usize::MAX - range.address
}

/// The valid ranges of `ranges`, in their order.
pub fn retain_valid(ranges: &[MemoryRange]) -> (kept: Vec<MemoryRange>)
    ensures
        kept@ == valid_only(ranges@),
        all_valid(kept@),
{
    let mut kept: Vec<MemoryRange> = Vec::new();
    let mut i: usize = 0;
    while i < ranges.len()
        invariant
            i <= ranges@.len(),
            kept@ == valid_only(ranges@.take(i as int)),
            all_valid(kept@),
        decreases ranges@.len() - i,
    {
        let range = ranges[i];
        proof {
            assert(ranges@.take(i + 1).drop_last() =~= ranges@.take(i as int));
        }
        if is_valid(&range) {
            kept.push(range);
        }
        i += 1;
    }
    proof {
        assert(ranges@.take(i as int) =~= ranges@);
    }
    kept
}

/// Inserting at the place found by scanning from the back is what
/// `insert_by_address` describes.
proof fn lemma_insert_at(s: Seq<MemoryRange>, x: MemoryRange, at: int)
    requires
        0 <= at <= s.len(),
        at > 0 ==> s[at - 1].address <= x.address,
        forall|k: int| at <= k < s.len() ==> (#[trigger] s[k]).address > x.address,
    ensures
        insert_by_address(s, x) == s.insert(at, x),
    decreases s.len(),
{
    if s.len() == 0 {
        assert(s.insert(at, x) =~= seq![x]);
    } else if at == s.len() {
        assert(s.insert(at, x) =~= s.push(x));
    } else {
        assert(s.last().address > x.address);
        lemma_insert_at(s.drop_last(), x, at);
        assert(s.insert(at, x) =~= s.drop_last().insert(at, x).push(s.last()));
    }
}

/// The ranges of `ranges` by ascending address; ranges of one address keep
/// their order.
pub fn sort_ranges(ranges: &[MemoryRange]) -> (sorted: Vec<MemoryRange>)
    ensures
        sorted@ == sort_by_address(ranges@),
{
    let mut sorted: Vec<MemoryRange> = Vec::new();
    let mut i: usize = 0;
    while i < ranges.len()
        invariant
            i <= ranges@.len(),
            sorted@ == sort_by_address(ranges@.take(i as int)),
            sorted@.len() == i,
        decreases ranges@.len() - i,
    {
        let x = ranges[i];
        let mut at: usize = sorted.len();
        while at > 0 && sorted[at - 1].address > x.address
            invariant
                at <= sorted@.len(),
                forall|k: int| at <= k < sorted@.len() ==> (#[trigger] sorted@[k]).address > x.address,
            decreases at,
        {
            at -= 1;
        }
        proof {
            lemma_insert_at(sorted@, x, at as int);
            assert(ranges@.take(i + 1).drop_last() =~= ranges@.take(i as int));
        }
        sorted.insert(at, x);
        i += 1;
    }
    proof {
        assert(ranges@.take(i as int) =~= ranges@);
    }
    sorted
}

/// Cuts the reserved ranges out of the available ones: each available range
/// is swept once over all reserved ranges, in their order.
pub fn subtract_reserved(available: &[MemoryRange], reserved: &[MemoryRange]) -> (kept: Vec<
    MemoryRange,
>)
    requires
        all_valid(available@),
        all_valid(reserved@),
    ensures
        kept@ == subtract(available@, reserved@),
{
    let mut kept: Vec<MemoryRange> = Vec::new();
    let mut i: usize = 0;
    while i < available.len()
        invariant
            i <= available@.len(),
            all_valid(available@),
            all_valid(reserved@),
            kept@ == subtract(available@.take(i as int), reserved@),
        decreases available@.len() - i,
    {
        let whole = available[i];
        let mut start: usize = whole.address;
        let end: usize = whole.end_address();
        let ghost target = kept@ + sweep(whole, reserved@, 0);
        let mut consumed = false;
        let mut j: usize = 0;
        proof {
            assert(available@[i as int].valid());
            assert(MemoryRange::spanning(start as int, end as int) == whole);
        }
        while j < reserved.len() && !consumed
            invariant
                j <= reserved@.len(),
                all_valid(reserved@),
                start <= end,
                end - start < usize::MAX,
                consumed ==> kept@ == target,
                !consumed ==> kept@ + sweep(
                    MemoryRange::spanning(start as int, end as int),
                    reserved@,
                    j as int,
                ) == target,
            decreases reserved@.len() - j,
        {
            let r = reserved[j];
            proof {
                assert(reserved@[j as int].valid());
            }
            let r_end = r.end_address();
            let ghost remaining = MemoryRange::spanning(start as int, end as int);
            let ghost before = kept@;
            if r.address <= end && start <= r_end {
                if r.address > start {
                    kept.push(MemoryRange::from_start_and_end(start, r.address - 1));
                }
                if r_end >= end {
                    consumed = true;
                    proof {
                        assert(kept@ =~= before + sweep(remaining, reserved@, j as int));
                    }
                } else {
                    start = r_end + 1;
                    proof {
                        let head = if r.first() > remaining.first() {
                            seq![MemoryRange::spanning(remaining.first(), r.first() - 1)]
                        } else {
                            Seq::empty()
                        };
                        let rest = sweep(
                            MemoryRange::spanning(start as int, end as int),
                            reserved@,
                            j + 1,
                        );
                        assert(kept@ =~= before + head);
                        assert(kept@ + rest =~= before + (head + rest));
                    }
                }
            }
            j += 1;
        }
        if !consumed {
            proof {
                assert(kept@.push(MemoryRange::spanning(start as int, end as int)) =~= kept@ + seq![
                    MemoryRange::spanning(start as int, end as int),
                ]);
            }
            kept.push(MemoryRange::from_start_and_end(start, end));
        }
        proof {
            assert(available@.take(i + 1).drop_last() =~= available@.take(i as int));
        }
        i += 1;
    }
    proof {
        assert(available@.take(i as int) =~= available@);
    }
    kept
}

/// Bytes that the free-page buffer needs for one page address: an address
/// is one machine word.
pub open spec fn entry_size() -> int {
    vstd::layout::size_of::<usize>() as int
}

/// Bytes that the free-page buffer needs for one page address.
pub fn page_entry_size() -> (r: usize)
    ensures
        r == entry_size(),
        r == 4 || r == 8,
{
    broadcast use vstd::layout::layout_of_primitives;

    core::mem::size_of::<usize>()
}

/// Whether every range of `s` starts on a page boundary and holds whole pages.
pub open spec fn all_page_aligned(s: Seq<MemoryRange>) -> bool {
    forall|i: int| 0 <= i < s.len() ==> (#[trigger] s[i]).aligned_to(PAGE_SIZE as int)
}

/// Bytes, a multiple of the page size, that the free-page buffer for the
/// ranges of `s` takes: room for one address per page.
pub open spec fn buffer_size(s: Seq<MemoryRange>) -> int {
    page_aligned(page_count(s) * entry_size())
}

/// Index of the first range at or behind `from` that holds at least `needed`
/// bytes; the length of `s` if there is none.
pub open spec fn first_fit(s: Seq<MemoryRange>, needed: int, from: int) -> int
    decreases s.len() - from,
{
    if from < 0 || from >= s.len() {
        s.len() as int
    } else if s[from].size >= needed {
        from
    } else {
        first_fit(s, needed, from + 1)
    }
}

/// The ranges of `s` after `needed` bytes were taken from the start of the
/// range at index `at`. A range that is used up leaves the sequence.
pub open spec fn carved(s: Seq<MemoryRange>, at: int, needed: int) -> Seq<MemoryRange> {
    if s[at].size == needed {
        s.remove(at)
    } else {
        s.update(
            at,
            MemoryRange {
                address: (s[at].address + needed) as usize,
                size: (s[at].size - needed) as usize,
            },
        )
    }
}

/// The bytes that are taken when `needed` bytes are carved from the start of
/// the range at index `at`.
pub open spec fn buffer_range(s: Seq<MemoryRange>, at: int, needed: int) -> MemoryRange {
    MemoryRange { address: s[at].address, size: needed as usize }
}

/// Where the free-page buffer lies, and how many page addresses it holds.
#[derive(Clone, Copy, Debug, PartialEq, Eq, Structural)]
pub struct PageBuffer {
    pub address: PhysicalAddr,
    pub capacity: usize,
}

/// Why the page allocator could not be set up.
#[derive(Clone, Copy, Debug, PartialEq, Eq, Structural)]
pub enum BootstrapError {
    /// A range of the memory map does not start on a page boundary, or does
    /// not hold whole pages.
    MapNotPageAligned,
    /// No range of the memory map is large enough for the free-page buffer.
    NoRangeForBuffer,
    /// The buffer cannot hold the pages of the memory map and one free slot.
    BufferTooSmall,
}

/// The ranges of physical memory that are present and not reserved.
pub struct MemoryMap {
    areas: CapacityVec<MemoryRange, MAX_AREAS>,
}

impl View for MemoryMap {
    type V = Seq<MemoryRange>;

    closed spec fn view(&self) -> Seq<MemoryRange> {
        self.areas@
    }
}

/// The pages of a sequence of ranges are bounded by its length.
pub proof fn lemma_page_count_bound(s: Seq<MemoryRange>)
    ensures
        0 <= page_count(s),
        page_count(s) * PAGE_SIZE <= s.len() * usize::MAX,
    decreases s.len(),
{
    if s.len() > 0 {
        lemma_page_count_bound(s.drop_last());
        let n = s.drop_last().len() as int;
        let m = usize::MAX as int;
        assert((n + 1) * m == n * m + m) by (nonlinear_arith);
    }
}

/// Page-aligned ranges that are valid hold at least one page each.
pub proof fn lemma_page_count_aligned(s: Seq<MemoryRange>)
    requires
        all_valid(s),
        all_page_aligned(s),
    ensures
        page_count(s) >= s.len(),
    decreases s.len(),
{
    if s.len() > 0 {
        assert forall|i: int| 0 <= i < s.drop_last().len() implies (#[trigger] s.drop_last()[i]).valid()
            && s.drop_last()[i].aligned_to(PAGE_SIZE as int) by {
            assert(s[i].valid() && s[i].aligned_to(PAGE_SIZE as int));
        }
        lemma_page_count_aligned(s.drop_last());
        assert(s.last().valid() && s.last().aligned_to(PAGE_SIZE as int));
    }
}

/// The pages that are left when a whole number of pages is carved from a
/// page-aligned range.
pub proof fn lemma_page_count_carved(s: Seq<MemoryRange>, at: int, needed: int)
    requires
        0 <= at < s.len(),
        0 <= needed <= s[at].size,
        needed % (PAGE_SIZE as int) == 0,
        s[at].size as int % (PAGE_SIZE as int) == 0,
        s[at].address + s[at].size - 1 <= usize::MAX,
    ensures
        page_count(carved(s, at, needed)) == page_count(s) - needed / (PAGE_SIZE as int),
    decreases s.len(),
{
    let c = carved(s, at, needed);
    if at == s.len() - 1 {
        if s[at].size == needed {
            assert(c =~= s.drop_last());
        } else {
            assert(c.drop_last() =~= s.drop_last());
        }
    } else {
        lemma_page_count_carved(s.drop_last(), at, needed);
        if s[at].size == needed {
            assert(c.drop_last() =~= s.drop_last().remove(at));
        } else {
            assert(c.drop_last() =~= carved(s.drop_last(), at, needed));
        }
        assert(c.last() == s.last());
    }
}

impl MemoryMap {
    /// The map holds at most `MAX_AREAS` ranges, and each one is valid.
    pub open spec fn wf(&self) -> bool {
        self@.len() <= MAX_AREAS && all_valid(self@)
    }

    /// The ranges of the map are disjoint and come by ascending address.
    /// A map has this order whenever the memory that it was built from came
    /// in ranges that share no byte.
    pub open spec fn ordered(&self) -> bool {
        strictly_ordered(self@)
    }

    /// The memory map of the given available and reserved ranges.
    pub fn from_ranges(available: &[MemoryRange], reserved: &[MemoryRange]) -> (map: MemoryMap)
        ensures
            map.wf(),
            map@ == map_of(available@, reserved@),
            clear_of(map@, valid_only(reserved@)),
            crate::memory::map_laws::share_no_byte(available@) ==> map.ordered(),
    {
        let available_valid = retain_valid(available);
        let reserved_valid = retain_valid(reserved);
        let available_sorted = sort_ranges(available_valid.as_slice());
        let reserved_sorted = sort_ranges(reserved_valid.as_slice());
        proof {
            crate::memory::map_laws::lemma_sort_by_address(available_valid@);
            crate::memory::map_laws::lemma_sort_by_address(reserved_valid@);
            crate::memory::map_laws::lemma_subtract_sound(available_sorted@, reserved_sorted@);
            crate::memory::map_laws::lemma_map_of(available@, reserved@);
            if crate::memory::map_laws::share_no_byte(available@) {
                crate::memory::map_laws::lemma_sorted_apart(available@);
            }
        }
        let kept = subtract_reserved(available_sorted.as_slice(), reserved_sorted.as_slice());
        let areas = CapacityVec::from_slice(kept.as_slice());
        MemoryMap { areas }
    }

    /// The ranges of the map, by ascending address.
    pub fn available_areas(&self) -> (r: &[MemoryRange])
        ensures
            r@ == self@,
    {
        self.areas.as_slice()
    }

    /// Whether every range starts on a page boundary and holds whole pages.
    pub fn is_page_aligned(&self) -> (r: bool)
        ensures
            r == all_page_aligned(self@),
    {
        let areas = self.areas.as_slice();
        let mut i: usize = 0;
        while i < areas.len()
            invariant
                i <= areas@.len(),
                areas@ == self@,
                forall|k: int| 0 <= k < i ==> (#[trigger] areas@[k]).aligned_to(PAGE_SIZE as int),
            decreases areas@.len() - i,
        {
            if areas[i].address % PAGE_SIZE != 0 || areas[i].size % PAGE_SIZE != 0 {
                assert(!areas@[i as int].aligned_to(PAGE_SIZE as int));
                return false;
            }
            i += 1;
        }
        true
    }

    /// Number of whole pages in the ranges of the map.
    pub fn total_pages(&self) -> (r: usize)
        requires
            self.wf(),
        ensures
            r == page_count(self@),
            r * 8 + PAGE_SIZE <= usize::MAX,
    {
        let areas = self.areas.as_slice();
        let mut total: usize = 0;
        let mut i: usize = 0;
        while i < areas.len()
            invariant
                i <= areas@.len(),
                areas@.len() <= MAX_AREAS,
                total == page_count(areas@.take(i as int)),
            decreases areas@.len() - i,
        {
            proof {
                let next = areas@.take(i + 1);
                assert(next.drop_last() =~= areas@.take(i as int));
                lemma_page_count_bound(next);
                let m = usize::MAX as int;
                assert(next.len() * m <= 64 * m) by (nonlinear_arith)
                    requires
                        next.len() <= 64,
                        m >= 0,
                ;
            }
            total += areas[i].size / PAGE_SIZE;
            i += 1;
        }
        proof {
            assert(areas@.take(i as int) =~= areas@);
            lemma_page_count_bound(areas@);
            let m = usize::MAX as int;
            assert(areas@.len() * m <= 64 * m) by (nonlinear_arith)
                requires
                    areas@.len() <= 64,
                    m >= 0,
            ;
        }
        total
    }

    /// Takes the free-page buffer from the map: room for one page address per
    /// page of the map, rounded up to whole pages, carved from the start of
    /// the first range that is large enough.
    pub fn prepare_buffer(&mut self) -> (r: Result<PageBuffer, BootstrapError>)
        requires
            old(self).wf(),
        ensures
            final(self).wf(),
            old(self).ordered() ==> final(self).ordered(),
            match r {
                Ok(buffer) => {
                    let at = first_fit(old(self)@, buffer_size(old(self)@), 0);
                    &&& all_page_aligned(old(self)@)
                    &&& at < old(self)@.len()
                    &&& buffer.address.0 == old(self)@[at].address
                    &&& buffer.capacity == page_count(old(self)@)
                    &&& final(self)@ == carved(old(self)@, at, buffer_size(old(self)@))
                    &&& all_page_aligned(final(self)@)
                    &&& page_count(final(self)@) < buffer.capacity
                },
                Err(BootstrapError::MapNotPageAligned) => {
                    &&& !all_page_aligned(old(self)@)
                    &&& final(self)@ == old(self)@
                },
                Err(BootstrapError::NoRangeForBuffer) => {
                    &&& all_page_aligned(old(self)@)
                    &&& first_fit(old(self)@, buffer_size(old(self)@), 0) == old(self)@.len()
                    &&& final(self)@ == old(self)@
                },
                Err(BootstrapError::BufferTooSmall) => false,
            },
    {
        if !self.is_page_aligned() {
            return Err(BootstrapError::MapNotPageAligned);
        }
        let total_pages = self.total_pages();
        let entry = page_entry_size();
        assert(total_pages * entry == if entry == 4 {
            total_pages * 4
        } else {
            total_pages * 8
        });
        let needed = page_align(total_pages * entry);
        let mut at: usize = 0;
        while at < self.areas.len() && self.areas.get(at).size < needed
            invariant
                at <= self@.len(),
                self.areas@ == self@,
                first_fit(self@, needed as int, 0) == first_fit(self@, needed as int, at as int),
            decreases self@.len() - at,
        {
            at += 1;
        }
        if at >= self.areas.len() {
            return Err(BootstrapError::NoRangeForBuffer);
        }
        let range = *self.areas.get(at);
        proof {
            assert(self@[at as int].valid());
            assert(self@[at as int].aligned_to(PAGE_SIZE as int));
            lemma_page_count_aligned(self@);
            lemma_page_count_carved(self@, at as int, needed as int);
            crate::memory::map_laws::lemma_carved(self@, at as int, needed as int);
        }
        if range.size == needed {
            self.areas.remove(at);
        } else {
            self.areas.set(
                at,
                MemoryRange { address: range.address + needed, size: range.size - needed },
            );
        }
        proof {
            let after = self@;
            let before = old(self)@;
            assert forall|i: int| 0 <= i < after.len() implies (#[trigger] after[i]).valid()
                && after[i].aligned_to(PAGE_SIZE as int) by {
                if range.size == needed {
                    if i < at {
                        assert(after[i] == before[i]);
                    } else {
                        assert(after[i] == before[i + 1]);
                    }
                    assert(before[i].valid() && before[i + 1].valid());
                    assert(before[i].aligned_to(PAGE_SIZE as int));
                    assert(before[i + 1].aligned_to(PAGE_SIZE as int));
                } else {
                    assert(before[i].valid());
                    assert(before[i].aligned_to(PAGE_SIZE as int));
                }
            }
        }
        Ok(PageBuffer { address: PhysicalAddr(range.address), capacity: total_pages })
    }
}

} // verus!
