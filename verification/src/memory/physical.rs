//! The physical page allocator: a ring of the addresses of the free pages.
//!
//! The allocator is for one owner at a time. Where several hardware threads
//! share it, a lock around it has to put their calls in a row; the exclusive
//! borrow that every call takes says as much.

use vstd::prelude::*;
use crate::memory::map::{
    all_page_aligned, all_valid, buffer_range, buffer_size, carved, first_fit, page_count,
    strictly_ordered, BootstrapError, MemoryMap, PageBuffer,
};
pub use crate::memory::types::PhysicalAddr;
use crate::memory::{MemoryRange, PAGE_SIZE};

verus! {

/// The addresses of the whole pages of `range`, ascending.
pub open spec fn pages_of(range: MemoryRange) -> Seq<PhysicalAddr> {
    Seq::new(
        (range.size as int / PAGE_SIZE as int) as nat,
        |k: int| PhysicalAddr((range.address + k * PAGE_SIZE) as usize),
    )
}

/// The addresses of the whole pages of the ranges of `s`, range after range.
pub open spec fn page_addresses(s: Seq<MemoryRange>) -> Seq<PhysicalAddr>
    decreases s.len(),
{
    if s.len() == 0 {
        Seq::empty()
    } else {
        page_addresses(s.drop_last()) + pages_of(s.last())
    }
}

/// The state of the allocator: the slots of its buffer and the two cursors.
/// The free pages are those in the slots from `first` up to, not including,
/// `last`, going round at the end of the buffer.
pub struct FreeList {
    pub slots: Seq<PhysicalAddr>,
    pub first: int,
    pub last: int,
}

impl FreeList {
    /// Both cursors point into the buffer.
    pub open spec fn wf(self) -> bool {
        0 <= self.first < self.slots.len() && 0 <= self.last < self.slots.len()
    }

    /// Number of slots of the buffer.
    pub open spec fn capacity(self) -> int {
        self.slots.len() as int
    }

    /// Number of free pages.
    pub open spec fn count(self) -> int {
        if self.last >= self.first {
            self.last - self.first
        } else {
            self.last - self.first + self.slots.len()
        }
    }

    /// The free pages, in the order in which they will be handed out.
    pub open spec fn pages(self) -> Seq<PhysicalAddr> {
        Seq::new(
            self.count() as nat,
            |i: int| self.slots[(self.first + i) % (self.slots.len() as int)],
        )
    }

    /// The state right after construction: `pages` in the first slots, all of
    /// them free.
    pub open spec fn fresh(pages: Seq<PhysicalAddr>, capacity: int) -> FreeList {
        FreeList {
            slots: pages + Seq::new((capacity - pages.len()) as nat, |i: int| PhysicalAddr(0)),
            first: 0,
            last: pages.len() as int,
        }
    }

    /// The page that a request hands out in this state, if any.
    pub open spec fn requested(self) -> Option<PhysicalAddr> {
        if self.first == self.last {
            None
        } else {
            Some(self.slots[self.first])
        }
    }

    /// The state after a request.
    pub open spec fn after_request(self) -> FreeList {
        if self.first == self.last {
            self
        } else {
            FreeList { first: (self.first + 1) % (self.slots.len() as int), ..self }
        }
    }

    /// The state after `page` was given back.
    pub open spec fn after_free(self, page: PhysicalAddr) -> FreeList {
        FreeList {
            slots: self.slots.update(self.last, page),
            last: (self.last + 1) % (self.slots.len() as int),
            ..self
        }
    }

    /// The state after `n` requests in a row.
    pub open spec fn after_requests(self, n: nat) -> FreeList
        decreases n,
    {
        if n == 0 {
            self
        } else {
            self.after_request().after_requests((n - 1) as nat)
        }
    }
}

/// The ranges that the allocator serves when it is set up on a memory map
/// with the ranges `map`: those that are left when the free-page buffer was
/// taken from the first range that is large enough.
pub open spec fn served_areas(map: Seq<MemoryRange>) -> Seq<MemoryRange> {
    carved(map, first_fit(map, buffer_size(map), 0), buffer_size(map))
}

/// The state of the allocator right after it was set up on a memory map with
/// the ranges `map`.
pub open spec fn fresh_on(map: Seq<MemoryRange>) -> FreeList {
    FreeList::fresh(page_addresses(served_areas(map)), page_count(map))
}

/// Whether an allocator can be set up on a memory map with the ranges
/// `map`: the ranges are valid, disjoint, in ascending order and
/// page-aligned, and one of them is large enough for the free-page buffer.
pub open spec fn serves(map: Seq<MemoryRange>) -> bool {
    &&& all_valid(map)
    &&& strictly_ordered(map)
    &&& all_page_aligned(map)
    &&& first_fit(map, buffer_size(map), 0) < map.len()
}

/// The bytes that the free-page buffer of an allocator on `map` takes.
pub open spec fn buffer_of(map: Seq<MemoryRange>) -> MemoryRange {
    buffer_range(map, first_fit(map, buffer_size(map), 0), buffer_size(map))
}

/// Hands out the pages of a memory map one by one and takes them back.
///
/// The buffer has a slot for each page that the memory map held before the
/// buffer was taken from it. The buffer takes a page at least, so a slot
/// always stays unused, and a full ring cannot be taken for an empty one.
pub struct PhysicalMemoryManager {
    buffer: Vec<PhysicalAddr>,
    total_pages: usize,
    first: usize,
    last: usize,
}

impl View for PhysicalMemoryManager {
    type V = FreeList;

    closed spec fn view(&self) -> FreeList {
        FreeList { slots: self.buffer@, first: self.first as int, last: self.last as int }
    }
}

impl PhysicalMemoryManager {
    /// Number of pages that the allocator was built with.
    pub closed spec fn page_total(&self) -> int {
        self.total_pages as int
    }

    /// The cursors point into the buffer, and the buffer has a slot more than
    /// the allocator has pages.
    pub open spec fn wf(&self) -> bool {
        self@.wf() && 0 <= self.page_total() < self@.capacity()
    }

    /// Fills a buffer of `buffer.capacity` slots with the addresses of the
    /// pages of `memory_map`, range after range, all of them free.
    pub fn with_buffer(memory_map: &MemoryMap, buffer: PageBuffer) -> (r: Result<
        PhysicalMemoryManager,
        BootstrapError,
    >)
        requires
            memory_map.wf(),
        ensures
            match r {
                Ok(manager) => {
                    &&& all_page_aligned(memory_map@)
                    &&& page_count(memory_map@) < buffer.capacity
                    &&& manager.wf()
                    &&& manager@ == FreeList::fresh(
                        page_addresses(memory_map@),
                        buffer.capacity as int,
                    )
                    &&& manager.page_total() == page_count(memory_map@)
                },
                Err(BootstrapError::MapNotPageAligned) => !all_page_aligned(memory_map@),
                Err(BootstrapError::BufferTooSmall) => {
                    &&& all_page_aligned(memory_map@)
                    &&& buffer.capacity <= page_count(memory_map@)
                },
                Err(BootstrapError::NoRangeForBuffer) => false,
            },
    {
        if !memory_map.is_page_aligned() {
            return Err(BootstrapError::MapNotPageAligned);
        }
        let total_pages = memory_map.total_pages();
        if buffer.capacity <= total_pages {
            return Err(BootstrapError::BufferTooSmall);
        }
        let areas = memory_map.available_areas();
        let mut slots: Vec<PhysicalAddr> = Vec::new();
        let mut i: usize = 0;
        while i < areas.len()
            invariant
                i <= areas@.len(),
                all_valid(areas@),
                slots@ == page_addresses(areas@.take(i as int)),
            decreases areas@.len() - i,
        {
            let range = areas[i];
            let pages = range.size / PAGE_SIZE;
            let ghost before = slots@;
            let mut k: usize = 0;
            proof {
                assert(areas@[i as int].valid());
            }
            while k < pages
                invariant
                    k <= pages,
                    range.valid(),
                    pages == range.size / PAGE_SIZE,
                    slots@ == before + pages_of(range).take(k as int),
                decreases pages - k,
            {
                assert(k * PAGE_SIZE <= (pages - 1) * PAGE_SIZE) by (nonlinear_arith)
                    requires
                        k <= pages - 1,
                ;
                slots.push(PhysicalAddr(range.address + k * PAGE_SIZE));
                k += 1;
                proof {
                    assert(pages_of(range).take(k as int) =~= pages_of(range).take(k - 1).push(
                        pages_of(range)[k - 1],
                    ));
                    assert(slots@ =~= before + pages_of(range).take(k as int));
                }
            }
            proof {
                assert(pages_of(range).take(k as int) =~= pages_of(range));
                assert(areas@.take(i + 1).drop_last() =~= areas@.take(i as int));
            }
            i += 1;
        }
        proof {
            assert(areas@.take(i as int) =~= areas@);
            lemma_page_addresses_len(areas@);
        }
        let ghost pages = slots@;
        while slots.len() < buffer.capacity
            invariant
                pages.len() <= slots@.len() <= buffer.capacity,
                slots@ == pages + Seq::new(
                    (slots@.len() - pages.len()) as nat,
                    |i: int| PhysicalAddr(0),
                ),
            decreases buffer.capacity - slots@.len(),
        {
            let ghost before = slots@;
            slots.push(PhysicalAddr(0));
            proof {
                assert(slots@ =~= pages + Seq::new(
                    (slots@.len() - pages.len()) as nat,
                    |i: int| PhysicalAddr(0),
                ));
            }
        }
        Ok(PhysicalMemoryManager { buffer: slots, total_pages, first: 0, last: total_pages })
    }

    /// Sets the allocator up on `memory_map`: takes the free-page buffer from
    /// the map, and fills it with the pages that are left.
    pub fn new(memory_map: &mut MemoryMap) -> (r: Result<PhysicalMemoryManager, BootstrapError>)
        requires
            old(memory_map).wf(),
        ensures
            final(memory_map).wf(),
            old(memory_map).ordered() ==> final(memory_map).ordered(),
            match r {
                Ok(manager) => {
                    &&& all_page_aligned(old(memory_map)@)
                    &&& first_fit(old(memory_map)@, buffer_size(old(memory_map)@), 0) < old(
                        memory_map,
                    )@.len()
                    &&& old(memory_map).ordered() ==> serves(old(memory_map)@)
                    &&& final(memory_map)@ == served_areas(old(memory_map)@)
                    &&& manager.wf()
                    &&& manager@ == fresh_on(old(memory_map)@)
                    &&& manager.page_total() == page_count(final(memory_map)@)
                },
                Err(BootstrapError::MapNotPageAligned) => {
                    &&& !all_page_aligned(old(memory_map)@)
                    &&& final(memory_map)@ == old(memory_map)@
                },
                Err(BootstrapError::NoRangeForBuffer) => {
                    &&& all_page_aligned(old(memory_map)@)
                    &&& first_fit(old(memory_map)@, buffer_size(old(memory_map)@), 0) == old(
                        memory_map,
                    )@.len()
                    &&& final(memory_map)@ == old(memory_map)@
                },
                Err(BootstrapError::BufferTooSmall) => false,
            },
    {
        match memory_map.prepare_buffer() {
            Ok(buffer) => PhysicalMemoryManager::with_buffer(memory_map, buffer),
            Err(e) => Err(e),
        }
    }

    /// Hands out the free page that has waited longest, if there is one.
    pub fn request_page(&mut self) -> (r: Option<PhysicalAddr>)
        requires
            old(self).wf(),
        ensures
            final(self).wf(),
            r == old(self)@.requested(),
            final(self)@ == old(self)@.after_request(),
            final(self).page_total() == old(self).page_total(),
    {
        if self.first == self.last {
            return None;
        }
        let capacity = self.buffer.len();
        let area = self.buffer[self.first];
        self.first = (self.first + 1) % capacity;
        Some(area)
    }

    /// Takes `page` back. Nothing is asked of `page`: that it was handed out
    /// by this allocator and has not been given back before is for the caller
    /// to see to.
    pub fn free_page(&mut self, page: PhysicalAddr)
        requires
            old(self).wf(),
        ensures
            final(self).wf(),
            final(self)@ == old(self)@.after_free(page),
            final(self).page_total() == old(self).page_total(),
    {
        let capacity = self.buffer.len();
        let at = self.last % capacity;
        proof {
            vstd::arithmetic::div_mod::lemma_small_mod(self.last as nat, capacity as nat);
        }
        self.buffer[at] = page;
        self.last = (self.last + 1) % capacity;
    }

    /// Number of pages that the allocator was built with.
    pub fn total_pages(&self) -> (r: usize)
        ensures
            r == self.page_total(),
    {
        self.total_pages
    }
}

/// There is one page address for each whole page.
pub proof fn lemma_page_addresses_len(s: Seq<MemoryRange>)
    ensures
        page_addresses(s).len() == page_count(s),
    decreases s.len(),
{
    if s.len() > 0 {
        lemma_page_addresses_len(s.drop_last());
    }
}

} // verus!
