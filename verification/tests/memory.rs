use bootcore::data_structures::capacity_vec::CapacityVec;
use bootcore::memory::allocator::bump;
use bootcore::memory::map::{
    is_valid, page_align, retain_valid, sort_ranges, subtract_reserved, BootstrapError, MemoryMap,
    PageBuffer, MAX_AREAS,
};
use bootcore::memory::physical::{PhysicalAddr, PhysicalMemoryManager};
use bootcore::memory::types::PhysicalAddrRange;
use bootcore::memory::{MemoryRange, PAGE_SIZE};

fn range(first: usize, behind: usize) -> MemoryRange {
    MemoryRange::from_address_and_size(first, behind - first)
}

#[test]
fn range_is_told_by_address_and_size() {
    let r = MemoryRange::from_address_and_size(0x1000, 0x234);
    assert_eq!(r.address(), 0x1000);
    assert_eq!(r.size(), 0x234);
    assert_eq!(r.end_address(), 0x1233);
    assert_eq!(r, MemoryRange::from_start_and_end(0x1000, 0x1233));
    assert_eq!(r, MemoryRange::from((0x1000, 0x234)));
    let one = MemoryRange::from_start_and_end(7, 7);
    assert_eq!((one.address(), one.size(), one.end_address()), (7, 1, 7));
    let top = MemoryRange::from_address_and_size(usize::MAX - 3, 4);
    assert_eq!(top.end_address(), usize::MAX);
}

#[test]
fn validity_of_ranges() {
    assert!(is_valid(&MemoryRange::from_address_and_size(0, 1)));
    assert!(is_valid(&MemoryRange::from_address_and_size(usize::MAX, 1)));
    assert!(is_valid(&MemoryRange::from_address_and_size(0, usize::MAX)));
    assert!(!is_valid(&MemoryRange::from_address_and_size(5, 0)));
    assert!(!is_valid(&MemoryRange::from_address_and_size(usize::MAX, 2)));
    assert!(!is_valid(&MemoryRange::from_address_and_size(2, usize::MAX)));
    let kept = retain_valid(&[
        MemoryRange::from_address_and_size(5, 0),
        MemoryRange::from_address_and_size(9, 1),
        MemoryRange::from_address_and_size(usize::MAX, 2),
        MemoryRange::from_address_and_size(3, 1),
    ]);
    assert_eq!(
        kept,
        vec![MemoryRange::from_address_and_size(9, 1), MemoryRange::from_address_and_size(3, 1)]
    );
}

#[test]
fn aligned_subset_follows_its_formula() {
    let r = MemoryRange::from_address_and_size(0x2000, 0x3000).aligned_subset(0x1000);
    assert_eq!((r.address(), r.size()), (0x2000, 0x3000));
    // 10 % 4 = 2, (2 + 1) * 4 = 12; 7 % 4 = 3, 3 * 4 = 12
    let r = MemoryRange::from_address_and_size(10, 7).aligned_subset(4);
    assert_eq!((r.address(), r.size()), (12, 12));
    // 0x1234 % 0x1000 = 0x234
    let r = MemoryRange::from_address_and_size(0x1234, 0x1000).aligned_subset(0x1000);
    assert_eq!((r.address(), r.size()), (0x235 * 0x1000, 0x1000));
}

#[test]
fn page_align_rounds_up() {
    assert_eq!(PAGE_SIZE, 4096);
    assert_eq!(page_align(0), 0);
    assert_eq!(page_align(1), 4096);
    assert_eq!(page_align(4095), 4096);
    assert_eq!(page_align(4096), 4096);
    assert_eq!(page_align(4097), 8192);
    assert_eq!(page_align(257920), 258048);
}

#[test]
fn sorting_is_by_address_and_stable() {
    let sorted = sort_ranges(&[
        MemoryRange::from_address_and_size(30, 1),
        MemoryRange::from_address_and_size(10, 1),
        MemoryRange::from_address_and_size(20, 1),
        MemoryRange::from_address_and_size(10, 2),
        MemoryRange::from_address_and_size(5, 9),
        MemoryRange::from_address_and_size(10, 3),
    ]);
    let seen: Vec<(usize, usize)> = sorted.iter().map(|r| (r.address(), r.size())).collect();
    assert_eq!(seen, vec![(5, 9), (10, 1), (10, 2), (10, 3), (20, 1), (30, 1)]);
    assert!(sort_ranges(&[]).is_empty());
}

#[test]
fn subtraction_splits_a_range_around_a_reserved_one() {
    let available = [range(0x8000_0000, 0x8800_0000)];
    let reserved = [range(0x8001_0000, 0x8002_0000)];
    assert_eq!(
        subtract_reserved(&available, &reserved),
        vec![range(0x8000_0000, 0x8001_0000), range(0x8002_0000, 0x8800_0000)]
    );
    let map = MemoryMap::from_ranges(&available, &reserved);
    assert_eq!(
        map.available_areas(),
        &[range(0x8000_0000, 0x8001_0000), range(0x8002_0000, 0x8800_0000)]
    );
}

#[test]
fn subtraction_on_the_edges() {
    let whole = [range(100, 200)];
    assert_eq!(subtract_reserved(&whole, &[]), vec![range(100, 200)]);
    assert_eq!(subtract_reserved(&[], &whole), vec![]);
    // nothing shared
    assert_eq!(subtract_reserved(&whole, &[range(0, 100), range(200, 300)]), vec![range(100, 200)]);
    // the start, the end, all of it
    assert_eq!(subtract_reserved(&whole, &[range(50, 120)]), vec![range(120, 200)]);
    assert_eq!(subtract_reserved(&whole, &[range(100, 101)]), vec![range(101, 200)]);
    assert_eq!(subtract_reserved(&whole, &[range(180, 250)]), vec![range(100, 180)]);
    assert_eq!(subtract_reserved(&whole, &[range(199, 200)]), vec![range(100, 199)]);
    assert_eq!(subtract_reserved(&whole, &[range(100, 200)]), vec![]);
    assert_eq!(subtract_reserved(&whole, &[range(0, 1000)]), vec![]);
    // several, back to back and overlapping
    assert_eq!(
        subtract_reserved(&whole, &[range(110, 120), range(120, 130), range(125, 140), range(150, 160)]),
        vec![range(100, 110), range(140, 150), range(160, 200)]
    );
    // several available ranges
    assert_eq!(
        subtract_reserved(&[range(0, 10), range(20, 30), range(40, 50)], &[range(5, 25), range(45, 60)]),
        vec![range(0, 5), range(25, 30), range(40, 45)]
    );
    // the top of the address space
    let top = MemoryRange::from_start_and_end(usize::MAX - 9, usize::MAX);
    let cut = MemoryRange::from_start_and_end(usize::MAX - 4, usize::MAX);
    assert_eq!(
        subtract_reserved(&[top], &[cut]),
        vec![MemoryRange::from_start_and_end(usize::MAX - 9, usize::MAX - 5)]
    );
}

#[test]
fn subtraction_twice_is_subtraction_once() {
    let available = [range(0, 1000), range(2000, 3000), range(5000, 5001)];
    let reserved = [range(10, 20), range(500, 2500), range(2500, 2600), range(2999, 6000)];
    let once = subtract_reserved(&available, &reserved);
    assert_eq!(
        once,
        vec![range(0, 10), range(20, 500), range(2600, 2999)]
    );
    let twice = subtract_reserved(&once, &reserved);
    assert_eq!(twice, once);
}

#[test]
fn map_sorts_and_drops_what_is_no_range() {
    let empty = MemoryRange::from_address_and_size(0x5000, 0);
    let map = MemoryMap::from_ranges(
        &[range(0x4000, 0x6000), empty, range(0x1000, 0x3000)],
        &[range(0x5000, 0x5800), empty, range(0x0, 0x1800)],
    );
    assert_eq!(
        map.available_areas(),
        &[range(0x1800, 0x3000), range(0x4000, 0x5000), range(0x5800, 0x6000)]
    );
    assert!(!map.is_page_aligned());
    assert_eq!(map.total_pages(), 1 + 1 + 0);
}

#[test]
fn map_keeps_no_more_than_its_capacity() {
    let available = [range(0, 10_000)];
    let reserved: Vec<MemoryRange> = (0..100).map(|i| range(100 * i + 50, 100 * i + 60)).collect();
    let map = MemoryMap::from_ranges(&available, &reserved);
    assert_eq!(MAX_AREAS, 64);
    assert_eq!(map.available_areas().len(), 64);
    assert_eq!(map.available_areas()[0], range(0, 50));
    assert_eq!(map.available_areas()[63], range(6260, 6350));
}

fn sample_map() -> MemoryMap {
    MemoryMap::from_ranges(
        &[range(0x8000_0000, 0x8800_0000)],
        &[range(0x8020_0000, 0x8040_0000), range(0x8001_0000, 0x8002_0000)],
    )
}

#[test]
fn buffer_is_carved_from_the_first_range_that_holds_it() {
    let mut map = sample_map();
    assert!(map.is_page_aligned());
    assert_eq!(map.total_pages(), 16 + 480 + 31744);
    let buffer = map.prepare_buffer().unwrap();
    // 32240 addresses of 8 bytes take 63 pages
    assert_eq!(buffer, PageBuffer { address: PhysicalAddr(0x8002_0000), capacity: 32240 });
    assert_eq!(
        map.available_areas(),
        &[
            range(0x8000_0000, 0x8001_0000),
            range(0x8005_f000, 0x8020_0000),
            range(0x8040_0000, 0x8800_0000),
        ]
    );
    assert_eq!(map.total_pages(), 32240 - 63);
}

#[test]
fn buffer_may_use_a_range_up() {
    let mut map = MemoryMap::from_ranges(&[range(0x1000, 0x2000), range(0x8000, 0xa000)], &[]);
    let buffer = map.prepare_buffer().unwrap();
    assert_eq!(buffer, PageBuffer { address: PhysicalAddr(0x1000), capacity: 3 });
    assert_eq!(map.available_areas(), &[range(0x8000, 0xa000)]);
}

#[test]
fn bootstrap_failures() {
    let mut unaligned = MemoryMap::from_ranges(&[range(0x1000, 0x2800)], &[]);
    assert_eq!(unaligned.prepare_buffer(), Err(BootstrapError::MapNotPageAligned));
    assert_eq!(unaligned.available_areas(), &[range(0x1000, 0x2800)]);
    assert_eq!(
        PhysicalMemoryManager::new(&mut unaligned).err(),
        Some(BootstrapError::MapNotPageAligned)
    );
    let buffer = PageBuffer { address: PhysicalAddr(0), capacity: 100 };
    assert_eq!(
        PhysicalMemoryManager::with_buffer(&unaligned, buffer).err(),
        Some(BootstrapError::MapNotPageAligned)
    );

    let mut empty = MemoryMap::from_ranges(&[], &[]);
    assert_eq!(empty.prepare_buffer(), Err(BootstrapError::NoRangeForBuffer));
    assert_eq!(PhysicalMemoryManager::new(&mut empty).err(), Some(BootstrapError::NoRangeForBuffer));

    // 1024 pages in pieces of one page: the buffer needs two pages in a row
    let pieces: Vec<MemoryRange> = (0..64).map(|i| range(0x2000 * i, 0x2000 * i + 0x1000)).collect();
    let mut scattered = MemoryMap::from_ranges(&pieces, &[]);
    assert_eq!(scattered.total_pages(), 64);
    assert!(scattered.prepare_buffer().is_ok());
    let pieces: Vec<MemoryRange> =
        (0..64).map(|i| range(0x20_0000 * i, 0x20_0000 * i + 0x1_0000)).collect();
    let mut scattered = MemoryMap::from_ranges(&pieces, &[]);
    assert_eq!(scattered.total_pages(), 64 * 16);
    assert_eq!(page_align(64 * 16 * 8), 0x2000);
    assert!(scattered.prepare_buffer().is_ok());

    let map = MemoryMap::from_ranges(&[range(0x1000, 0x4000)], &[]);
    let small = PageBuffer { address: PhysicalAddr(0), capacity: 3 };
    assert_eq!(
        PhysicalMemoryManager::with_buffer(&map, small).err(),
        Some(BootstrapError::BufferTooSmall)
    );
    let enough = PageBuffer { address: PhysicalAddr(0), capacity: 4 };
    assert!(PhysicalMemoryManager::with_buffer(&map, enough).is_ok());
}

#[test]
fn buffer_of_one_page_uses_a_range_of_one_page_up() {
    let pieces: Vec<MemoryRange> = (0..3).map(|i| range(0x2000 * i, 0x2000 * i + 0x1000)).collect();
    let mut map = MemoryMap::from_ranges(&pieces, &[]);
    let buffer = map.prepare_buffer().unwrap();
    assert_eq!(buffer.capacity, 3);
    assert_eq!(map.available_areas().len(), 2);
}

#[test]
fn allocator_hands_out_every_page_once() {
    let reserved = [range(0x8020_0000, 0x8040_0000), range(0x8001_0000, 0x8002_0000)];
    let available = [range(0x8000_0000, 0x8800_0000)];
    let mut map = MemoryMap::from_ranges(&available, &reserved);
    let mut manager = PhysicalMemoryManager::new(&mut map).unwrap();
    let total = manager.total_pages();
    assert_eq!(total, 32240 - 63);
    let mut seen = std::collections::HashSet::new();
    let mut last = None;
    for _ in 0..total {
        let page = manager.request_page().unwrap();
        assert_eq!(page.0 % PAGE_SIZE, 0);
        assert!(seen.insert(page));
        assert!(last < Some(page));
        last = Some(page);
        assert!(available.iter().any(|r| r.address() <= page.0 && page.0 + PAGE_SIZE - 1 <= r.end_address()));
        assert!(!reserved.iter().any(|r| r.address() <= page.0 && page.0 <= r.end_address()));
        // the buffer itself is not handed out
        assert!(!(0x8002_0000 <= page.0 && page.0 < 0x8005_f000));
        assert!(map
            .available_areas()
            .iter()
            .any(|r| r.address() <= page.0 && page.0 + PAGE_SIZE - 1 <= r.end_address()));
    }
    assert_eq!(seen.len(), total);
    assert_eq!(manager.request_page(), None);
    assert_eq!(manager.request_page(), None);
    assert_eq!(manager.total_pages(), total);
}

#[test]
fn allocator_hands_pages_out_in_the_order_of_the_map() {
    let mut map = MemoryMap::from_ranges(&[range(0x1000, 0x4000), range(0x8000, 0xa000)], &[]);
    let mut manager = PhysicalMemoryManager::new(&mut map).unwrap();
    assert_eq!(manager.total_pages(), 4);
    let pages: Vec<usize> = (0..4).map(|_| manager.request_page().unwrap().0).collect();
    assert_eq!(pages, vec![0x2000, 0x3000, 0x8000, 0x9000]);
    assert_eq!(manager.request_page(), None);
}

#[test]
fn freed_page_comes_back_last() {
    let mut map = MemoryMap::from_ranges(&[range(0x1000, 0x5000)], &[]);
    let mut manager = PhysicalMemoryManager::new(&mut map).unwrap();
    assert_eq!(manager.total_pages(), 3);
    let first = manager.request_page().unwrap();
    assert_eq!(first, PhysicalAddr(0x2000));
    manager.free_page(first);
    // as full as before: three pages, the freed one last
    assert_eq!(manager.request_page(), Some(PhysicalAddr(0x3000)));
    assert_eq!(manager.request_page(), Some(PhysicalAddr(0x4000)));
    assert_eq!(manager.request_page(), Some(PhysicalAddr(0x2000)));
    assert_eq!(manager.request_page(), None);
    // round the buffer more than once
    for _ in 0..10 {
        manager.free_page(PhysicalAddr(0x3000));
        manager.free_page(PhysicalAddr(0x4000));
        assert_eq!(manager.request_page(), Some(PhysicalAddr(0x3000)));
        manager.free_page(PhysicalAddr(0x2000));
        assert_eq!(manager.request_page(), Some(PhysicalAddr(0x4000)));
        assert_eq!(manager.request_page(), Some(PhysicalAddr(0x2000)));
        assert_eq!(manager.request_page(), None);
    }
}

#[test]
fn request_and_free_keep_the_number_of_free_pages() {
    let mut map = MemoryMap::from_ranges(&[range(0x10_0000, 0x20_0000)], &[]);
    let mut manager = PhysicalMemoryManager::new(&mut map).unwrap();
    let total = manager.total_pages();
    assert_eq!(total, 255);
    for _ in 0..1000 {
        let page = manager.request_page().unwrap();
        manager.free_page(page);
    }
    let mut seen = std::collections::HashSet::new();
    while let Some(page) = manager.request_page() {
        assert!(seen.insert(page));
    }
    assert_eq!(seen.len(), total);
}

#[test]
fn physical_address_ranges() {
    let r = PhysicalAddrRange::from_reg((0x1000, 0x20));
    assert_eq!(r.start(), PhysicalAddr(0x1000));
    assert_eq!(r.size(), 0x20);
    assert_eq!(r.end(), PhysicalAddr(0x101f));
    let r = PhysicalAddrRange::from_start_end(PhysicalAddr(0x1000), PhysicalAddr(0x101f));
    assert_eq!(r, PhysicalAddrRange::from_reg((0x1000, 0x20)));
    let one = PhysicalAddrRange::from_start_end(PhysicalAddr(5), PhysicalAddr(5));
    assert_eq!((one.start(), one.end(), one.size()), (PhysicalAddr(5), PhysicalAddr(5), 1));
    assert!(PhysicalAddr(1) < PhysicalAddr(2));
    // a range without bytes ends before it starts
    assert_eq!(PhysicalAddrRange::from_reg((0x1000, 0)).end(), PhysicalAddr(0xfff));
    assert_eq!(PhysicalAddrRange::from_reg((0, usize::MAX)).end(), PhysicalAddr(usize::MAX - 1));
    assert_eq!(PhysicalAddrRange::from_reg((1, usize::MAX)).end(), PhysicalAddr(usize::MAX));
    assert_eq!(MemoryRange::from_address_and_size(0x1000, 0).end_address(), 0xfff);
}

#[test]
fn capacity_vec_holds_up_to_its_capacity() {
    let mut v: CapacityVec<u32, 4> = CapacityVec::empty();
    assert_eq!(v.len(), 0);
    v.push(1);
    v.push(2);
    assert_eq!(v.len(), 2);
    v.push(3);
    assert_eq!(v.as_slice(), &[1, 2, 3]);
    assert_eq!(*v.get(2), 3);
    v.set(2, 9);
    assert_eq!(v.remove(0), 1);
    assert_eq!(v.as_slice(), &[2, 9]);
    let w: CapacityVec<u32, 2> = CapacityVec::from_slice(&[7, 8, 9]);
    assert_eq!(w.as_slice(), &[7, 8]);
    let x: CapacityVec<u32, 5> = CapacityVec::from_slice(&[7, 8, 9]);
    assert_eq!(x.len(), 3);
}

#[test]
fn bump_aligns_and_moves_the_heap_pointer() {
    assert_eq!(bump(0x1000, 0x20, 8), Some((0x1000, 0x1020)));
    assert_eq!(bump(0x1001, 0x20, 8), Some((0x1008, 0x1028)));
    assert_eq!(bump(0x1007, 1, 1), Some((0x1007, 0x1008)));
    assert_eq!(bump(5, 0, 4096), Some((4096, 4096)));
    assert_eq!(bump(usize::MAX, 1, 1), None);
    assert_eq!(bump(usize::MAX - 1, 1, 8), None);
    assert_eq!(bump(usize::MAX - 7, 8, 8), None);
    assert_eq!(bump(usize::MAX - 7, 7, 8), Some((usize::MAX - 7, usize::MAX)));
}
