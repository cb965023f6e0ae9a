use kernel::allocator::boot::{build_free_list, MemoryRegion, MemoryRegionKind};
use kernel::allocator::free_list::{
    clean_free_segment_list, find_last_big_enough, insert_new_segment, AllocError,
};
use kernel::allocator::segment::{
    write_used_segment, FreeSegment, UsedBlock, UsedSegment, HEADER_SIZE,
};
use kernel::allocator::{init, print_free_segments, Allocator, SegmentLine};

const MIB: u64 = 1024 * 1024;
const POOL_START: u64 = 0x10_0000;

fn usable(start: u64, end: u64) -> MemoryRegion {
    MemoryRegion { start, end, kind: MemoryRegionKind::Usable }
}

/// A pool of one MiB at `POOL_START`, with the kernel image below it.
fn pool() -> Allocator {
    let regions = vec![usable(POOL_START, POOL_START + MIB)];
    init(&regions, 0, 0, 0x1000).unwrap()
}

fn whole_pool() -> Vec<FreeSegment> {
    vec![FreeSegment { start: POOL_START as usize, size: MIB as usize - HEADER_SIZE }]
}

#[test]
fn headers_are_two_words() {
    assert_eq!(HEADER_SIZE, 16);
    assert_eq!(std::mem::size_of::<FreeSegment>(), std::mem::size_of::<UsedSegment>());
}

#[test]
fn whole_size_adds_data_header_and_padding() {
    let used = UsedSegment { size: 10, align_padding: 6 };
    assert_eq!(used.whole_size(), 32);
    let used = UsedSegment { size: 0, align_padding: 0 };
    assert_eq!(used.whole_size(), 16);
}

#[test]
fn get_end_is_past_header_and_space() {
    let segment = FreeSegment { start: 0x1000, size: 0x100 };
    assert_eq!(segment.get_end(), 0x1110);
}

#[test]
fn new_allocator_has_no_memory() {
    let mut allocator = Allocator::new();
    assert!(allocator.free_segments().is_empty());
    assert!(allocator.used_blocks().is_empty());
    assert_eq!(allocator.allocate(1, 1), Err(AllocError::OutOfMemory));
    assert_eq!(allocator.total_free(), 0);
}

#[test]
fn boot_makes_one_segment_of_the_region() {
    let allocator = pool();
    assert_eq!(allocator.free_segments(), &whole_pool());
    assert!(allocator.used_blocks().is_empty());
    assert_eq!(allocator.total_free(), MIB as usize - 16);
}

#[test]
fn boot_maps_the_region_by_the_offset() {
    let regions = vec![usable(0x20_0000, 0x30_0000)];
    let allocator = init(&regions, 0x8000_0000, 0x10_0000, 0x8_0000).unwrap();
    assert_eq!(
        allocator.free_segments(),
        &vec![FreeSegment { start: 0x8020_0000, size: 0x10_0000 - 16 }]
    );
}

#[test]
fn boot_skips_what_is_not_usable_or_meets_the_kernel() {
    let regions = vec![
        MemoryRegion { start: 0, end: 0x1000, kind: MemoryRegionKind::Bootloader },
        usable(0x10_0000, 0x20_0000),
        MemoryRegion { start: 0x20_0000, end: 0x30_0000, kind: MemoryRegionKind::UnknownBios(2) },
        MemoryRegion { start: 0x30_0000, end: 0x40_0000, kind: MemoryRegionKind::UnknownUefi(7) },
        usable(0x40_0000, 0x50_0000),
    ];
    // The kernel image lies in the first usable region.
    let allocator = init(&regions, 0, 0x18_0000, 0x1000).unwrap();
    assert_eq!(
        allocator.free_segments(),
        &vec![FreeSegment { start: 0x40_0000, size: 0x10_0000 - 16 }]
    );
}

#[test]
fn region_that_touches_the_kernel_without_sharing_a_byte_is_accepted() {
    let region = usable(0x2000, 0x3000);
    assert!(region.is_accepted(0x1000, 0x1000));
    assert!(region.is_accepted(0x3000, 0x1000));
    assert!(!region.is_accepted(0x1000, 0x1001));
    assert!(!region.is_accepted(0x2fff, 0x10));
    assert!(!region.is_accepted(0x2800, 0x10));
    let reserved = MemoryRegion { start: 0x2000, end: 0x3000, kind: MemoryRegionKind::Bootloader };
    assert!(!reserved.is_accepted(0, 0));
}

#[test]
fn two_usable_regions_fail_the_boot() {
    let regions = vec![usable(0x10_0000, 0x20_0000), usable(0x40_0000, 0x50_0000)];
    assert_eq!(init(&regions, 0, 0, 0x1000).err(), Some(AllocError::InvariantViolation));
}

#[test]
fn boot_without_a_usable_region_fails() {
    let regions = vec![MemoryRegion {
        start: 0x10_0000,
        end: 0x20_0000,
        kind: MemoryRegionKind::Bootloader,
    }];
    assert_eq!(init(&regions, 0, 0, 0x1000).err(), Some(AllocError::InvariantViolation));
    let none: Vec<MemoryRegion> = Vec::new();
    assert_eq!(init(&none, 0, 0, 0x1000).err(), Some(AllocError::InvariantViolation));
}

#[test]
fn free_list_is_built_in_the_order_of_the_map() {
    let regions = vec![usable(0x10_0000, 0x20_0000), usable(0x40_0000, 0x50_0000)];
    assert_eq!(
        build_free_list(&regions, 0x1000, 0, 0x1000),
        Ok(vec![
            FreeSegment { start: 0x10_1000, size: 0x10_0000 - 16 },
            FreeSegment { start: 0x40_1000, size: 0x10_0000 - 16 },
        ])
    );
}

#[test]
fn regions_out_of_order_are_refused() {
    let regions = vec![usable(0x40_0000, 0x50_0000), usable(0x10_0000, 0x20_0000)];
    assert_eq!(build_free_list(&regions, 0, 0, 0x1000), Err(AllocError::InvariantViolation));
    let overlapping = vec![usable(0x10_0000, 0x20_0000), usable(0x1f_0000, 0x30_0000)];
    assert_eq!(build_free_list(&overlapping, 0, 0, 0x1000), Err(AllocError::InvariantViolation));
}

#[test]
fn allocate_and_free_in_a_pool_of_one_mib() {
    let mut allocator = pool();
    let pointer = allocator.allocate(64, 8).unwrap();
    assert!(pointer >= POOL_START as usize);
    assert!(pointer + 64 <= (POOL_START + MIB) as usize);
    assert_eq!(pointer % 8, 0);
    assert_eq!(pointer, 0x1f_ffb0);
    assert_eq!(
        allocator.free_segments(),
        &vec![FreeSegment { start: POOL_START as usize, size: MIB as usize - 16 - 80 }]
    );
    assert_eq!(
        allocator.used_blocks(),
        &vec![UsedBlock { pointer, header: UsedSegment { size: 64, align_padding: 0 } }]
    );
    assert!(allocator.owns(pointer, 64));
    allocator.deallocate(pointer, 64, 8);
    assert_eq!(allocator.free_segments().len(), 1);
    assert_eq!(allocator.free_segments(), &whole_pool());
    assert!(allocator.used_blocks().is_empty());
    assert!(!allocator.owns(pointer, 64));
}

#[test]
fn three_blocks_freed_middle_last_first() {
    let mut allocator = pool();
    let first = allocator.allocate(100, 8).unwrap();
    let second = allocator.allocate(200, 8).unwrap();
    let third = allocator.allocate(300, 8).unwrap();
    assert!(third < second && second < first);
    allocator.deallocate(second, 200, 8);
    assert_eq!(allocator.free_segments().len(), 2);
    allocator.deallocate(third, 300, 8);
    assert_eq!(allocator.free_segments().len(), 1);
    allocator.deallocate(first, 100, 8);
    assert_eq!(allocator.free_segments(), &whole_pool());
    assert!(allocator.used_blocks().is_empty());
}

#[test]
fn request_larger_than_any_segment_fails() {
    let mut allocator = pool();
    assert_eq!(allocator.allocate(MIB as usize, 8), Err(AllocError::OutOfMemory));
    assert_eq!(allocator.allocate(MIB as usize - 31, 1), Err(AllocError::OutOfMemory));
    assert_eq!(allocator.allocate(usize::MAX, 1), Err(AllocError::OutOfMemory));
    assert_eq!(allocator.free_segments(), &whole_pool());
    assert!(allocator.used_blocks().is_empty());
}

#[test]
fn padding_puts_the_data_on_its_alignment() {
    let mut allocator = pool();
    let pointer = allocator.allocate(10, 16).unwrap();
    assert_eq!(pointer, 0x1f_ffe0);
    assert_eq!(pointer % 16, 0);
    assert_eq!(
        allocator.used_blocks(),
        &vec![UsedBlock { pointer, header: UsedSegment { size: 10, align_padding: 6 } }]
    );
    assert_eq!(allocator.total_free(), MIB as usize - 16 - 32);
    let next = allocator.allocate(3, 4096).unwrap();
    assert_eq!(next % 4096, 0);
    assert_eq!(next, 0x1f_f000);
}

#[test]
fn alignment_holds_for_every_power_of_two() {
    let mut allocator = pool();
    let mut align: usize = 1;
    while align <= 4096 {
        let pointer = allocator.allocate(align + 3, align).unwrap();
        assert_eq!(pointer % align, 0);
        align *= 2;
    }
}

#[test]
fn live_blocks_and_free_segments_do_not_overlap() {
    let mut allocator = pool();
    let mut live: Vec<(usize, usize)> = Vec::new();
    for (size, align) in [(24, 8), (1, 1), (100, 64), (4000, 4096), (7, 2)] {
        let pointer = allocator.allocate(size, align).unwrap();
        live.push((pointer, size));
    }
    allocator.deallocate(live[2].0, live[2].1, 64);
    live.remove(2);
    let mut ranges: Vec<(usize, usize)> = Vec::new();
    for block in allocator.used_blocks().iter() {
        ranges.push((block.pointer, block.pointer + block.header.size));
        ranges.push((block.pointer + block.header.size, block.pointer + block.header.size + 16));
    }
    for segment in allocator.free_segments().iter() {
        ranges.push((segment.start, segment.get_end()));
    }
    for (i, a) in ranges.iter().enumerate() {
        for b in ranges.iter().skip(i + 1) {
            assert!(a.1 <= b.0 || b.1 <= a.0);
        }
    }
    for (pointer, size) in live {
        assert!(allocator.owns(pointer, size));
    }
}

#[test]
fn exact_fit_leaves_an_empty_segment_in_the_list() {
    let mut allocator = pool();
    let size = MIB as usize - 32;
    let pointer = allocator.allocate(size, 1).unwrap();
    assert_eq!(pointer, POOL_START as usize + 16);
    assert_eq!(
        allocator.free_segments(),
        &vec![FreeSegment { start: POOL_START as usize, size: 0 }]
    );
    assert_eq!(allocator.allocate(0, 1), Err(AllocError::OutOfMemory));
    allocator.deallocate(pointer, size, 1);
    assert_eq!(allocator.free_segments(), &whole_pool());
}

#[test]
fn round_trip_restores_every_free_byte() {
    let mut allocator = pool();
    let before = allocator.total_free();
    for (size, align) in [(0, 1), (1, 1), (13, 8), (4096, 4096), (77, 32)] {
        let pointer = allocator.allocate(size, align).unwrap();
        allocator.deallocate(pointer, size, align);
        assert_eq!(allocator.total_free(), before);
        assert_eq!(allocator.free_segments(), &whole_pool());
    }
}

#[test]
fn adjacent_blocks_merge_when_both_are_freed() {
    let mut allocator = pool();
    let high = allocator.allocate(64, 8).unwrap();
    let low = allocator.allocate(64, 8).unwrap();
    let guard = allocator.allocate(64, 8).unwrap();
    assert_eq!(low + 80, high);
    allocator.deallocate(high, 64, 8);
    allocator.deallocate(low, 64, 8);
    assert_eq!(
        allocator.free_segments(),
        &vec![
            FreeSegment { start: POOL_START as usize, size: MIB as usize - 16 - 240 },
            FreeSegment { start: low, size: 160 - 16 },
        ]
    );
    assert!(allocator.owns(guard, 64));
}

#[test]
fn last_fitting_segment_is_chosen() {
    let free = vec![
        FreeSegment { start: 0x1000, size: 0x100 },
        FreeSegment { start: 0x2000, size: 0x100 },
        FreeSegment { start: 0x3000, size: 0x20 },
    ];
    assert_eq!(find_last_big_enough(&free, 0x10, 8), Some(2));
    assert_eq!(find_last_big_enough(&free, 0x11, 1), Some(1));
    assert_eq!(find_last_big_enough(&free, 0xf0, 16), Some(1));
    assert_eq!(find_last_big_enough(&free, 0xf1, 1), None);
    assert_eq!(find_last_big_enough(&Vec::new(), 0, 1), None);
}

#[test]
fn can_hold_counts_header_and_padding() {
    let segment = FreeSegment { start: 0x1000, size: 0x30 };
    assert!(segment.can_hold(0x20, 16));
    assert!(segment.can_hold(0x20, 1));
    assert!(!segment.can_hold(0x21, 1));
    // Ends at 0x1040: a block of 0x1f bytes needs one byte of padding.
    assert!(segment.can_hold(0x1f, 16));
    assert!(!segment.can_hold(0x1f, 64));
    assert!(!FreeSegment { start: 0x1000, size: 15 }.can_hold(0, 1));
    assert!(FreeSegment { start: 0x1000, size: 16 }.can_hold(0, 1));
}

#[test]
fn carving_shrinks_the_segment_by_all_that_was_taken() {
    let mut segment = FreeSegment { start: 0x1000, size: 0x100 };
    let block = write_used_segment(&mut segment, 10, 16);
    // End 0x1110, header first at 0x1100, data would start at 0x10f6: 6 bytes of padding.
    assert_eq!(
        block,
        UsedBlock { pointer: 0x10f0, header: UsedSegment { size: 10, align_padding: 6 } }
    );
    assert_eq!(segment, FreeSegment { start: 0x1000, size: 0x100 - 32 });
    assert_eq!(segment.get_end(), block.pointer);
}

#[test]
fn insertion_keeps_the_list_sorted() {
    let mut free = vec![
        FreeSegment { start: 0x1000, size: 0x100 },
        FreeSegment { start: 0x3000, size: 0x100 },
    ];
    assert_eq!(insert_new_segment(&mut free, FreeSegment { start: 0x2000, size: 0x10 }), Ok(()));
    assert_eq!(insert_new_segment(&mut free, FreeSegment { start: 0x4000, size: 0 }), Ok(()));
    assert_eq!(
        free,
        vec![
            FreeSegment { start: 0x1000, size: 0x100 },
            FreeSegment { start: 0x2000, size: 0x10 },
            FreeSegment { start: 0x3000, size: 0x100 },
            FreeSegment { start: 0x4000, size: 0 },
        ]
    );
    for pair in free.windows(2) {
        assert!(pair[0].start < pair[1].start);
    }
}

#[test]
fn insertion_into_an_empty_list_makes_the_head() {
    let mut free: Vec<FreeSegment> = Vec::new();
    assert_eq!(insert_new_segment(&mut free, FreeSegment { start: 0x2000, size: 0x10 }), Ok(()));
    assert_eq!(free, vec![FreeSegment { start: 0x2000, size: 0x10 }]);
}

#[test]
fn insertion_that_breaks_the_order_is_refused() {
    let list = vec![
        FreeSegment { start: 0x1000, size: 0x100 },
        FreeSegment { start: 0x3000, size: 0x100 },
    ];
    let refused = [
        FreeSegment { start: 0x800, size: 0x10 },
        FreeSegment { start: 0x1000, size: 0x10 },
        FreeSegment { start: 0x1100, size: 0x10 },
        FreeSegment { start: 0x2ff8, size: 0 },
        FreeSegment { start: 0x3000, size: 0x100 },
    ];
    for segment in refused {
        let mut free = list.clone();
        assert_eq!(insert_new_segment(&mut free, segment), Err(AllocError::InvariantViolation));
        assert_eq!(free, list);
    }
}

#[test]
fn coalescing_merges_every_run_of_adjacent_segments() {
    let mut free = vec![
        FreeSegment { start: 0x1000, size: 0x10 },
        FreeSegment { start: 0x1020, size: 0 },
        FreeSegment { start: 0x1030, size: 0x20 },
        FreeSegment { start: 0x2000, size: 0x10 },
        FreeSegment { start: 0x3000, size: 0x10 },
        FreeSegment { start: 0x3020, size: 0x30 },
    ];
    clean_free_segment_list(&mut free);
    assert_eq!(
        free,
        vec![
            FreeSegment { start: 0x1000, size: 0x50 },
            FreeSegment { start: 0x2000, size: 0x10 },
            FreeSegment { start: 0x3000, size: 0x50 },
        ]
    );
    let mut empty: Vec<FreeSegment> = Vec::new();
    clean_free_segment_list(&mut empty);
    assert!(empty.is_empty());
}

#[test]
fn dump_has_a_line_for_each_segment() {
    let regions = vec![usable(0x10_0000, 0x50_0000)];
    let mut allocator = init(&regions, 0, 0, 0x1000).unwrap();
    let high = allocator.allocate(0x20_0000, 8).unwrap();
    let low = allocator.allocate(64, 8).unwrap();
    allocator.deallocate(high, 0x20_0000, 8);
    assert_eq!(
        print_free_segments(&allocator),
        vec![
            SegmentLine { number: 1, start: 0x10_0000, end: low, mib: 1 },
            SegmentLine { number: 2, start: high, end: 0x50_0000, mib: 2 },
        ]
    );
}

#[test]
fn links_follow_the_order_of_the_list() {
    let regions = vec![usable(0x10_0000, 0x50_0000)];
    let mut allocator = init(&regions, 0, 0, 0x1000).unwrap();
    assert_eq!(allocator.next_free(0), None);
    let high = allocator.allocate(0x1000, 8).unwrap();
    let low = allocator.allocate(64, 8).unwrap();
    allocator.deallocate(high, 0x1000, 8);
    assert_eq!(allocator.next_free(0), Some(high));
    assert_eq!(allocator.next_free(1), None);
    assert!(allocator.owns(low, 64));
    assert!(!allocator.owns(low, 65));
    assert!(!allocator.owns(high, 0x1000));
}

#[test]
fn region_is_mappable_when_it_holds_a_header_within_the_address_space() {
    assert!(usable(0x1000, 0x1010).is_mappable(0));
    assert!(!usable(0x1000, 0x100f).is_mappable(0));
    assert!(!usable(0x1000, 0x1000).is_mappable(0));
    assert!(!usable(0x2000, 0x1000).is_mappable(0));
    assert!(usable(0x1000, 0x2000).is_mappable(u64::MAX - 0x2000));
    assert!(!usable(0x1000, 0x2000).is_mappable(u64::MAX - 0x1fff));
}
