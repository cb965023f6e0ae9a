//! From the firmware's memory map to the initial free list.

use vstd::prelude::*;
use crate::allocator::free_list::{ordered, AllocError};
use crate::allocator::segment::{FreeSegment, HEADER_SIZE};

verus! {

/// What a region of physical memory is used for.
#[derive(Clone, Copy, Debug, PartialEq, Eq, Structural)]
pub enum MemoryRegionKind {
    /// Unused conventional memory.
    Usable,
    /// Memory that the bootloader holds: the kernel, its stack, page tables.
    Bootloader,
    /// A memory type of the UEFI memory map that has no meaning here.
    UnknownUefi(u32),
    /// A memory type of the BIOS memory map that has no meaning here.
    UnknownBios(u32),
}

/// A region of physical memory, from `start` up to `end`, not included.
#[derive(Clone, Copy, Debug, PartialEq, Eq, Structural)]
pub struct MemoryRegion {
    pub start: u64,
    pub end: u64,
    pub kind: MemoryRegionKind,
}

impl MemoryRegion {
    /// The region shares a byte with the kernel image.
    pub open spec fn collides(&self, kernel_addr: u64, kernel_len: u64) -> bool {
        self.start < kernel_addr + kernel_len && kernel_addr < self.end
    }

    /// The region is usable and clear of the kernel image.
    pub open spec fn accepted(&self, kernel_addr: u64, kernel_len: u64) -> bool {
        self.kind == MemoryRegionKind::Usable && !self.collides(kernel_addr, kernel_len)
    }

    /// The region has room for a header and its mapping lies within the
    /// address space.
    pub open spec fn mappable(&self, offset: u64) -> bool {
        &&& self.start <= self.end
        &&& self.end - self.start >= HEADER_SIZE
        &&& self.end + offset <= usize::MAX
    }

    /// The free segment that the region becomes.
    pub open spec fn segment(&self, offset: u64) -> FreeSegment {
        FreeSegment {
            start: (self.start + offset) as usize,
            size: (self.end - self.start - HEADER_SIZE) as usize,
        }
    }

    /// Tells whether the region has room for a header and is mapped within
    /// the address space.
    pub fn is_mappable(&self, offset: u64) -> (b: bool)
        ensures
            b == self.mappable(offset),
    {
        if self.start > self.end || self.end - self.start < HEADER_SIZE as u64 {
            return false;
        }
        match self.end.checked_add(offset) {
            Some(mapped_end) => mapped_end <= usize::MAX as u64,
            None => false,
        }
    }

    /// Tells whether the region is usable and clear of the kernel image.
    pub fn is_accepted(&self, kernel_addr: u64, kernel_len: u64) -> (b: bool)
        requires
            kernel_addr + kernel_len <= u64::MAX,
        ensures
            b == self.accepted(kernel_addr, kernel_len),
    {
        match self.kind {
            MemoryRegionKind::Usable => !(self.start < kernel_addr + kernel_len && kernel_addr
                < self.end),
            _ => false,
        }
    }
}

/// Every accepted region of the map can hold a free segment.
pub open spec fn mappable_regions(
    regions: Seq<MemoryRegion>,
    offset: u64,
    kernel_addr: u64,
    kernel_len: u64,
) -> bool {
    forall|i: int|
        0 <= i < regions.len() && (#[trigger] regions[i]).accepted(kernel_addr, kernel_len)
            ==> regions[i].mappable(offset)
}

/// The free segments of the accepted regions, in the order of the map.
pub open spec fn accepted_segments(
    regions: Seq<MemoryRegion>,
    offset: u64,
    kernel_addr: u64,
    kernel_len: u64,
) -> Seq<FreeSegment>
    decreases regions.len(),
{
    if regions.len() == 0 {
        Seq::empty()
    } else {
        let rest = accepted_segments(regions.drop_last(), offset, kernel_addr, kernel_len);
        if regions.last().accepted(kernel_addr, kernel_len) {
            rest.push(regions.last().segment(offset))
        } else {
            rest
        }
    }
}

/// The segments of the first `n` regions open the list of the segments of
/// them all.
pub proof fn lemma_accepted_prefix(
    regions: Seq<MemoryRegion>,
    n: int,
    offset: u64,
    kernel_addr: u64,
    kernel_len: u64,
)
    requires
        0 <= n <= regions.len(),
    ensures
        accepted_segments(regions.take(n), offset, kernel_addr, kernel_len).is_prefix_of(
            accepted_segments(regions, offset, kernel_addr, kernel_len),
        ),
    decreases regions.len(),
{
    if n < regions.len() {
        assert(regions.drop_last().take(n) == regions.take(n));
        lemma_accepted_prefix(regions.drop_last(), n, offset, kernel_addr, kernel_len);
    } else {
        assert(regions.take(n) == regions);
    }
}

/// Where every accepted region is mappable, every segment lies within the
/// address space.
pub proof fn lemma_accepted_in_bounds(
    regions: Seq<MemoryRegion>,
    offset: u64,
    kernel_addr: u64,
    kernel_len: u64,
)
    requires
        mappable_regions(regions, offset, kernel_addr, kernel_len),
    ensures
        forall|i: int|
            0 <= i < accepted_segments(regions, offset, kernel_addr, kernel_len).len() ==> (
            #[trigger] accepted_segments(regions, offset, kernel_addr, kernel_len)[i]).in_bounds(),
    decreases regions.len(),
{
    if regions.len() > 0 {
        assert(regions.last() == regions[regions.len() - 1]);
        assert forall|i: int|
            0 <= i < regions.drop_last().len() && (#[trigger] regions.drop_last()[i]).accepted(
                kernel_addr,
                kernel_len,
            ) implies regions.drop_last()[i].mappable(offset) by {
            assert(regions.drop_last()[i] == regions[i]);
        }
        lemma_accepted_in_bounds(regions.drop_last(), offset, kernel_addr, kernel_len);
        let rest = accepted_segments(regions.drop_last(), offset, kernel_addr, kernel_len);
        let all = accepted_segments(regions, offset, kernel_addr, kernel_len);
        assert forall|i: int| 0 <= i < all.len() implies (#[trigger] all[i]).in_bounds() by {
            if i < rest.len() {
                assert(all[i] == rest[i]);
            } else {
                assert(regions.last().mappable(offset));
            }
        }
    }
}

/// Walks the memory map and links a free segment for each accepted region
/// at the tail of the list. The regions are expected in ascending address
/// order: a segment that does not lie above the tail stops the walk.
pub fn build_free_list(
    regions: &Vec<MemoryRegion>,
    physical_memory_offset: u64,
    kernel_addr: u64,
    kernel_len: u64,
) -> (r: Result<Vec<FreeSegment>, AllocError>)
    requires
        kernel_addr + kernel_len <= u64::MAX,
        mappable_regions(regions@, physical_memory_offset, kernel_addr, kernel_len),
    ensures
        r.is_ok() <==> ordered(
            accepted_segments(regions@, physical_memory_offset, kernel_addr, kernel_len),
        ),
        match r {
            Ok(free) => free@ == accepted_segments(
                regions@,
                physical_memory_offset,
                kernel_addr,
                kernel_len,
            ),
            Err(e) => e == AllocError::InvariantViolation,
        },
{
    let ghost all = accepted_segments(regions@, physical_memory_offset, kernel_addr, kernel_len);
    let mut free: Vec<FreeSegment> = Vec::new();
    let mut n: usize = 0;
    while n < regions.len()
        invariant
            n <= regions@.len(),
            kernel_addr + kernel_len <= u64::MAX,
            mappable_regions(regions@, physical_memory_offset, kernel_addr, kernel_len),
            free@ == accepted_segments(
                regions@.take(n as int),
                physical_memory_offset,
                kernel_addr,
                kernel_len,
            ),
            ordered(free@),
            all == accepted_segments(regions@, physical_memory_offset, kernel_addr, kernel_len),
        decreases regions.len() - n,
    {
        let region = regions[n];
        proof {
            assert(regions@.take(n + 1).drop_last() == regions@.take(n as int));
            assert(regions@.take(n + 1).last() == regions@[n as int]);
        }
        if region.is_accepted(kernel_addr, kernel_len) {
            let segment = FreeSegment {
                start: (region.start + physical_memory_offset) as usize,
                size: (region.end - region.start) as usize - HEADER_SIZE,
            };
            assert(segment == region.segment(physical_memory_offset));
            if free.len() > 0 && free[free.len() - 1].get_end() > segment.start {
                proof {
                    let part = free@.push(segment);
                    lemma_accepted_prefix(
                        regions@,
                        n + 1,
                        physical_memory_offset,
                        kernel_addr,
                        kernel_len,
                    );
                    assert(part == accepted_segments(
                        regions@.take(n + 1),
                        physical_memory_offset,
                        kernel_addr,
                        kernel_len,
                    ));
                    assert(part.is_prefix_of(all));
                    assert(all[part.len() - 2] == part[part.len() - 2]);
                    assert(all[part.len() - 1] == part[part.len() - 1]);
                }
                return Err(AllocError::InvariantViolation);
            }
            proof {
                let tail = free@;
                assert forall|i: int, j: int| 0 <= i < j < tail.len() + 1 implies (
                #[trigger] tail.push(segment)[i]).end() <= (#[trigger] tail.push(
                    segment,
                )[j]).start by {
                    if j == tail.len() && i < tail.len() - 1 {
                        assert(tail[i].end() <= tail[tail.len() - 1].start);
                    }
                }
            }
            free.push(segment);
        }
        n += 1;
    }
    proof {
        assert(regions@.take(n as int) == regions@);
    }
    Ok(free)
}

} // verus!
