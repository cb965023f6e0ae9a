//! Dynamic memory manager.
//!
//! Memory is handed out "from the back": an allocation is carved from the
//! high end of the last free segment that can hold it, and a trailing header
//! records what was consumed so that the block can be reclaimed later.
//! Reclaimed blocks go back into the address-ordered free list and are
//! merged with the neighbours they touch.

pub mod boot;
pub mod free_list;
pub mod laws;
pub mod segment;

use vstd::prelude::*;
use crate::allocator::boot::{
    accepted_segments, build_free_list, lemma_accepted_in_bounds, mappable_regions, MemoryRegion,
};
use crate::allocator::free_list::{
    clean_free_segment_list, coalesce, coalesced, covers, find_last_big_enough, free_bytes,
    insert_new_segment, last_fit, none_fits, ordered, with_segment, AllocError,
};
use crate::allocator::laws::{lemma_alloc_keeps_consistent, lemma_free_keeps_consistent};
use crate::allocator::segment::{disjoint, FreeSegment, UsedBlock, write_used_segment};

verus! {

/// The free list and the live blocks agree: the list is coalesced, every
/// block lies within the address space and above the head of the list, and
/// no two of all these ranges share a byte.
pub open spec fn consistent(free: Seq<FreeSegment>, used: Seq<UsedBlock>) -> bool {
    &&& coalesced(free)
    &&& forall|j: int| 0 <= j < used.len() ==> (#[trigger] used[j]).in_bounds()
    &&& forall|j: int, k: int|
        0 <= j < k < used.len() ==> disjoint(
            (#[trigger] used[j]).pointer as int,
            used[j].end(),
            (#[trigger] used[k]).pointer as int,
            used[k].end(),
        )
    &&& forall|i: int, j: int|
        0 <= i < free.len() && 0 <= j < used.len() ==> disjoint(
            (#[trigger] free[i]).start as int,
            free[i].end(),
            (#[trigger] used[j]).pointer as int,
            used[j].end(),
        )
    &&& forall|j: int|
        0 <= j < used.len() ==> free.len() > 0 && free[0].start < (#[trigger] used[j]).pointer
}

/// Index of the segment that a request is carved from: the last that fits.
pub open spec fn placement(free: Seq<FreeSegment>, size: usize, align: usize) -> int {
    choose|i: int| last_fit(free, size, align, i)
}

/// The block that a request gets.
pub open spec fn allocated(free: Seq<FreeSegment>, size: usize, align: usize) -> UsedBlock {
    free[placement(free, size, align)].carved(size, align)
}

/// The free list once the request is served.
pub open spec fn after_alloc(free: Seq<FreeSegment>, size: usize, align: usize) -> Seq<
    FreeSegment,
> {
    let i = placement(free, size, align);
    free.update(i, free[i].shrunk(size, align))
}

/// The free list once the block is reclaimed.
pub open spec fn after_free(free: Seq<FreeSegment>, block: UsedBlock) -> Seq<FreeSegment> {
    coalesce(with_segment(free, block.released()))
}

/// One line of the free list's dump.
#[derive(Clone, Copy, Debug, PartialEq, Eq, Structural)]
pub struct SegmentLine {
    /// Position in the list, counted from one.
    pub number: usize,
    pub start: usize,
    pub end: usize,
    /// Free bytes in whole MiB.
    pub mib: usize,
}

/// The line that describes the segment at index `i`.
pub open spec fn line_of(free: Seq<FreeSegment>, i: int) -> SegmentLine {
    SegmentLine {
        number: (i + 1) as usize,
        start: free[i].start,
        end: free[i].end() as usize,
        mib: free[i].size / 1024 / 1024,
    }
}

/// The pool: its free segments in address order, and the blocks handed out.
#[derive(Debug)]
pub struct Allocator {
    free: Vec<FreeSegment>,
    used: Vec<UsedBlock>,
}

impl Allocator {
    /// The free list, head first.
    pub closed spec fn free_list(&self) -> Seq<FreeSegment> {
        self.free@
    }

    /// The blocks that are handed out, oldest first.
    pub closed spec fn live_blocks(&self) -> Seq<UsedBlock> {
        self.used@
    }

    /// Holds of every allocator at all times.
    #[verifier::type_invariant]
    closed spec fn inv(&self) -> bool {
        consistent(self.free@, self.used@)
    }

    /// The free list and the live blocks are consistent. Every allocator
    /// is well formed: each of its functions says so of what it returns or
    /// leaves behind.
    pub open spec fn wf(&self) -> bool {
        consistent(self.free_list(), self.live_blocks())
    }

    /// A block handed out at `pointer` for `size` bytes is still live.
    pub open spec fn is_live(&self, pointer: usize, size: usize) -> bool {
        exists|j: int|
            0 <= j < self.live_blocks().len() && (#[trigger] self.live_blocks()[j]).pointer
                == pointer && self.live_blocks()[j].header.size == size
    }

    /// Index of the live block at `pointer`.
    pub open spec fn index_of(&self, pointer: usize) -> int {
        choose|j: int|
            0 <= j < self.live_blocks().len() && (#[trigger] self.live_blocks()[j]).pointer
                == pointer
    }

    /// An allocator without memory: every request fails until it is replaced
    /// by one that `init` built.
    pub fn new() -> (a: Allocator)
        ensures
            a.wf(),
            a.free_list() == Seq::<FreeSegment>::empty(),
            a.live_blocks() == Seq::<UsedBlock>::empty(),
    {
        Allocator { free: Vec::new(), used: Vec::new() }
    }

    /// The free segments, head first.
    pub fn free_segments(&self) -> (s: &Vec<FreeSegment>)
        ensures
            s@ == self.free_list(),
            self.wf(),
    {
        proof {
            use_type_invariant(self);
        }
        &self.free
    }

    /// The blocks that are handed out.
    pub fn used_blocks(&self) -> (s: &Vec<UsedBlock>)
        ensures
            s@ == self.live_blocks(),
            self.wf(),
    {
        proof {
            use_type_invariant(self);
        }
        &self.used
    }

    /// Address of the free segment that follows the one at index `i`: the
    /// link that its header holds. The last segment has none.
    pub fn next_free(&self, i: usize) -> (next: Option<usize>)
        ensures
            next == (if i + 1 < self.free_list().len() {
                Some(self.free_list()[i + 1].start)
            } else {
                None
            }),
    {
        if self.free.len() > 0 && i < self.free.len() - 1 {
            Some(self.free[i + 1].start)
        } else {
            None
        }
    }

    /// Free bytes of the whole pool, headers not counted.
    pub fn total_free(&self) -> (n: usize)
        ensures
            n == free_bytes(self.free_list()),
    {
        proof {
            use_type_invariant(self);
        }
        let mut total: usize = 0;
        let mut i: usize = 0;
        while i < self.free.len()
            invariant
                i <= self.free@.len(),
                ordered(self.free@),
                total == free_bytes(self.free@.take(i as int)),
                i > 0 ==> total <= self.free@[i - 1].end(),
            decreases self.free.len() - i,
        {
            proof {
                assert(self.free@.take(i + 1).drop_last() == self.free@.take(i as int));
                assert(self.free@[i as int].in_bounds());
                if i > 0 {
                    assert(self.free@[i - 1].end() <= self.free@[i as int].start);
                }
            }
            total = total + self.free[i].size;
            i += 1;
        }
        proof {
            assert(self.free@.take(i as int) == self.free@);
        }
        total
    }

    /// Tells whether a block handed out at `pointer` for `size` bytes is live.
    pub fn owns(&self, pointer: usize, size: usize) -> (b: bool)
        ensures
            b == self.is_live(pointer, size),
    {
        let mut j: usize = 0;
        while j < self.used.len()
            invariant
                j <= self.used@.len(),
                forall|m: int|
                    0 <= m < j ==> !((#[trigger] self.used@[m]).pointer == pointer
                        && self.used@[m].header.size == size),
            decreases self.used.len() - j,
        {
            if self.used[j].pointer == pointer && self.used[j].header.size == size {
                assert(self.live_blocks()[j as int].pointer == pointer);
                return true;
            }
            j += 1;
        }
        false
    }

    /// Serves a request for `size` bytes aligned on `align` from the tail of
    /// the last free segment that can hold it, and returns the data pointer.
    /// Fails, and changes nothing, when no segment can.
    pub fn allocate(&mut self, size: usize, align: usize) -> (r: Result<usize, AllocError>)
        requires
            align > 0,
        ensures
            old(self).wf(),
            final(self).wf(),
            r.is_err() <==> none_fits(old(self).free_list(), size, align),
            r.is_err() ==> r == Err::<usize, AllocError>(AllocError::OutOfMemory)
                && final(self).free_list() == old(self).free_list() && final(self).live_blocks()
                == old(self).live_blocks(),
            r.is_ok() ==> {
                let block = allocated(old(self).free_list(), size, align);
                &&& r == Ok::<usize, AllocError>(block.pointer)
                &&& block.pointer as int % align as int == 0
                &&& final(self).free_list() == after_alloc(old(self).free_list(), size, align)
                &&& final(self).live_blocks() == old(self).live_blocks().push(block)
            },
    {
        proof {
            use_type_invariant(&*self);
        }
        // The lists leave the allocator while they change: a step that fails
        // midway leaves an allocator without memory behind, never lists in
        // disorder.
        let mut taken = Allocator::new();
        core::mem::swap(self, &mut taken);
        let Allocator { mut free, mut used } = taken;
        let served = serve(&mut free, &mut used, size, align);
        *self = Allocator { free, used };
        served
    }

    /// Reclaims the block handed out at `pointer` for `size` bytes: a free
    /// segment takes its place in the list, by address, and is merged with
    /// the neighbours it touches. The caller passes what it passed to, and
    /// got from, `allocate`.
    #[allow(unused_variables)]
    pub fn deallocate(&mut self, pointer: usize, size: usize, align: usize)
        requires
            old(self).is_live(pointer, size),
        ensures
            old(self).wf(),
            final(self).wf(),
            final(self).live_blocks() == old(self).live_blocks().remove(
                old(self).index_of(pointer),
            ),
            final(self).free_list() == after_free(
                old(self).free_list(),
                old(self).live_blocks()[old(self).index_of(pointer)],
            ),
            forall|addr: int|
                #![trigger covers(final(self).free_list(), addr)]
                #![trigger covers(old(self).free_list(), addr)]
                covers(final(self).free_list(), addr) <==> covers(old(self).free_list(), addr)
                    || pointer <= addr < old(self).live_blocks()[old(self).index_of(
                    pointer,
                )].end(),
    {
        proof {
            use_type_invariant(&*self);
        }
        let mut taken = Allocator::new();
        core::mem::swap(self, &mut taken);
        let Allocator { mut free, mut used } = taken;
        reclaim(&mut free, &mut used, pointer);
        *self = Allocator { free, used };
    }
}

/// Index of the block at `pointer` among the live blocks.
spec fn position(used: Seq<UsedBlock>, pointer: usize) -> int {
    choose|j: int| 0 <= j < used.len() && (#[trigger] used[j]).pointer == pointer
}

/// Carves the request from the last segment of `free` that fits it and
/// records the block in `used`.
fn serve(free: &mut Vec<FreeSegment>, used: &mut Vec<UsedBlock>, size: usize, align: usize) -> (r:
    Result<usize, AllocError>)
    requires
        consistent(old(free)@, old(used)@),
        align > 0,
    ensures
        consistent(final(free)@, final(used)@),
        r.is_err() <==> none_fits(old(free)@, size, align),
        r.is_err() ==> r == Err::<usize, AllocError>(AllocError::OutOfMemory) && final(free)@
            == old(free)@ && final(used)@ == old(used)@,
        r.is_ok() ==> {
            let block = allocated(old(free)@, size, align);
            &&& r == Ok::<usize, AllocError>(block.pointer)
            &&& block.pointer as int % align as int == 0
            &&& final(free)@ == after_alloc(old(free)@, size, align)
            &&& final(used)@ == old(used)@.push(block)
        },
{
    let Some(i) = find_last_big_enough(free, size, align) else {
        return Err(AllocError::OutOfMemory);
    };
    let ghost before = free@;
    let ghost blocks = used@;
    assert(placement(before, size, align) == i);
    let mut segment = free[i];
    let block = write_used_segment(&mut segment, size, align);
    free.set(i, segment);
    used.push(block);
    proof {
        lemma_alloc_keeps_consistent(before, blocks, size, align);
    }
    Ok(block.pointer)
}

/// Takes the block at `pointer` out of `used`, puts the segment that it
/// leaves into `free`, and coalesces the list.
fn reclaim(free: &mut Vec<FreeSegment>, used: &mut Vec<UsedBlock>, pointer: usize)
    requires
        consistent(old(free)@, old(used)@),
        exists|j: int| 0 <= j < old(used)@.len() && (#[trigger] old(used)@[j]).pointer == pointer,
    ensures
        consistent(final(free)@, final(used)@),
        final(used)@ == old(used)@.remove(position(old(used)@, pointer)),
        final(free)@ == after_free(old(free)@, old(used)@[position(old(used)@, pointer)]),
        forall|addr: int|
            #![trigger covers(final(free)@, addr)]
            #![trigger covers(old(free)@, addr)]
            covers(final(free)@, addr) <==> covers(old(free)@, addr) || pointer <= addr < old(
                used,
            )@[position(old(used)@, pointer)].end(),
{
    let ghost before = free@;
    let ghost blocks = used@;
    let mut j: usize = 0;
    while j < used.len() && used[j].pointer != pointer
        invariant
            j <= used@.len(),
            used@ == blocks,
            forall|m: int| 0 <= m < j ==> (#[trigger] used@[m]).pointer != pointer,
        decreases used.len() - j,
    {
        j += 1;
    }
    assert(j < blocks.len());
    assert(blocks[j as int].in_bounds());
    assert(position(blocks, pointer) == j) by {
        let c = position(blocks, pointer);
        assert(blocks[c].in_bounds());
        if c < j {
            assert(disjoint(
                blocks[c].pointer as int,
                blocks[c].end(),
                blocks[j as int].pointer as int,
                blocks[j as int].end(),
            ));
        }
    }
    proof {
        lemma_free_keeps_consistent(before, blocks, j as int);
    }
    let block = used.remove(j);
    let segment = FreeSegment {
        start: block.pointer,
        size: block.header.size + block.header.align_padding,
    };
    let inserted = insert_new_segment(free, segment);
    assert(inserted.is_ok());
    clean_free_segment_list(free);
}

/// The lines that the dump of the free list prints, one for each segment,
/// head first.
pub fn print_free_segments(allocator: &Allocator) -> (lines: Vec<SegmentLine>)
    ensures
        lines@.len() == allocator.free_list().len(),
        forall|i: int|
            0 <= i < lines@.len() ==> #[trigger] lines@[i] == line_of(allocator.free_list(), i),
{
    proof {
        use_type_invariant(allocator);
    }
    let mut lines: Vec<SegmentLine> = Vec::new();
    let mut cursor: usize = 0;
    while cursor < allocator.free.len()
        invariant
            cursor <= allocator.free@.len(),
            lines@.len() == cursor,
            allocator.wf(),
            forall|i: int| 0 <= i < cursor ==> #[trigger] lines@[i] == line_of(allocator.free@, i),
        decreases allocator.free.len() - cursor,
    {
        let segment = allocator.free[cursor];
        assert(allocator.free@[cursor as int].in_bounds());
        lines.push(
            SegmentLine {
                number: cursor + 1,
                start: segment.start,
                end: segment.get_end(),
                mib: segment.size / 1024 / 1024,
            },
        );
        cursor += 1;
    }
    lines
}

/// Builds the allocator from the memory map that the firmware reports.
/// The regions that are usable and clear of the kernel image become free
/// segments, each at its address in the offset-mapped view of physical
/// memory. Exactly one such region is supported: with none, or with more,
/// the boot fails.
pub fn init(
    regions: &Vec<MemoryRegion>,
    physical_memory_offset: u64,
    kernel_addr: u64,
    kernel_len: u64,
) -> (r: Result<Allocator, AllocError>)
    requires
        kernel_addr + kernel_len <= u64::MAX,
        mappable_regions(regions@, physical_memory_offset, kernel_addr, kernel_len),
    ensures
        r.is_ok() <==> accepted_segments(
            regions@,
            physical_memory_offset,
            kernel_addr,
            kernel_len,
        ).len() == 1,
        match r {
            Ok(a) => a.wf() && a.live_blocks() == Seq::<UsedBlock>::empty() && a.free_list()
                == accepted_segments(regions@, physical_memory_offset, kernel_addr, kernel_len),
            Err(e) => e == AllocError::InvariantViolation,
        },
{
    let built = build_free_list(regions, physical_memory_offset, kernel_addr, kernel_len);
    proof {
        lemma_accepted_in_bounds(regions@, physical_memory_offset, kernel_addr, kernel_len);
    }
    match built {
        Ok(free) => {
            if free.len() != 1 {
                return Err(AllocError::InvariantViolation);
            }
            Ok(Allocator { free, used: Vec::new() })
        },
        Err(_) => Err(AllocError::InvariantViolation),
    }
}

} // verus!
