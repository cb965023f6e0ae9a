//! The two header records and the arithmetic of carving a block from the
//! tail of a free segment.

use vstd::prelude::*;

verus! {

/// Size in bytes of a segment header. Free and used headers are both two
/// machine words wide, so one can replace the other at the same address.
pub const HEADER_SIZE: usize = 16;

/// A contiguous run of unused memory: a header at `start`, followed by
/// `size` bytes of free space. The header's link to the next free segment
/// is the order of the free list: the segment that follows in the list.
#[derive(Clone, Copy, Debug, PartialEq, Eq, Structural)]
pub struct FreeSegment {
    /// Address of the header.
    pub start: usize,
    /// Free bytes that follow the header.
    pub size: usize,
}

/// The header that trails an allocation, at `pointer + size`.
#[derive(Clone, Copy, Debug, PartialEq, Eq, Structural)]
pub struct UsedSegment {
    /// Size that the caller asked for.
    pub size: usize,
    /// Bytes given up to place the data on the requested alignment.
    pub align_padding: usize,
}

/// A live allocation: its data pointer and the header that trails it.
/// From the pointer up, the block holds the data, the header, and the
/// padding.
#[derive(Clone, Copy, Debug, PartialEq, Eq, Structural)]
pub struct UsedBlock {
    pub pointer: usize,
    pub header: UsedSegment,
}

/// Padding of a block of `size` bytes carved from a segment that ends at `end`.
pub open spec fn padding_for(end: int, size: int, align: int) -> int {
    (end - HEADER_SIZE - size) % align
}

/// Bytes that such a block takes from the segment: data, header and padding.
pub open spec fn consumed(end: int, size: int, align: int) -> int {
    size + HEADER_SIZE + padding_for(end, size, align)
}

/// Two half-open address ranges that share no byte.
pub open spec fn disjoint(a_start: int, a_end: int, b_start: int, b_end: int) -> bool {
    a_end <= b_start || b_end <= a_start
}

impl FreeSegment {
    /// First address past the segment.
    pub open spec fn end(&self) -> int {
        self.start + HEADER_SIZE + self.size
    }

    /// The segment lies within the address space.
    pub open spec fn in_bounds(&self) -> bool {
        self.end() <= usize::MAX
    }

    /// A block of `size` bytes aligned on `align` can be carved from the tail
    /// without reaching into the segment's own header.
    pub open spec fn fits(&self, size: usize, align: usize) -> bool {
        consumed(self.end(), size as int, align as int) <= self.size
    }

    /// The block that carving takes from the tail of this segment.
    pub open spec fn carved(&self, size: usize, align: usize) -> UsedBlock {
        UsedBlock {
            pointer: (self.end() - consumed(self.end(), size as int, align as int)) as usize,
            header: UsedSegment {
                size,
                align_padding: padding_for(self.end(), size as int, align as int) as usize,
            },
        }
    }

    /// What is left of this segment once the block is carved.
    pub open spec fn shrunk(&self, size: usize, align: usize) -> FreeSegment {
        FreeSegment {
            start: self.start,
            size: (self.size - consumed(self.end(), size as int, align as int)) as usize,
        }
    }

    /// Returns the first address past the segment.
    pub fn get_end(&self) -> (e: usize)
        requires
            self.in_bounds(),
        ensures
            e == self.end(),
    {
        self.start + HEADER_SIZE + self.size
    }

    /// Decides whether a block of `size` bytes aligned on `align` fits.
    pub fn can_hold(&self, size: usize, align: usize) -> (b: bool)
        requires
            self.in_bounds(),
            align > 0,
        ensures
            b == self.fits(size, align),
    {
        proof {
            lemma_padding_bounds(self.end(), size as int, align as int);
        }
        if self.size < HEADER_SIZE || size > self.size - HEADER_SIZE {
            return false;
        }
        let data_end: usize = self.get_end() - HEADER_SIZE - size;
        let padding: usize = data_end % align;
        padding <= self.size - HEADER_SIZE - size
    }
}

impl UsedSegment {
    /// Bytes of the whole used segment: data, header and padding.
    pub open spec fn whole(&self) -> int {
        self.size + HEADER_SIZE + self.align_padding
    }

    /// Returns the size of the whole used segment as a number of bytes.
    pub fn whole_size(&self) -> (r: usize)
        requires
            self.whole() <= usize::MAX,
        ensures
            r == self.whole(),
    {
        self.size + HEADER_SIZE + self.align_padding
    }
}

impl UsedBlock {
    /// Address of the trailing header.
    pub open spec fn header_address(&self) -> int {
        self.pointer + self.header.size
    }

    /// First address past everything the block took: data, header, padding.
    pub open spec fn end(&self) -> int {
        self.pointer + self.header.whole()
    }

    pub open spec fn in_bounds(&self) -> bool {
        self.end() <= usize::MAX
    }

    /// The free segment that takes the block's place when it is reclaimed.
    /// Its header goes where the data began; its free space is as large as
    /// data and padding together, so it ends where the block ended.
    pub open spec fn released(&self) -> FreeSegment {
        FreeSegment {
            start: self.pointer,
            size: (self.header.size + self.header.align_padding) as usize,
        }
    }
}

/// The padding is a remainder: never negative, always below the alignment.
pub proof fn lemma_padding_bounds(end: int, size: int, align: int)
    requires
        align > 0,
    ensures
        0 <= padding_for(end, size, align) < align,
{
    vstd::arithmetic::div_mod::lemma_mod_bound(end - HEADER_SIZE - size, align);
}

/// Taking a number's remainder away leaves a multiple of the divisor.
pub proof fn lemma_aligned_down(x: int, align: int)
    requires
        align > 0,
    ensures
        (x - x % align) % align == 0,
{
    vstd::arithmetic::div_mod::lemma_fundamental_div_mod(x, align);
    vstd::arithmetic::div_mod::lemma_mod_multiples_basic(x / align, align);
    assert(x - x % align == align * (x / align));
    assert(align * (x / align) == (x / align) * align) by (nonlinear_arith);
}

/// Carves a block of `size` bytes aligned on `align` from the tail of
/// `segment`: the header goes as far back as fits, then further back by the
/// padding that puts the data on its alignment. The segment shrinks by all
/// that was taken.
pub fn write_used_segment(segment: &mut FreeSegment, size: usize, align: usize) -> (block:
    UsedBlock)
    requires
        old(segment).in_bounds(),
        align > 0,
        old(segment).fits(size, align),
    ensures
        block == old(segment).carved(size, align),
        *final(segment) == old(segment).shrunk(size, align),
        block.pointer as int % align as int == 0,
        block.pointer == final(segment).end(),
        block.end() == old(segment).end(),
        block.header.size == size,
        block.header.align_padding < align,
{
    proof {
        lemma_padding_bounds(segment.end(), size as int, align as int);
        lemma_aligned_down(segment.end() - HEADER_SIZE - size, align as int);
    }
    let header_start: usize = segment.get_end() - HEADER_SIZE;
    let padding_size: usize = (header_start - size) % align;
    let header_start: usize = header_start - padding_size;
    let data_start: usize = header_start - size;
    let used = UsedSegment { size, align_padding: padding_size };
    segment.size = segment.size - used.whole_size();
    UsedBlock { pointer: data_start, header: used }
}

} // verus!
