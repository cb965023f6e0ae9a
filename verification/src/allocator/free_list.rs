//! The free list: free segments in ascending address order, with the search
//! for a segment to carve from, sorted insertion and the coalescing pass.

use vstd::prelude::*;
use crate::allocator::segment::{disjoint, FreeSegment, HEADER_SIZE};

verus! {

/// Why the allocator gave up.
#[derive(Clone, Copy, Debug, PartialEq, Eq, Structural)]
pub enum AllocError {
    /// No free segment can hold the request.
    OutOfMemory,
    /// The free list, or the memory map it is built from, is not laid out as
    /// the allocator relies on.
    InvariantViolation,
}

/// Segments lie within the address space, in ascending order, without overlap.
pub open spec fn ordered(s: Seq<FreeSegment>) -> bool {
    &&& forall|i: int| 0 <= i < s.len() ==> (#[trigger] s[i]).in_bounds()
    &&& forall|i: int, j: int|
        0 <= i < j < s.len() ==> (#[trigger] s[i]).end() <= (#[trigger] s[j]).start
}

/// Ordered, and no segment ends where another begins.
pub open spec fn coalesced(s: Seq<FreeSegment>) -> bool {
    &&& ordered(s)
    &&& forall|i: int, j: int|
        0 <= i < j < s.len() ==> (#[trigger] s[i]).end() < (#[trigger] s[j]).start
}

/// Some segment of the list holds the byte at `addr`, in its header or after.
pub open spec fn covers(s: Seq<FreeSegment>, addr: int) -> bool {
    exists|i: int| 0 <= i < s.len() && (#[trigger] s[i]).start <= addr < s[i].end()
}

/// Free bytes of the whole list, headers not counted.
pub open spec fn free_bytes(s: Seq<FreeSegment>) -> int
    decreases s.len(),
{
    if s.len() == 0 {
        0
    } else {
        free_bytes(s.drop_last()) + s.last().size
    }
}

/// Segment `i` fits the request and no later one does.
pub open spec fn last_fit(s: Seq<FreeSegment>, size: usize, align: usize, i: int) -> bool {
    &&& 0 <= i < s.len()
    &&& s[i].fits(size, align)
    &&& forall|j: int| i < j < s.len() ==> !(#[trigger] s[j]).fits(size, align)
}

/// No segment fits the request.
pub open spec fn none_fits(s: Seq<FreeSegment>, size: usize, align: usize) -> bool {
    forall|j: int| 0 <= j < s.len() ==> !(#[trigger] s[j]).fits(size, align)
}

/// Number of segments that start below `addr`.
pub open spec fn rank(s: Seq<FreeSegment>, addr: int) -> int
    decreases s.len(),
{
    if s.len() == 0 {
        0
    } else {
        rank(s.drop_last(), addr) + if s.last().start < addr {
            1int
        } else {
            0int
        }
    }
}

/// The segment can join the list: the list is empty, or the segment lies
/// above the head and shares no byte with any segment.
pub open spec fn insertable(s: Seq<FreeSegment>, seg: FreeSegment) -> bool {
    s.len() == 0 || (s[0].start < seg.start && forall|i: int|
        0 <= i < s.len() ==> disjoint(
            (#[trigger] s[i]).start as int,
            s[i].end(),
            seg.start as int,
            seg.end(),
        ))
}

/// The list with the segment put in by address.
pub open spec fn with_segment(s: Seq<FreeSegment>, seg: FreeSegment) -> Seq<FreeSegment> {
    s.insert(rank(s, seg.start as int), seg)
}

/// One segment in place of two adjacent ones: the second header becomes
/// free space of the first.
pub open spec fn merged(a: FreeSegment, b: FreeSegment) -> FreeSegment {
    FreeSegment { start: a.start, size: (a.size + HEADER_SIZE + b.size) as usize }
}

/// The coalescing pass with its cursor at `i`: while the segment at the
/// cursor ends where the next begins, it absorbs the next; then the cursor
/// moves on.
pub open spec fn coalesce_from(s: Seq<FreeSegment>, i: int) -> Seq<FreeSegment>
    decreases s.len() - i,
{
    if i < 0 || i + 1 >= s.len() {
        s
    } else if s[i].end() == s[i + 1].start {
        coalesce_from(s.remove(i + 1).update(i, merged(s[i], s[i + 1])), i)
    } else {
        coalesce_from(s, i + 1)
    }
}

/// The list after a whole coalescing pass.
pub open spec fn coalesce(s: Seq<FreeSegment>) -> Seq<FreeSegment> {
    coalesce_from(s, 0)
}

/// In an ordered list, the segments below an address come first, so their
/// number is the index of the first segment at or above it.
pub proof fn lemma_rank_is_index(s: Seq<FreeSegment>, addr: int, k: int)
    requires
        0 <= k <= s.len(),
        forall|j: int| 0 <= j < k ==> (#[trigger] s[j]).start < addr,
        forall|j: int| k <= j < s.len() ==> (#[trigger] s[j]).start >= addr,
    ensures
        rank(s, addr) == k,
    decreases s.len(),
{
    if s.len() > 0 {
        let t = s.drop_last();
        if k == s.len() {
            lemma_rank_is_index(t, addr, k - 1);
        } else {
            lemma_rank_is_index(t, addr, k);
        }
    }
}

/// Putting a segment into a list adds its bytes to those the list covers.
pub proof fn lemma_insert_cover(s: Seq<FreeSegment>, seg: FreeSegment)
    ensures
        forall|addr: int|
            #![trigger covers(with_segment(s, seg), addr)]
            #![trigger covers(s, addr)]
            covers(with_segment(s, seg), addr) <==> covers(s, addr) || seg.start <= addr
                < seg.end(),
{
    lemma_rank_bounds(s, seg.start as int);
    let k = rank(s, seg.start as int);
    let t = s.insert(k, seg);
    assert forall|addr: int|
        #![trigger covers(t, addr)]
        #![trigger covers(s, addr)]
        covers(t, addr) <==> covers(s, addr) || seg.start <= addr < seg.end() by {
        if covers(t, addr) {
            let w = choose|w: int| 0 <= w < t.len() && (#[trigger] t[w]).start <= addr < t[w].end();
            if w < k {
                assert(s[w].start <= addr < s[w].end());
            } else if w > k {
                assert(s[w - 1].start <= addr < s[w - 1].end());
            }
        }
        if covers(s, addr) {
            let w = choose|w: int| 0 <= w < s.len() && (#[trigger] s[w]).start <= addr < s[w].end();
            if w < k {
                assert(t[w].start <= addr < t[w].end());
            } else {
                assert(t[w + 1].start <= addr < t[w + 1].end());
            }
        }
        if seg.start <= addr < seg.end() {
            assert(t[k].start <= addr < t[k].end());
        }
    }
}

/// A rank is an index into the list, or its length.
pub proof fn lemma_rank_bounds(s: Seq<FreeSegment>, addr: int)
    ensures
        0 <= rank(s, addr) <= s.len(),
    decreases s.len(),
{
    if s.len() > 0 {
        lemma_rank_bounds(s.drop_last(), addr);
    }
}

/// Walks the list and returns the index of the last segment from whose tail
/// a block of `size` bytes aligned on `align` can be carved.
pub fn find_last_big_enough(free: &Vec<FreeSegment>, size: usize, align: usize) -> (found: Option<
    usize,
>)
    requires
        align > 0,
        forall|i: int| 0 <= i < free@.len() ==> (#[trigger] free@[i]).in_bounds(),
    ensures
        match found {
            Some(i) => last_fit(free@, size, align, i as int),
            None => none_fits(free@, size, align),
        },
{
    let mut last: Option<usize> = None;
    let mut cursor: usize = 0;
    while cursor < free.len()
        invariant
            cursor <= free.len(),
            align > 0,
            forall|i: int| 0 <= i < free@.len() ==> (#[trigger] free@[i]).in_bounds(),
            match last {
                Some(i) => i < cursor && free@[i as int].fits(size, align) && forall|j: int|
                    i < j < cursor ==> !(#[trigger] free@[j]).fits(size, align),
                None => forall|j: int| 0 <= j < cursor ==> !(#[trigger] free@[j]).fits(size, align),
            },
        decreases free.len() - cursor,
    {
        if free[cursor].can_hold(size, align) {
            last = Some(cursor);
        }
        cursor += 1;
    }
    last
}

/// Puts `new_segment` into the list by address. It is refused, and the list
/// left as it was, when it would come before the head of a list that is not
/// empty or would share a byte with a segment already there.
pub fn insert_new_segment(free: &mut Vec<FreeSegment>, new_segment: FreeSegment) -> (r: Result<
    (),
    AllocError,
>)
    requires
        ordered(old(free)@),
        new_segment.in_bounds(),
    ensures
        r.is_ok() <==> insertable(old(free)@, new_segment),
        r.is_ok() ==> final(free)@ == with_segment(old(free)@, new_segment) && ordered(
            final(free)@,
        ),
        r.is_err() ==> r == Err::<(), AllocError>(AllocError::InvariantViolation) && final(free)@
            == old(free)@,
        r.is_ok() && old(free)@.len() > 0 ==> final(free)@[0] == old(free)@[0],
{
    let n: usize = free.len();
    let mut k: usize = 0;
    while k < n && free[k].start < new_segment.start
        invariant
            k <= n,
            n == free@.len(),
            forall|j: int| 0 <= j < k ==> (#[trigger] free@[j]).start < new_segment.start,
        decreases n - k,
    {
        k += 1;
    }
    proof {
        lemma_rank_is_index(free@, new_segment.start as int, k as int);
    }
    if n > 0 && k == 0 {
        return Err(AllocError::InvariantViolation);
    }
    if k > 0 && free[k - 1].get_end() > new_segment.start {
        return Err(AllocError::InvariantViolation);
    }
    if k < n && new_segment.get_end() > free[k].start {
        return Err(AllocError::InvariantViolation);
    }
    free.insert(k, new_segment);
    Ok(())
}

/// Walks the list once and merges every run of segments in which each ends
/// where the next begins.
pub fn clean_free_segment_list(free: &mut Vec<FreeSegment>)
    requires
        ordered(old(free)@),
    ensures
        final(free)@ == coalesce(old(free)@),
        coalesced(final(free)@),
        forall|addr: int|
            #![trigger covers(final(free)@, addr)]
            #![trigger covers(old(free)@, addr)]
            covers(final(free)@, addr) <==> covers(old(free)@, addr),
        old(free)@.len() > 0 ==> final(free)@.len() > 0 && final(free)@[0].start == old(
            free,
        )@[0].start,
        old(free)@.len() == 0 ==> final(free)@.len() == 0,
{
    let mut cursor: usize = 0;
    while free.len() - cursor > 1
        invariant
            cursor <= free@.len(),
            free@.len() <= old(free)@.len(),
            ordered(free@),
            forall|i: int, j: int|
                0 <= i < j < free@.len() && i < cursor ==> (#[trigger] free@[i]).end() < (
                #[trigger] free@[j]).start,
            coalesce_from(free@, cursor as int) == coalesce(old(free)@),
            forall|addr: int|
                #![trigger covers(free@, addr)]
                #![trigger covers(old(free)@, addr)]
                covers(free@, addr) <==> covers(old(free)@, addr),
            old(free)@.len() > 0 ==> free@.len() > 0 && free@[0].start == old(free)@[0].start,
            old(free)@.len() == 0 ==> free@.len() == 0,
        decreases free.len() - cursor, free.len(),
    {
        let here = free[cursor];
        let next = free[cursor + 1];
        if here.get_end() == next.start {
            let ghost before = free@;
            let joined = FreeSegment { start: here.start, size: here.size + HEADER_SIZE + next.size };
            free.remove(cursor + 1);
            free.set(cursor, joined);
            proof {
                lemma_merge_keeps_cover(before, cursor as int);
            }
        } else {
            cursor += 1;
        }
    }
}

/// Merging two adjacent segments of an ordered list leaves it ordered and
/// covering the same bytes.
pub proof fn lemma_merge_keeps_cover(s: Seq<FreeSegment>, i: int)
    requires
        ordered(s),
        0 <= i,
        i + 1 < s.len(),
        s[i].end() == s[i + 1].start,
    ensures
        ordered(s.remove(i + 1).update(i, merged(s[i], s[i + 1]))),
        forall|addr: int|
            #![trigger covers(s.remove(i + 1).update(i, merged(s[i], s[i + 1])), addr)]
            #![trigger covers(s, addr)]
            covers(s.remove(i + 1).update(i, merged(s[i], s[i + 1])), addr) <==> covers(s, addr),
{
    let t = s.remove(i + 1).update(i, merged(s[i], s[i + 1]));
    assert(s[i].in_bounds() && s[i + 1].in_bounds());
    assert(t[i].end() == s[i + 1].end());
    assert forall|k: int| 0 <= k < t.len() implies (#[trigger] t[k]).in_bounds() by {
        if k < i {
            assert(t[k] == s[k]);
        } else if k > i {
            assert(t[k] == s[k + 1]);
        }
    }
    assert forall|a: int, b: int| 0 <= a < b < t.len() implies (#[trigger] t[a]).end() <= (
    #[trigger] t[b]).start by {
        let sa = if a <= i { a } else { a + 1 };
        let sb = if b <= i { b } else { b + 1 };
        assert(s[sa].in_bounds() && s[sb].in_bounds());
        if a == i {
            assert(s[i + 1].end() <= s[sb].start);
        } else {
            assert(s[sa].end() <= s[sb].start);
        }
    }
    assert forall|addr: int|
        #![trigger covers(t, addr)]
        #![trigger covers(s, addr)]
        covers(t, addr) <==> covers(s, addr) by {
        if covers(t, addr) {
            let k = choose|k: int| 0 <= k < t.len() && (#[trigger] t[k]).start <= addr < t[k].end();
            if k < i {
                assert(s[k].start <= addr < s[k].end());
            } else if k > i {
                assert(s[k + 1].start <= addr < s[k + 1].end());
            } else if addr < s[i].end() {
                assert(s[i].start <= addr < s[i].end());
            } else {
                assert(s[i + 1].start <= addr < s[i + 1].end());
            }
        }
        if covers(s, addr) {
            let k = choose|k: int| 0 <= k < s.len() && (#[trigger] s[k]).start <= addr < s[k].end();
            if k < i {
                assert(t[k].start <= addr < t[k].end());
            } else if k > i + 1 {
                assert(t[k - 1].start <= addr < t[k - 1].end());
            } else {
                assert(t[i].start <= addr < t[i].end());
            }
        }
    }
}

} // verus!
