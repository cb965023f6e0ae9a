//! What holds of the allocator across calls.

use vstd::prelude::*;
use crate::allocator::{after_alloc, after_free, allocated, consistent, placement};
use crate::allocator::free_list::{
    coalesce_from, coalesced, covers, free_bytes, insertable, last_fit,
    lemma_insert_cover, lemma_merge_keeps_cover, lemma_rank_bounds, lemma_rank_is_index, merged,
    none_fits, ordered, rank, with_segment,
};
use crate::allocator::segment::{
    disjoint, lemma_aligned_down, lemma_padding_bounds, FreeSegment, UsedBlock, HEADER_SIZE,
};

verus! {

/// The data of a live block shares no byte with the data or the header of
/// another live block, with its own header, or with a free segment.
pub proof fn lemma_live_blocks_apart(
    free: Seq<FreeSegment>,
    used: Seq<UsedBlock>,
    j: int,
    k: int,
    i: int,
)
    requires
        consistent(free, used),
        0 <= j < used.len(),
        0 <= k < used.len(),
        j != k,
        0 <= i < free.len(),
    ensures
        disjoint(
            used[j].pointer as int,
            used[j].pointer + used[j].header.size,
            used[k].pointer as int,
            used[k].pointer + used[k].header.size,
        ),
        disjoint(
            used[j].pointer as int,
            used[j].pointer + used[j].header.size,
            used[k].header_address(),
            used[k].header_address() + HEADER_SIZE,
        ),
        disjoint(
            used[j].pointer as int,
            used[j].pointer + used[j].header.size,
            used[j].header_address(),
            used[j].header_address() + HEADER_SIZE,
        ),
        disjoint(
            used[j].pointer as int,
            used[j].pointer + used[j].header.size,
            free[i].start as int,
            free[i].end(),
        ),
{
    if j < k {
        assert(disjoint(
            used[j].pointer as int,
            used[j].end(),
            used[k].pointer as int,
            used[k].end(),
        ));
    } else {
        assert(disjoint(
            used[k].pointer as int,
            used[k].end(),
            used[j].pointer as int,
            used[j].end(),
        ));
    }
    assert(disjoint(free[i].start as int, free[i].end(), used[j].pointer as int, used[j].end()));
}

/// An ordered list is strictly sorted by start address.
pub proof fn lemma_ordered_is_strictly_sorted(s: Seq<FreeSegment>, i: int, j: int)
    requires
        ordered(s),
        0 <= i < j < s.len(),
    ensures
        s[i].start < s[j].start,
{
    assert(s[i].end() <= s[j].start);
}

/// In an ordered list the segments below an address are exactly those
/// before its rank.
pub proof fn lemma_rank_splits(s: Seq<FreeSegment>, addr: int)
    requires
        ordered(s),
    ensures
        0 <= rank(s, addr) <= s.len(),
        forall|j: int| 0 <= j < rank(s, addr) ==> (#[trigger] s[j]).start < addr,
        forall|j: int| rank(s, addr) <= j < s.len() ==> (#[trigger] s[j]).start >= addr,
    decreases s.len(),
{
    lemma_rank_bounds(s, addr);
    if s.len() > 0 {
        let t = s.drop_last();
        assert forall|a: int, b: int| 0 <= a < b < t.len() implies (#[trigger] t[a]).end() <= (
        #[trigger] t[b]).start by {
            assert(s[a].end() <= s[b].start);
        }
        assert forall|a: int| 0 <= a < t.len() implies (#[trigger] t[a]).in_bounds() by {
            assert(s[a].in_bounds());
        }
        lemma_rank_splits(t, addr);
        let k = rank(t, addr);
        if s.last().start < addr {
            assert forall|j: int| 0 <= j < s.len() implies (#[trigger] s[j]).start < addr by {
                if j < s.len() - 1 {
                    assert(s[j].end() <= s[s.len() - 1].start);
                }
            }
            lemma_rank_is_index(t, addr, t.len() as int);
        } else {
            assert forall|j: int| 0 <= j < k implies (#[trigger] s[j]).start < addr by {
                assert(t[j].start < addr);
            }
            assert forall|j: int| k <= j < s.len() implies (#[trigger] s[j]).start >= addr by {
                if j < t.len() {
                    assert(t[j].start >= addr);
                }
            }
        }
    }
}

/// A segment that can join an ordered list leaves it ordered, with the same
/// head where it had one.
pub proof fn lemma_insertion_keeps_order(s: Seq<FreeSegment>, seg: FreeSegment)
    requires
        ordered(s),
        seg.in_bounds(),
        insertable(s, seg),
    ensures
        ordered(with_segment(s, seg)),
        s.len() > 0 ==> with_segment(s, seg)[0] == s[0],
{
    lemma_rank_splits(s, seg.start as int);
    let k = rank(s, seg.start as int);
    let t = s.insert(k, seg);
    assert forall|a: int| 0 <= a < t.len() implies (#[trigger] t[a]).in_bounds() by {
        if a < k {
            assert(t[a] == s[a]);
        } else if a > k {
            assert(t[a] == s[a - 1]);
        }
    }
    assert forall|a: int, b: int| 0 <= a < b < t.len() implies (#[trigger] t[a]).end() <= (
    #[trigger] t[b]).start by {
        let oa = if a < k { a } else { a - 1 };
        let ob = if b < k { b } else { b - 1 };
        if a == k {
            assert(s[ob].start >= seg.start);
            assert(s[ob].in_bounds());
            assert(disjoint(s[ob].start as int, s[ob].end(), seg.start as int, seg.end()));
        } else if b == k {
            assert(s[oa].start < seg.start);
            assert(disjoint(s[oa].start as int, s[oa].end(), seg.start as int, seg.end()));
        } else {
            assert(s[oa].end() <= s[ob].start);
        }
    }
}

/// The coalescing pass, from a cursor before which no segment touches a
/// later one, yields a coalesced list that covers the same bytes and keeps
/// the head.
pub proof fn lemma_coalesce_from(s: Seq<FreeSegment>, i: int)
    requires
        ordered(s),
        0 <= i,
        forall|a: int, b: int|
            0 <= a < b < s.len() && a < i ==> (#[trigger] s[a]).end() < (#[trigger] s[b]).start,
    ensures
        coalesced(coalesce_from(s, i)),
        forall|addr: int|
            #![trigger covers(coalesce_from(s, i), addr)]
            #![trigger covers(s, addr)]
            covers(coalesce_from(s, i), addr) <==> covers(s, addr),
        s.len() > 0 ==> coalesce_from(s, i).len() > 0 && coalesce_from(s, i)[0].start
            == s[0].start,
        s.len() == 0 ==> coalesce_from(s, i).len() == 0,
    decreases s.len() - i,
{
    if i + 1 >= s.len() {
    } else if s[i].end() == s[i + 1].start {
        let t = s.remove(i + 1).update(i, merged(s[i], s[i + 1]));
        lemma_merge_keeps_cover(s, i);
        assert forall|a: int, b: int| 0 <= a < b < t.len() && a < i implies (#[trigger] t[a]).end()
            < (#[trigger] t[b]).start by {
            let ob = if b <= i { b } else { b + 1 };
            assert(s[a].end() < s[ob].start);
        }
        lemma_coalesce_from(t, i);
    } else {
        assert forall|a: int, b: int| 0 <= a < b < s.len() && a < i + 1 implies (
        #[trigger] s[a]).end() < (#[trigger] s[b]).start by {
            if a == i {
                assert(s[i].end() <= s[i + 1].start);
                assert(s[i + 1].in_bounds());
                if b > i + 1 {
                    assert(s[i + 1].end() <= s[b].start);
                }
            }
        }
        lemma_coalesce_from(s, i + 1);
    }
}

/// After any reclaim the free list is coalesced: two segments never lie
/// side by side. The list covers what it covered before and the bytes of
/// the block.
pub proof fn lemma_free_coalesces(free: Seq<FreeSegment>, block: UsedBlock)
    requires
        ordered(free),
        block.in_bounds(),
        insertable(free, block.released()),
    ensures
        coalesced(after_free(free, block)),
        forall|addr: int|
            #![trigger covers(after_free(free, block), addr)]
            #![trigger covers(free, addr)]
            covers(after_free(free, block), addr) <==> covers(free, addr) || block.pointer <= addr
                < block.end(),
{
    let seg = block.released();
    lemma_insertion_keeps_order(free, seg);
    lemma_insert_cover(free, seg);
    let linked = with_segment(free, seg);
    lemma_coalesce_from(linked, 0);
    assert forall|addr: int|
        #![trigger covers(after_free(free, block), addr)]
        #![trigger covers(free, addr)]
        covers(after_free(free, block), addr) <==> covers(free, addr) || block.pointer <= addr
            < block.end() by {
        assert(covers(after_free(free, block), addr) <==> covers(linked, addr));
        assert(covers(linked, addr) <==> covers(free, addr) || seg.start <= addr < seg.end());
    }
}

/// A run of bytes that a coalesced list covers lies within one segment.
pub proof fn lemma_covered_run_in_one_segment(s: Seq<FreeSegment>, from: int, to: int)
    requires
        coalesced(s),
        from < to,
        forall|addr: int| from <= addr < to ==> #[trigger] covers(s, addr),
    ensures
        exists|i: int| 0 <= i < s.len() && (#[trigger] s[i]).start <= from && to <= s[i].end(),
{
    assert(covers(s, from));
    let i = choose|i: int| 0 <= i < s.len() && (#[trigger] s[i]).start <= from < s[i].end();
    if s[i].end() < to {
        let addr = s[i].end();
        assert(covers(s, addr));
        let m = choose|m: int| 0 <= m < s.len() && (#[trigger] s[m]).start <= addr < s[m].end();
        if m < i {
            assert(s[m].end() < s[i].start);
        } else if m > i {
            assert(s[i].end() < s[m].start);
        }
        assert(false);
    }
}

/// Serving a request keeps the free list and the live blocks consistent,
/// and the block that is handed out starts on the alignment asked for.
pub proof fn lemma_alloc_keeps_consistent(
    free: Seq<FreeSegment>,
    used: Seq<UsedBlock>,
    size: usize,
    align: usize,
)
    requires
        consistent(free, used),
        align > 0,
        !none_fits(free, size, align),
    ensures
        consistent(after_alloc(free, size, align), used.push(allocated(free, size, align))),
        allocated(free, size, align).pointer as int % align as int == 0,
        allocated(free, size, align).header.size == size,
{
    lemma_last_fit_exists(free, size, align);
    let i = placement(free, size, align);
    let seg = free[i];
    assert(seg.in_bounds());
    assert(free[0].in_bounds());
    lemma_padding_bounds(seg.end(), size as int, align as int);
    lemma_aligned_down(seg.end() - HEADER_SIZE - size, align as int);
    let block = seg.carved(size, align);
    let after = after_alloc(free, size, align);
    let blocks = used.push(block);
    assert forall|a: int| 0 <= a < after.len() implies (#[trigger] after[a]).in_bounds()
        && after[a].start == free[a].start && after[a].end() <= free[a].end() by {
        assert(free[a].in_bounds());
    }
    assert forall|a: int, b: int| 0 <= a < b < after.len() implies (#[trigger] after[a]).end() < (
    #[trigger] after[b]).start by {
        assert(free[a].end() < free[b].start);
    }
    assert forall|a: int| 0 <= a < after.len() implies disjoint(
        (#[trigger] after[a]).start as int,
        after[a].end(),
        block.pointer as int,
        block.end(),
    ) by {
        assert(free[a].in_bounds());
        if a < i {
            assert(free[a].end() < free[i].start);
        } else if a > i {
            assert(free[i].end() < free[a].start);
        }
    }
    assert forall|j: int| 0 <= j < used.len() implies disjoint(
        (#[trigger] used[j]).pointer as int,
        used[j].end(),
        block.pointer as int,
        block.end(),
    ) by {
        assert(disjoint(free[i].start as int, free[i].end(), used[j].pointer as int, used[j].end()));
    }
    if i > 0 {
        assert(free[0].end() < free[i].start);
    }
    assert forall|a: int, j: int| 0 <= a < after.len() && 0 <= j < blocks.len() implies disjoint(
        (#[trigger] after[a]).start as int,
        after[a].end(),
        (#[trigger] blocks[j]).pointer as int,
        blocks[j].end(),
    ) by {
        if j < used.len() {
            assert(disjoint(
                free[a].start as int,
                free[a].end(),
                used[j].pointer as int,
                used[j].end(),
            ));
        }
    }
    assert forall|j: int| 0 <= j < blocks.len() implies after.len() > 0 && after[0].start < (
    #[trigger] blocks[j]).pointer by {
        if j < used.len() {
            assert(free[0].start < used[j].pointer);
        }
    }
}

/// Reclaiming a live block keeps the free list and the other live blocks
/// consistent: the freed segment finds its place in the list, and the list
/// then covers what it covered before and the bytes of the block.
pub proof fn lemma_free_keeps_consistent(free: Seq<FreeSegment>, used: Seq<UsedBlock>, j: int)
    requires
        consistent(free, used),
        0 <= j < used.len(),
    ensures
        used[j].released().in_bounds(),
        used[j].released().start == used[j].pointer,
        used[j].released().size == used[j].header.size + used[j].header.align_padding,
        insertable(free, used[j].released()),
        consistent(after_free(free, used[j]), used.remove(j)),
        forall|addr: int|
            #![trigger covers(after_free(free, used[j]), addr)]
            #![trigger covers(free, addr)]
            covers(after_free(free, used[j]), addr) <==> covers(free, addr) || used[j].pointer
                <= addr < used[j].end(),
{
    let block = used[j];
    let seg = block.released();
    assert(block.in_bounds());
    assert forall|i: int| 0 <= i < free.len() implies disjoint(
        (#[trigger] free[i]).start as int,
        free[i].end(),
        seg.start as int,
        seg.end(),
    ) by {
        assert(disjoint(free[i].start as int, free[i].end(), used[j].pointer as int, used[j].end()));
    }
    lemma_free_coalesces(free, block);
    lemma_insertion_keeps_order(free, seg);
    let linked = with_segment(free, seg);
    lemma_coalesce_from(linked, 0);
    let list = after_free(free, block);
    let rest = used.remove(j);
    assert forall|m: int| 0 <= m < rest.len() implies (#[trigger] rest[m]).in_bounds() && disjoint(
        rest[m].pointer as int,
        rest[m].end(),
        block.pointer as int,
        block.end(),
    ) && free[0].start < rest[m].pointer && (forall|i: int|
        0 <= i < free.len() ==> disjoint(
            (#[trigger] free[i]).start as int,
            free[i].end(),
            rest[m].pointer as int,
            rest[m].end(),
        )) by {
        let o = if m < j { m } else { m + 1 };
        assert(rest[m] == used[o]);
        assert(used[o].in_bounds());
        if o < j {
            assert(disjoint(
                used[o].pointer as int,
                used[o].end(),
                used[j].pointer as int,
                used[j].end(),
            ));
        } else {
            assert(disjoint(
                used[j].pointer as int,
                used[j].end(),
                used[o].pointer as int,
                used[o].end(),
            ));
        }
    }
    assert forall|a: int, b: int| 0 <= a < b < rest.len() implies disjoint(
        (#[trigger] rest[a]).pointer as int,
        rest[a].end(),
        (#[trigger] rest[b]).pointer as int,
        rest[b].end(),
    ) by {
        let oa = if a < j { a } else { a + 1 };
        let ob = if b < j { b } else { b + 1 };
        assert(rest[a] == used[oa] && rest[b] == used[ob]);
    }
    assert forall|i: int, m: int| 0 <= i < list.len() && 0 <= m < rest.len() implies disjoint(
        (#[trigger] list[i]).start as int,
        list[i].end(),
        (#[trigger] rest[m]).pointer as int,
        rest[m].end(),
    ) by {
        assert(list[i].in_bounds());
        if !disjoint(list[i].start as int, list[i].end(), rest[m].pointer as int, rest[m].end()) {
            let addr = if list[i].start >= rest[m].pointer {
                list[i].start as int
            } else {
                rest[m].pointer as int
            };
            assert(list[i].start <= addr < list[i].end());
            assert(covers(list, addr));
            if covers(free, addr) {
                let w = choose|w: int|
                    0 <= w < free.len() && (#[trigger] free[w]).start <= addr < free[w].end();
                assert(disjoint(
                    free[w].start as int,
                    free[w].end(),
                    rest[m].pointer as int,
                    rest[m].end(),
                ));
            }
        }
    }
}

/// Freeing two live blocks that lie side by side, in either order, leaves
/// one free segment that spans both.
pub proof fn lemma_adjacent_frees_merge(
    free: Seq<FreeSegment>,
    used: Seq<UsedBlock>,
    low: int,
    high: int,
)
    requires
        consistent(free, used),
        0 <= low < used.len(),
        0 <= high < used.len(),
        used[low].end() == used[high].pointer,
    ensures
        spans(after_free(after_free(free, used[low]), used[high]), used[low], used[high]),
        spans(after_free(after_free(free, used[high]), used[low]), used[low], used[high]),
{
    assert(used[low].in_bounds() && used[high].in_bounds());
    lemma_frees_cover(free, used, low, high);
    lemma_frees_cover(free, used, high, low);
    let one = after_free(after_free(free, used[low]), used[high]);
    let other = after_free(after_free(free, used[high]), used[low]);
    lemma_covered_run_in_one_segment(one, used[low].pointer as int, used[high].end());
    lemma_covered_run_in_one_segment(other, used[low].pointer as int, used[high].end());
}

/// Some segment of the list holds both blocks, from the first byte of the
/// lower to the last of the higher.
pub open spec fn spans(s: Seq<FreeSegment>, low: UsedBlock, high: UsedBlock) -> bool {
    exists|i: int|
        0 <= i < s.len() && (#[trigger] s[i]).start <= low.pointer && high.end() <= s[i].end()
}

/// After two different live blocks are freed, one after the other, the list
/// is coalesced and covers the bytes of both.
pub proof fn lemma_frees_cover(
    free: Seq<FreeSegment>,
    used: Seq<UsedBlock>,
    first: int,
    second: int,
)
    requires
        consistent(free, used),
        0 <= first < used.len(),
        0 <= second < used.len(),
        first != second,
    ensures
        coalesced(after_free(after_free(free, used[first]), used[second])),
        forall|addr: int|
            used[first].pointer <= addr < used[first].end() || used[second].pointer <= addr
                < used[second].end() ==> #[trigger] covers(
                after_free(after_free(free, used[first]), used[second]),
                addr,
            ),
{
    lemma_free_keeps_consistent(free, used, first);
    let once = after_free(free, used[first]);
    let rest = used.remove(first);
    let at = if second < first { second } else { second - 1 };
    assert(rest[at] == used[second]);
    lemma_free_keeps_consistent(once, rest, at);
    let twice = after_free(once, used[second]);
    assert forall|addr: int|
        used[first].pointer <= addr < used[first].end() || used[second].pointer <= addr
            < used[second].end() implies #[trigger] covers(twice, addr) by {
        if used[first].pointer <= addr < used[first].end() {
            assert(covers(once, addr));
        }
    }
}

/// Where some segment fits a request, there is a last one that does.
pub proof fn lemma_last_fit_exists(s: Seq<FreeSegment>, size: usize, align: usize)
    requires
        !none_fits(s, size, align),
    ensures
        last_fit(s, size, align, placement(s, size, align)),
    decreases s.len(),
{
    if s.len() > 0 {
        if s.last().fits(size, align) {
            assert(last_fit(s, size, align, s.len() - 1));
        } else {
            let t = s.drop_last();
            if none_fits(t, size, align) {
                assert forall|j: int| 0 <= j < s.len() implies !(#[trigger] s[j]).fits(
                    size,
                    align,
                ) by {
                    if j < t.len() {
                        assert(!t[j].fits(size, align));
                    }
                }
            }
            lemma_last_fit_exists(t, size, align);
            let i = placement(t, size, align);
            assert(s[i] == t[i]);
            assert forall|j: int| i < j < s.len() implies !(#[trigger] s[j]).fits(size, align) by {
                if j < t.len() {
                    assert(!t[j].fits(size, align));
                }
            }
            assert(last_fit(s, size, align, i));
        }
    }
}

/// The pass skips the segments that do not touch their successor.
pub proof fn lemma_coalesce_skips(s: Seq<FreeSegment>, from: int, to: int)
    requires
        0 <= from <= to,
        to < s.len(),
        forall|m: int| from <= m < to ==> (#[trigger] s[m]).end() != s[m + 1].start,
    ensures
        coalesce_from(s, from) == coalesce_from(s, to),
    decreases to - from,
{
    if from < to {
        assert(s[from].end() != s[from + 1].start);
        lemma_coalesce_skips(s, from + 1, to);
    }
}

/// The pass leaves a coalesced list as it is.
pub proof fn lemma_coalesced_is_fixed(s: Seq<FreeSegment>, i: int)
    requires
        coalesced(s),
        0 <= i,
    ensures
        coalesce_from(s, i) == s,
    decreases s.len() - i,
{
    if i + 1 < s.len() {
        assert(s[i].end() < s[i + 1].start);
        lemma_coalesced_is_fixed(s, i + 1);
    }
}

/// Allocating a block and freeing it at once restores the free list as it
/// was, segment for segment, and so every free byte of the pool.
pub proof fn lemma_allocate_then_free_restores(free: Seq<FreeSegment>, size: usize, align: usize)
    requires
        coalesced(free),
        align > 0,
        !none_fits(free, size, align),
    ensures
        after_free(after_alloc(free, size, align), allocated(free, size, align)) == free,
        free_bytes(after_free(after_alloc(free, size, align), allocated(free, size, align)))
            == free_bytes(free),
{
    lemma_last_fit_exists(free, size, align);
    let i = placement(free, size, align);
    let seg = free[i];
    assert(seg.in_bounds());
    lemma_padding_bounds(seg.end(), size as int, align as int);
    let shrunk = seg.shrunk(size, align);
    let block = seg.carved(size, align);
    let back = block.released();
    let s1 = free.update(i, shrunk);
    assert(back.start == shrunk.end());
    assert(back.end() == seg.end());
    assert forall|j: int| 0 <= j < i + 1 implies (#[trigger] s1[j]).start < back.start by {
        if j < i {
            assert(free[j].end() < free[i].start);
        }
    }
    assert forall|j: int| i + 1 <= j < s1.len() implies (#[trigger] s1[j]).start >= back.start by {
        assert(free[i].end() < free[j].start);
    }
    lemma_rank_is_index(s1, back.start as int, i + 1);
    let s2 = s1.insert(i + 1, back);
    assert(s2 == with_segment(s1, back));
    assert forall|m: int| 0 <= m < i implies (#[trigger] s2[m]).end() != s2[m + 1].start by {
        assert(s2[m] == free[m]);
        assert(s2[m + 1].start == free[m + 1].start);
        assert(free[m].end() < free[m + 1].start);
    }
    lemma_coalesce_skips(s2, 0, i);
    let s3 = s2.remove(i + 1).update(i, merged(s2[i], s2[i + 1]));
    assert(s2[i] == shrunk && s2[i + 1] == back);
    assert(merged(shrunk, back) == seg);
    assert(s3 =~= free);
    assert(coalesce_from(s2, i) == coalesce_from(s3, i));
    lemma_coalesced_is_fixed(free, i);
}

} // verus!
