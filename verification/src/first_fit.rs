//! First-fit free-list heap allocator strategy.
//!
//! The heap window is carved into an ordered list of free blocks. An
//! allocation walks the list in address order and serves the request from
//! the first block whose size and alignment can satisfy it, splitting off
//! whatever the block has to spare; a deallocation returns the range to the
//! list and merges it with address-contiguous neighbours, so free blocks
//! are always kept disjoint, sorted and coalesced. The running total of
//! bytes handed out plus the bytes in free blocks always equals the size of
//! the heap window: nothing leaks and nothing is counted twice.
//!
//! Like the bump strategy, this allocator works on plain addresses and
//! never touches the memory it parcels out.

use vstd::prelude::*;
use crate::bump::{spec_align_up, lemma_align_up};
use crate::memory::AllocError;

verus! {

/// A maximal run of free bytes: the half-open range
/// `[addr, addr + size)`.
#[derive(Clone, Copy, PartialEq, Eq, Structural, Debug)]
pub struct FreeBlock {
    pub addr: usize,
    pub size: usize,
}

/// Whether address `x` lies in block `b`.
pub open spec fn in_block(b: FreeBlock, x: int) -> bool {
    b.addr <= x < b.addr + b.size
}

/// Whether address `x` lies in some block of `s`.
pub open spec fn seq_free(s: Seq<FreeBlock>, x: int) -> bool {
    exists|i: int| 0 <= i < s.len() && in_block(#[trigger] s[i], x)
}

/// Total bytes held by the blocks of `s`.
pub open spec fn sum_sizes(s: Seq<FreeBlock>) -> int
    decreases s.len(),
{
    if s.len() == 0 {
        0
    } else {
        s[0].size + sum_sizes(s.drop_first())
    }
}

/// The free-list discipline: every block is a non-empty range inside
/// `[lo, hi)`, and consecutive blocks are sorted with a gap of at least one
/// byte between them — free blocks never overlap, and two adjacent free
/// ranges can not both be on the list (they would have been coalesced).
pub open spec fn blocks_wf(s: Seq<FreeBlock>, lo: int, hi: int) -> bool {
    &&& forall|i: int| 0 <= i < s.len() ==> lo <= (#[trigger] s[i]).addr
        && s[i].addr + s[i].size <= hi && s[i].size >= 1
    &&& forall|i: int| 0 <= i < s.len() - 1 ==> (#[trigger] s[i]).addr + s[i].size < s[i + 1].addr
}

/// In a well-formed list every earlier block ends strictly below every
/// later block's start, not just its immediate neighbour's.
pub proof fn lemma_blocks_ordered(s: Seq<FreeBlock>, lo: int, hi: int, i: int, j: int)
    requires
        blocks_wf(s, lo, hi),
        0 <= i < j < s.len(),
    ensures
        s[i].addr + s[i].size < s[j].addr,
    decreases j - i,
{
    if j > i + 1 {
        lemma_blocks_ordered(s, lo, hi, i, j - 1);
    }
}

/// Removing block `k` removes exactly its bytes from the total.
pub proof fn lemma_sum_remove(s: Seq<FreeBlock>, k: int)
    requires
        0 <= k < s.len(),
    ensures
        sum_sizes(s.remove(k)) == sum_sizes(s) - s[k].size,
    decreases s.len(),
{
    if k == 0 {
        assert(s.remove(0) =~= s.drop_first());
    } else {
        lemma_sum_remove(s.drop_first(), k - 1);
        assert(s.remove(k).drop_first() =~= s.drop_first().remove(k - 1));
    }
}

/// Inserting a block adds exactly its bytes to the total.
pub proof fn lemma_sum_insert(s: Seq<FreeBlock>, k: int, b: FreeBlock)
    requires
        0 <= k <= s.len(),
    ensures
        sum_sizes(s.insert(k, b)) == sum_sizes(s) + b.size,
    decreases s.len(),
{
    if k == 0 {
        assert(s.insert(0, b).drop_first() =~= s);
    } else {
        lemma_sum_insert(s.drop_first(), k - 1, b);
        assert(s.insert(k, b).drop_first() =~= s.drop_first().insert(k - 1, b));
    }
}

/// Updating block `k` changes the total by the difference in size.
pub proof fn lemma_sum_update(s: Seq<FreeBlock>, k: int, b: FreeBlock)
    requires
        0 <= k < s.len(),
    ensures
        sum_sizes(s.update(k, b)) == sum_sizes(s) - s[k].size + b.size,
    decreases s.len(),
{
    if k == 0 {
        assert(s.update(0, b).drop_first() =~= s.drop_first());
    } else {
        lemma_sum_update(s.drop_first(), k - 1, b);
        assert(s.update(k, b).drop_first() =~= s.drop_first().update(k - 1, b));
    }
}

/// A total of block sizes is never negative.
pub proof fn lemma_sum_nonneg(s: Seq<FreeBlock>)
    ensures
        sum_sizes(s) >= 0,
    decreases s.len(),
{
    if s.len() > 0 {
        lemma_sum_nonneg(s.drop_first());
    }
}

/// Disjoint, sorted blocks inside `[lo, hi)` can not hold more bytes than
/// the window itself.
pub proof fn lemma_sum_bounded(s: Seq<FreeBlock>, lo: int, hi: int)
    requires
        blocks_wf(s, lo, hi),
        lo <= hi,
    ensures
        sum_sizes(s) <= hi - lo,
    decreases s.len(),
{
    if s.len() > 0 {
        let rest = s.drop_first();
        let mid = s[0].addr + s[0].size;
        assert forall|i: int| 0 <= i < rest.len() implies mid <= (#[trigger] rest[i]).addr
            && rest[i].addr + rest[i].size <= hi && rest[i].size >= 1 by {
            assert(rest[i] == s[i + 1]);
            lemma_blocks_ordered(s, lo, hi, 0, i + 1);
        }
        assert forall|i: int| 0 <= i < rest.len() - 1 implies (#[trigger] rest[i]).addr
            + rest[i].size < rest[i + 1].addr by {
            assert(rest[i] == s[i + 1] && rest[i + 1] == s[i + 2]);
        }
        lemma_sum_bounded(rest, mid, hi);
    }
}

/// Membership after an insertion: exactly the old bytes plus the new
/// block's bytes.
pub proof fn lemma_seq_free_insert(s: Seq<FreeBlock>, k: int, b: FreeBlock, x: int)
    requires
        0 <= k <= s.len(),
    ensures
        seq_free(s.insert(k, b), x) == (seq_free(s, x) || in_block(b, x)),
{
    let t = s.insert(k, b);
    if seq_free(s, x) {
        let j = choose|j: int| 0 <= j < s.len() && in_block(s[j], x);
        if j < k {
            assert(t[j] == s[j]);
        } else {
            assert(t[j + 1] == s[j]);
        }
        assert(seq_free(t, x));
    }
    if in_block(b, x) {
        assert(t[k] == b);
        assert(seq_free(t, x));
    }
    if seq_free(t, x) {
        let j = choose|j: int| 0 <= j < t.len() && in_block(t[j], x);
        if j == k {
            assert(in_block(b, x));
        } else if j < k {
            assert(s[j] == t[j]);
            assert(seq_free(s, x));
        } else {
            assert(s[j - 1] == t[j]);
            assert(seq_free(s, x));
        }
    }
}

/// Membership after a removal: the old bytes minus the removed block's
/// bytes — provided no other block shares bytes with it, which the
/// free-list discipline guarantees.
pub proof fn lemma_seq_free_remove(s: Seq<FreeBlock>, lo: int, hi: int, k: int, x: int)
    requires
        blocks_wf(s, lo, hi),
        0 <= k < s.len(),
    ensures
        seq_free(s.remove(k), x) == (seq_free(s, x) && !in_block(s[k], x)),
{
    let t = s.remove(k);
    if seq_free(t, x) {
        let j = choose|j: int| 0 <= j < t.len() && in_block(t[j], x);
        if j < k {
            assert(t[j] == s[j]);
            assert(seq_free(s, x));
            if in_block(s[k], x) {
                lemma_blocks_ordered(s, lo, hi, j, k);
            }
        } else {
            assert(t[j] == s[j + 1]);
            assert(seq_free(s, x));
            if in_block(s[k], x) {
                lemma_blocks_ordered(s, lo, hi, k, j + 1);
            }
        }
    }
    if seq_free(s, x) && !in_block(s[k], x) {
        let j = choose|j: int| 0 <= j < s.len() && in_block(s[j], x);
        if j < k {
            assert(t[j] == s[j]);
        } else {
            assert(t[j - 1] == s[j]);
        }
        assert(seq_free(t, x));
    }
}

/// Membership after updating block `k`: the old bytes, minus the replaced
/// block's, plus the replacement's.
pub proof fn lemma_seq_free_update(s: Seq<FreeBlock>, lo: int, hi: int, k: int, b: FreeBlock, x: int)
    requires
        blocks_wf(s, lo, hi),
        0 <= k < s.len(),
    ensures
        seq_free(s.update(k, b), x) == ((seq_free(s, x) && !in_block(s[k], x)) || in_block(b, x)),
{
    assert(s.update(k, b) =~= s.remove(k).insert(k, b));
    lemma_seq_free_remove(s, lo, hi, k, x);
    lemma_seq_free_insert(s.remove(k), k, b, x);
}

/// The free list after the range `[a, a + size)` is carved out of block
/// `k`: the block is taken off the list and whatever it had to spare below
/// and above the range is returned to it.
pub open spec fn carve(s: Seq<FreeBlock>, k: int, a: int, size: int) -> Seq<FreeBlock> {
    let b = s[k];
    let front = a - b.addr;
    let back = b.addr + b.size - (a + size);
    let t0 = s.remove(k);
    let t1 = if back >= 1 {
        t0.insert(k, FreeBlock { addr: (a + size) as usize, size: back as usize })
    } else {
        t0
    };
    if front >= 1 {
        t1.insert(k, FreeBlock { addr: b.addr, size: front as usize })
    } else {
        t1
    }
}

/// Carving a range out of one block keeps the free-list discipline, takes
/// exactly the carved bytes off the total, and frees exactly the carved
/// bytes no longer.
pub proof fn lemma_carve(s: Seq<FreeBlock>, lo: int, hi: int, k: int, a: int, size: int)
    requires
        blocks_wf(s, lo, hi),
        0 <= lo,
        hi <= usize::MAX,
        0 <= k < s.len(),
        s[k].addr <= a,
        a + size <= s[k].addr + s[k].size,
        size >= 1,
    ensures
        ({
            let t = carve(s, k, a, size);
            &&& blocks_wf(t, lo, hi)
            &&& sum_sizes(t) == sum_sizes(s) - size
            &&& forall|x: int| seq_free(t, x) == (seq_free(s, x) && !(a <= x < a + size))
        }),
{
    lemma_carve_wf(s, lo, hi, k, a, size);
    lemma_carve_sum(s, lo, hi, k, a, size);
    lemma_carve_free(s, lo, hi, k, a, size);
}

/// The carved list keeps the free-list discipline.
#[verifier::rlimit(50)]
proof fn lemma_carve_wf(s: Seq<FreeBlock>, lo: int, hi: int, k: int, a: int, size: int)
    requires
        blocks_wf(s, lo, hi),
        0 <= lo,
        hi <= usize::MAX,
        0 <= k < s.len(),
        s[k].addr <= a,
        a + size <= s[k].addr + s[k].size,
        size >= 1,
    ensures
        blocks_wf(carve(s, k, a, size), lo, hi),
{
    let t = carve(s, k, a, size);
    assert forall|i: int| 0 <= i < t.len() implies lo <= (#[trigger] t[i]).addr
        && t[i].addr + t[i].size <= hi && t[i].size >= 1 by {
        lemma_carve_index(s, k, a, size, i);
    }
    assert forall|i: int| 0 <= i < t.len() - 1 implies (#[trigger] t[i]).addr + t[i].size
        < t[i + 1].addr by {
        lemma_carve_index(s, k, a, size, i);
        lemma_carve_index(s, k, a, size, i + 1);
    }
}

/// The carved list holds exactly the carved bytes less.
proof fn lemma_carve_sum(s: Seq<FreeBlock>, lo: int, hi: int, k: int, a: int, size: int)
    requires
        blocks_wf(s, lo, hi),
        0 <= lo,
        hi <= usize::MAX,
        0 <= k < s.len(),
        s[k].addr <= a,
        a + size <= s[k].addr + s[k].size,
        size >= 1,
    ensures
        sum_sizes(carve(s, k, a, size)) == sum_sizes(s) - size,
{
    let b = s[k];
    let front = a - b.addr;
    let back = b.addr + b.size - (a + size);
    let front_b = FreeBlock { addr: b.addr, size: front as usize };
    let back_b = FreeBlock { addr: (a + size) as usize, size: back as usize };
    let t0 = s.remove(k);
    let t1 = if back >= 1 { t0.insert(k, back_b) } else { t0 };
    lemma_sum_remove(s, k);
    if back >= 1 {
        lemma_sum_insert(t0, k, back_b);
    }
    if front >= 1 {
        lemma_sum_insert(t1, k, front_b);
    }
}

/// Exactly the carved bytes stop being free.
#[verifier::rlimit(50)]
proof fn lemma_carve_free(s: Seq<FreeBlock>, lo: int, hi: int, k: int, a: int, size: int)
    requires
        blocks_wf(s, lo, hi),
        0 <= lo,
        hi <= usize::MAX,
        0 <= k < s.len(),
        s[k].addr <= a,
        a + size <= s[k].addr + s[k].size,
        size >= 1,
    ensures
        forall|x: int| seq_free(carve(s, k, a, size), x) == (seq_free(s, x) && !(a <= x < a
            + size)),
{
    let b = s[k];
    let front = a - b.addr;
    let back = b.addr + b.size - (a + size);
    let front_b = FreeBlock { addr: b.addr, size: front as usize };
    let back_b = FreeBlock { addr: (a + size) as usize, size: back as usize };
    let t0 = s.remove(k);
    let t1 = if back >= 1 { t0.insert(k, back_b) } else { t0 };
    let t = if front >= 1 { t1.insert(k, front_b) } else { t1 };
    assert forall|x: int| seq_free(t, x) == (seq_free(s, x) && !(a <= x < a + size)) by {
        lemma_seq_free_remove(s, lo, hi, k, x);
        if back >= 1 {
            lemma_seq_free_insert(t0, k, back_b, x);
        }
        if front >= 1 {
            lemma_seq_free_insert(t1, k, front_b, x);
        }
        if seq_free(s, x) && in_block(b, x) {
            assert(in_block(b, x) == (in_block(front_b, x) || (a <= x < a + size)
                || in_block(back_b, x)));
        }
    }
}

/// Where each block of the carved list comes from: an untouched block of
/// `s`, or one of the two spare pieces of block `k`.
proof fn lemma_carve_index(s: Seq<FreeBlock>, k: int, a: int, size: int, i: int)
    requires
        0 <= k < s.len(),
        s[k].addr <= a,
        a + size <= s[k].addr + s[k].size,
        size >= 1,
        0 <= i < carve(s, k, a, size).len(),
    ensures
        ({
            let b = s[k];
            let front = a - b.addr;
            let back = b.addr + b.size - (a + size);
            let t = carve(s, k, a, size);
            let nfront: int = if front >= 1 { 1 } else { 0 };
            let nback: int = if back >= 1 { 1 } else { 0 };
            &&& t.len() == s.len() - 1 + nfront + nback
            &&& (i < k ==> t[i] == s[i])
            &&& (i >= k + nfront + nback ==> t[i] == s[i + 1 - nfront - nback])
            &&& (front >= 1 && i == k ==> t[i] == FreeBlock { addr: b.addr, size: front as usize })
            &&& (back >= 1 && i == k + nfront ==> t[i] == FreeBlock {
                addr: (a + size) as usize,
                size: back as usize,
            })
        }),
{
}

/// Removing a block keeps the free-list discipline.
pub proof fn lemma_blocks_wf_remove(s: Seq<FreeBlock>, lo: int, hi: int, k: int)
    requires
        blocks_wf(s, lo, hi),
        0 <= k < s.len(),
    ensures
        blocks_wf(s.remove(k), lo, hi),
{
    let t = s.remove(k);
    assert forall|i: int| 0 <= i < t.len() - 1 implies (#[trigger] t[i]).addr + t[i].size
        < t[i + 1].addr by {
        if i < k - 1 {
            assert(t[i] == s[i] && t[i + 1] == s[i + 1]);
        } else if i == k - 1 {
            assert(t[i] == s[i] && t[i + 1] == s[i + 2]);
            lemma_blocks_ordered(s, lo, hi, i, i + 2);
        } else {
            assert(t[i] == s[i + 1] && t[i + 1] == s[i + 2]);
        }
    }
}

/// Where a returned range `[addr, addr + size)` sits relative to the free
/// list: every block before position `k` ends at or below it, every block
/// from `k` on starts at or above its end.
pub open spec fn give_back_pos(s: Seq<FreeBlock>, k: int, addr: int, size: int) -> bool {
    &&& 0 <= k <= s.len()
    &&& forall|j: int| 0 <= j < k ==> (#[trigger] s[j]).addr + s[j].size <= addr
    &&& forall|j: int| k <= j < s.len() ==> addr + size <= (#[trigger] s[j]).addr
}

/// A range that is free nowhere splits a well-formed list at the first
/// block starting at or above it: everything before ends at or below the
/// range, everything after starts at or above its end.
proof fn lemma_give_back_position(s: Seq<FreeBlock>, lo: int, hi: int, k: int, addr: int, size: int)
    requires
        blocks_wf(s, lo, hi),
        size >= 1,
        forall|x: int| addr <= x < addr + size ==> !seq_free(s, x),
        0 <= k <= s.len(),
        forall|j: int| 0 <= j < k ==> (#[trigger] s[j]).addr < addr,
        k < s.len() ==> s[k].addr >= addr,
    ensures
        give_back_pos(s, k, addr, size),
{
    assert forall|j: int| 0 <= j < k implies (#[trigger] s[j]).addr + s[j].size <= addr by {
        if s[j].addr + s[j].size > addr {
            assert(in_block(s[j], addr));
            assert(seq_free(s, addr));
        }
    }
    assert forall|j: int| k <= j < s.len() implies addr + size <= (#[trigger] s[j]).addr by {
        if j > k {
            lemma_blocks_ordered(s, lo, hi, k, j);
        }
        if s[j].addr < addr + size {
            assert(in_block(s[j], s[j].addr as int));
            assert(seq_free(s, s[j].addr as int));
        }
    }
}

/// Returning a range that is contiguous with the blocks on both sides
/// merges all three into one block.
#[verifier::rlimit(50)]
proof fn lemma_give_back_both(s: Seq<FreeBlock>, lo: int, hi: int, k: int, addr: int, size: int)
    requires
        blocks_wf(s, lo, hi),
        0 <= lo,
        hi <= usize::MAX,
        lo <= addr,
        addr + size <= hi,
        size >= 1,
        give_back_pos(s, k, addr, size),
        1 <= k < s.len(),
        s[k - 1].addr + s[k - 1].size == addr,
        s[k].addr == addr + size,
    ensures
        ({
            let merged = FreeBlock {
                addr: s[k - 1].addr,
                size: (s[k - 1].size + size + s[k].size) as usize,
            };
            let t = s.remove(k).update(k - 1, merged);
            &&& blocks_wf(t, lo, hi)
            &&& sum_sizes(t) == sum_sizes(s) + size
            &&& forall|x: int| seq_free(t, x) == (seq_free(s, x) || (addr <= x < addr + size))
        }),
{
    let merged = FreeBlock {
        addr: s[k - 1].addr,
        size: (s[k - 1].size + size + s[k].size) as usize,
    };
    let t0 = s.remove(k);
    let t = t0.update(k - 1, merged);
    lemma_blocks_wf_remove(s, lo, hi, k);
    lemma_sum_remove(s, k);
    lemma_sum_update(t0, k - 1, merged);
    assert forall|i: int| 0 <= i < t.len() - 1 implies (#[trigger] t[i]).addr + t[i].size
        < t[i + 1].addr by {
        if i + 1 < k - 1 || i > k - 1 {
            assert(t[i] == t0[i] && t[i + 1] == t0[i + 1]);
        }
    }
    assert(blocks_wf(t, lo, hi));
    assert forall|x: int| seq_free(t, x) == (seq_free(s, x) || (addr <= x < addr + size)) by {
        lemma_seq_free_remove(s, lo, hi, k, x);
        lemma_seq_free_update(t0, lo, hi, k - 1, merged, x);
        assert(t0[k - 1] == s[k - 1]);
        assert(in_block(merged, x) == (in_block(s[k - 1], x) || (addr <= x < addr + size)
            || in_block(s[k], x)));
    }
}

/// Returning a range contiguous with the block on its left only extends
/// that block.
#[verifier::rlimit(50)]
proof fn lemma_give_back_left(s: Seq<FreeBlock>, lo: int, hi: int, k: int, addr: int, size: int)
    requires
        blocks_wf(s, lo, hi),
        0 <= lo,
        hi <= usize::MAX,
        lo <= addr,
        addr + size <= hi,
        size >= 1,
        give_back_pos(s, k, addr, size),
        1 <= k <= s.len(),
        s[k - 1].addr + s[k - 1].size == addr,
        k < s.len() ==> addr + size < s[k].addr,
    ensures
        ({
            let merged = FreeBlock { addr: s[k - 1].addr, size: (s[k - 1].size + size) as usize };
            let t = s.update(k - 1, merged);
            &&& blocks_wf(t, lo, hi)
            &&& sum_sizes(t) == sum_sizes(s) + size
            &&& forall|x: int| seq_free(t, x) == (seq_free(s, x) || (addr <= x < addr + size))
        }),
{
    let merged = FreeBlock { addr: s[k - 1].addr, size: (s[k - 1].size + size) as usize };
    let t = s.update(k - 1, merged);
    lemma_sum_update(s, k - 1, merged);
    assert forall|i: int| 0 <= i < t.len() - 1 implies (#[trigger] t[i]).addr + t[i].size
        < t[i + 1].addr by {
        if i + 1 < k - 1 || i > k - 1 {
            assert(t[i] == s[i] && t[i + 1] == s[i + 1]);
        }
    }
    assert(blocks_wf(t, lo, hi));
    assert forall|x: int| seq_free(t, x) == (seq_free(s, x) || (addr <= x < addr + size)) by {
        lemma_seq_free_update(s, lo, hi, k - 1, merged, x);
        assert(in_block(merged, x) == (in_block(s[k - 1], x) || (addr <= x < addr + size)));
    }
}

/// Returning a range contiguous with the block on its right only extends
/// that block downwards.
#[verifier::rlimit(50)]
proof fn lemma_give_back_right(s: Seq<FreeBlock>, lo: int, hi: int, k: int, addr: int, size: int)
    requires
        blocks_wf(s, lo, hi),
        0 <= lo,
        hi <= usize::MAX,
        lo <= addr,
        addr + size <= hi,
        size >= 1,
        give_back_pos(s, k, addr, size),
        0 <= k < s.len(),
        s[k].addr == addr + size,
        k >= 1 ==> s[k - 1].addr + s[k - 1].size < addr,
    ensures
        ({
            let merged = FreeBlock { addr: addr as usize, size: (size + s[k].size) as usize };
            let t = s.update(k, merged);
            &&& blocks_wf(t, lo, hi)
            &&& sum_sizes(t) == sum_sizes(s) + size
            &&& forall|x: int| seq_free(t, x) == (seq_free(s, x) || (addr <= x < addr + size))
        }),
{
    let merged = FreeBlock { addr: addr as usize, size: (size + s[k].size) as usize };
    let t = s.update(k, merged);
    lemma_sum_update(s, k, merged);
    assert forall|i: int| 0 <= i < t.len() - 1 implies (#[trigger] t[i]).addr + t[i].size
        < t[i + 1].addr by {
        if i + 1 < k || i > k {
            assert(t[i] == s[i] && t[i + 1] == s[i + 1]);
        }
    }
    assert(blocks_wf(t, lo, hi));
    assert forall|x: int| seq_free(t, x) == (seq_free(s, x) || (addr <= x < addr + size)) by {
        lemma_seq_free_update(s, lo, hi, k, merged, x);
        assert(in_block(merged, x) == (in_block(s[k], x) || (addr <= x < addr + size)));
    }
}

/// Returning a range contiguous with no block adds a fresh block of its
/// own.
#[verifier::rlimit(100)]
proof fn lemma_give_back_fresh(s: Seq<FreeBlock>, lo: int, hi: int, k: int, addr: int, size: int)
    requires
        blocks_wf(s, lo, hi),
        0 <= lo,
        hi <= usize::MAX,
        lo <= addr,
        addr + size <= hi,
        size >= 1,
        give_back_pos(s, k, addr, size),
        k >= 1 ==> s[k - 1].addr + s[k - 1].size < addr,
        k < s.len() ==> addr + size < s[k].addr,
    ensures
        ({
            let fresh = FreeBlock { addr: addr as usize, size: size as usize };
            let t = s.insert(k, fresh);
            &&& blocks_wf(t, lo, hi)
            &&& sum_sizes(t) == sum_sizes(s) + size
            &&& forall|x: int| seq_free(t, x) == (seq_free(s, x) || (addr <= x < addr + size))
        }),
{
    let fresh = FreeBlock { addr: addr as usize, size: size as usize };
    let t = s.insert(k, fresh);
    lemma_sum_insert(s, k, fresh);
    assert forall|i: int| 0 <= i < t.len() implies lo <= (#[trigger] t[i]).addr
        && t[i].addr + t[i].size <= hi && t[i].size >= 1 by {
        if i < k {
            assert(t[i] == s[i]);
        } else if i == k {
            assert(t[i] == fresh);
        } else {
            assert(t[i] == s[i - 1]);
        }
    }
    assert forall|i: int| 0 <= i < t.len() - 1 implies (#[trigger] t[i]).addr + t[i].size
        < t[i + 1].addr by {
        if i < k {
            assert(t[i] == s[i]);
        } else if i == k {
            assert(t[i] == fresh);
        } else {
            assert(t[i] == s[i - 1]);
        }
        if i + 1 < k {
            assert(t[i + 1] == s[i + 1]);
        } else if i + 1 == k {
            assert(t[i + 1] == fresh);
        } else {
            assert(t[i + 1] == s[i]);
        }
    }
    assert(blocks_wf(t, lo, hi));
    assert forall|x: int| seq_free(t, x) == (seq_free(s, x) || (addr <= x < addr + size)) by {
        lemma_seq_free_insert(s, k, fresh, x);
    }
}

/// Whether `b` can serve a request of `size` bytes at alignment `align`:
/// the block still covers the request once its start is rounded up.
pub open spec fn block_fits(b: FreeBlock, size: usize, align: usize) -> bool {
    spec_align_up(b.addr as int, align as int) + size <= b.addr + b.size
}

/// Block `i` is the one first fit owes the request: it fits, and no block
/// before it does.
pub open spec fn first_fit_choice(s: Seq<FreeBlock>, size: usize, align: usize, i: int) -> bool {
    &&& 0 <= i < s.len()
    &&& block_fits(s[i], size, align)
    &&& forall|j: int| 0 <= j < i ==> !block_fits(#[trigger] s[j], size, align)
}

/// First-fit allocator state: the heap window `[heap_start, heap_end)`, the
/// free blocks in address order, and the bytes currently handed out.
pub struct FirstFitAllocator {
    pub heap_start: usize,
    pub heap_end: usize,
    pub free: Vec<FreeBlock>,
    pub allocated: usize,
}

impl FirstFitAllocator {
    /// The free list obeys the free-list discipline inside the heap window,
    /// and the bytes handed out plus the bytes still free account exactly
    /// for the whole window: nothing leaks and nothing is counted twice.
    pub open spec fn wf(self) -> bool {
        &&& self.heap_start <= self.heap_end
        &&& blocks_wf(self.free@, self.heap_start as int, self.heap_end as int)
        &&& self.allocated + sum_sizes(self.free@) == self.heap_end - self.heap_start
    }

    /// Whether address `x` is currently free.
    pub open spec fn is_free(self, x: int) -> bool {
        seq_free(self.free@, x)
    }

    /// The zero-capacity placeholder the kernel starts with: every non-zero
    /// request fails until `init` configures the real heap window.
    pub fn new() -> (r: FirstFitAllocator)
        ensures
            r.wf(),
            r.heap_start == 0 && r.heap_end == 0 && r.allocated == 0,
            r.free@.len() == 0,
    {
        FirstFitAllocator { heap_start: 0, heap_end: 0, free: Vec::new(), allocated: 0 }
    }

    /// Records the heap window `[heap_start, heap_start + heap_size)` and
    /// makes all of it one free block. Called exactly once before the first
    /// allocation; a second call abandons the old window with no migration
    /// of prior allocations, so it must not happen while any allocation is
    /// live.
    pub fn init(&mut self, heap_start: usize, heap_size: usize)
        requires
            heap_start + heap_size <= usize::MAX,
        ensures
            final(self).wf(),
            final(self).heap_start == heap_start,
            final(self).heap_end == heap_start + heap_size,
            final(self).allocated == 0,
            forall|x: int| final(self).is_free(x) == (heap_start <= x < heap_start + heap_size),
            heap_size == 0 ==> final(self).free@ == Seq::<FreeBlock>::empty(),
            heap_size >= 1 ==> final(self).free@ == seq![
                FreeBlock { addr: heap_start, size: heap_size },
            ],
    {
        self.heap_start = heap_start;
        self.heap_end = heap_start + heap_size;
        self.allocated = 0;
        let mut free: Vec<FreeBlock> = Vec::new();
        if heap_size >= 1 {
            free.push(FreeBlock { addr: heap_start, size: heap_size });
        }
        self.free = free;
        proof {
            if heap_size >= 1 {
                assert(self.free@ =~= seq![FreeBlock { addr: heap_start, size: heap_size }]);
                assert(self.free@.drop_first() =~= Seq::<FreeBlock>::empty());
                assert(sum_sizes(self.free@) == heap_size) by {
                    reveal_with_fuel(sum_sizes, 2);
                }
                assert forall|x: int| heap_start <= x < heap_start + heap_size
                    implies self.is_free(x) by {
                    assert(in_block(self.free@[0], x));
                }
            } else {
                assert(self.free@ =~= Seq::<FreeBlock>::empty());
                assert(sum_sizes(self.free@) == 0);
            }
        }
    }

    /// Searches the free blocks in address order for the first one whose
    /// size and alignment can satisfy the request, carves the aligned range
    /// out of it, and returns whatever the block had to spare below and
    /// above the range to the list. Fails, mutating nothing, exactly when
    /// no block fits — including when the size/alignment arithmetic would
    /// overflow the address width. A zero-size request is granted trivially
    /// with the non-null, suitably aligned address `align`.
    #[verifier::rlimit(100)]
    pub fn allocate(&mut self, size: usize, align: usize) -> (r: Result<usize, AllocError>)
        requires
            old(self).wf(),
            align >= 1,
        ensures
            final(self).wf(),
            final(self).heap_start == old(self).heap_start,
            final(self).heap_end == old(self).heap_end,
            size == 0 ==> r == Ok::<usize, AllocError>(align) && *final(self) == *old(self),
            r is Err ==> *final(self) == *old(self) && size >= 1
                && (forall|j: int| 0 <= j < old(self).free@.len()
                    ==> !block_fits(#[trigger] old(self).free@[j], size, align)),
            // a granted address is aligned
            r matches Ok(a) ==> a as int % align as int == 0,
            size >= 1 ==> (r matches Ok(a) ==> {
                // the request is served from the first block that fits
                &&& exists|i: int| #[trigger] first_fit_choice(old(self).free@, size, align, i)
                    && a == spec_align_up(old(self).free@[i].addr as int, align as int)
                // the granted range lies inside the heap window
                &&& old(self).heap_start <= a && a + size <= old(self).heap_end
                // it was free, and exactly it stops being free
                &&& forall|x: int| a <= x < a + size ==> old(self).is_free(x)
                &&& forall|x: int| final(self).is_free(x)
                    == (old(self).is_free(x) && !(a <= x < a + size))
                // the bytes handed out grow by exactly the request
                &&& final(self).allocated == old(self).allocated + size
            }),
    {
        if size == 0 {
            proof {
                assert(align as int % align as int == 0) by (nonlinear_arith)
                    requires align >= 1,
                ;
            }
            return Ok(align);
        }
        let ghost s0 = *self;
        let mut k: usize = 0;
        loop
            invariant
                *self == s0,
                s0 == *old(self),
                s0.wf(),
                align >= 1,
                size >= 1,
                k <= s0.free@.len(),
                forall|j: int| 0 <= j < k ==> !block_fits(#[trigger] s0.free@[j], size, align),
            decreases s0.free@.len() - k,
        {
            if k >= self.free.len() {
                return Err(AllocError);
            }
            let b = self.free[k];
            let addr128 = b.addr as u128;
            let align128 = align as u128;
            let x: u128 = addr128 + (align128 - 1);
            let q: u128 = x / align128;
            proof {
                assert(q as int * align128 as int <= x as int) by (nonlinear_arith)
                    requires
                        align128 as int >= 1,
                        x as int >= 0,
                        q as int == x as int / align128 as int,
                ;
                lemma_align_up(b.addr as int, align as int);
            }
            let aligned128: u128 = q * align128;
            assert(aligned128 == spec_align_up(b.addr as int, align as int));
            if aligned128 + size as u128 <= b.addr as u128 + b.size as u128 {
                assert(block_fits(b, size, align));
                assert(first_fit_choice(s0.free@, size, align, k as int));
                let a: usize = aligned128 as usize;
                let front: usize = a - b.addr;
                let back: usize = (b.addr + b.size) - (a + size);
                proof {
                    lemma_carve(s0.free@, s0.heap_start as int, s0.heap_end as int, k as int,
                        a as int, size as int);
                    lemma_sum_remove(s0.free@, k as int);
                    lemma_sum_nonneg(s0.free@.remove(k as int));
                    assert forall|x: int| a <= x < a + size implies s0.is_free(x) by {
                        assert(in_block(s0.free@[k as int], x));
                    }
                }
                self.free.remove(k);
                if back >= 1 {
                    self.free.insert(k, FreeBlock { addr: a + size, size: back });
                }
                if front >= 1 {
                    self.free.insert(k, FreeBlock { addr: b.addr, size: front });
                }
                assert(self.free@ =~= carve(s0.free@, k as int, a as int, size as int));
                self.allocated = self.allocated + size;
                return Ok(a);
            }
            k = k + 1;
        }
    }

    /// Returns the range `[addr, addr + size)` — previously granted, hence
    /// inside the heap window and not free — to the free list, merging it
    /// with an address-contiguous neighbour on either side so the list
    /// stays coalesced. A zero-size deallocation matches a zero-size
    /// allocation and changes nothing.
    #[verifier::rlimit(100)]
    pub fn deallocate(&mut self, addr: usize, size: usize)
        requires
            old(self).wf(),
            size >= 1 ==> old(self).heap_start <= addr && addr + size <= old(self).heap_end,
            forall|x: int| addr <= x < addr + size ==> !old(self).is_free(x),
        ensures
            final(self).wf(),
            final(self).heap_start == old(self).heap_start,
            final(self).heap_end == old(self).heap_end,
            size == 0 ==> *final(self) == *old(self),
            size >= 1 ==> final(self).allocated == old(self).allocated - size,
            forall|x: int| final(self).is_free(x) == (old(self).is_free(x) || (addr <= x < addr
                + size)),
    {
        if size == 0 {
            return;
        }
        let ghost s0 = *self;
        let ghost lo = self.heap_start as int;
        let ghost hi = self.heap_end as int;
        let mut k: usize = 0;
        while k < self.free.len() && self.free[k].addr < addr
            invariant
                *self == s0,
                s0 == *old(self),
                size >= 1,
                k <= s0.free@.len(),
                forall|j: int| 0 <= j < k ==> (#[trigger] s0.free@[j]).addr < addr,
            decreases s0.free@.len() - k,
        {
            k = k + 1;
        }
        proof {
            assert forall|x: int| addr <= x < addr + size implies !seq_free(s0.free@, x) by {
                assert(!old(self).is_free(x));
            }
            lemma_give_back_position(s0.free@, lo, hi, k as int, addr as int, size as int);
        }
        self.give_back(k, addr, size);
        proof {
            // what came back is accounted for: the free bytes grew by
            // exactly the returned range, which the window has room for
            lemma_sum_bounded(self.free@, lo, hi);
        }
        self.allocated = self.allocated - size;
    }

    /// Puts the range `[addr, addr + size)`, known to sit between blocks
    /// `k - 1` and `k`, back on the free list, merging it with whichever
    /// neighbours it touches.
    #[verifier::rlimit(100)]
    fn give_back(&mut self, k: usize, addr: usize, size: usize)
        requires
            old(self).heap_start <= old(self).heap_end,
            blocks_wf(old(self).free@, old(self).heap_start as int, old(self).heap_end as int),
            size >= 1,
            old(self).heap_start <= addr,
            addr + size <= old(self).heap_end,
            give_back_pos(old(self).free@, k as int, addr as int, size as int),
        ensures
            final(self).heap_start == old(self).heap_start,
            final(self).heap_end == old(self).heap_end,
            final(self).allocated == old(self).allocated,
            blocks_wf(final(self).free@, old(self).heap_start as int, old(self).heap_end as int),
            sum_sizes(final(self).free@) == sum_sizes(old(self).free@) + size,
            forall|x: int| seq_free(final(self).free@, x) == (seq_free(old(self).free@, x)
                || (addr <= x < addr + size)),
    {
        let ghost s0 = *self;
        let ghost lo = self.heap_start as int;
        let ghost hi = self.heap_end as int;
        let merge_left = k >= 1 && self.free[k - 1].addr + self.free[k - 1].size == addr;
        let merge_right = k < self.free.len() && addr + size == self.free[k].addr;
        if merge_left && merge_right {
            let left = self.free[k - 1];
            let right = self.free[k];
            let merged = FreeBlock { addr: left.addr, size: left.size + size + right.size };
            self.free.remove(k);
            self.free.remove(k - 1);
            self.free.insert(k - 1, merged);
            proof {
                lemma_give_back_both(s0.free@, lo, hi, k as int, addr as int, size as int);
                assert(self.free@ =~= s0.free@.remove(k as int).update(k as int - 1, merged));
            }
        } else if merge_left {
            let left = self.free[k - 1];
            let merged = FreeBlock { addr: left.addr, size: left.size + size };
            self.free.remove(k - 1);
            self.free.insert(k - 1, merged);
            proof {
                lemma_give_back_left(s0.free@, lo, hi, k as int, addr as int, size as int);
                assert(self.free@ =~= s0.free@.update(k as int - 1, merged));
            }
        } else if merge_right {
            let right = self.free[k];
            let merged = FreeBlock { addr, size: size + right.size };
            self.free.remove(k);
            self.free.insert(k, merged);
            proof {
                lemma_give_back_right(s0.free@, lo, hi, k as int, addr as int, size as int);
                assert(self.free@ =~= s0.free@.update(k as int, merged));
            }
        } else {
            let fresh = FreeBlock { addr, size };
            self.free.insert(k, fresh);
            proof {
                lemma_give_back_fresh(s0.free@, lo, hi, k as int, addr as int, size as int);
                assert(self.free@ =~= s0.free@.insert(k as int, fresh));
            }
        }
    }
}

/// Law (first-fit conservation and coalescing): in every well-formed
/// allocator state — `new` and `init` establish well-formedness, and
/// `allocate` and `deallocate` promise to preserve it — the bytes handed
/// out plus the bytes held by free blocks equal the size of the heap
/// window (nothing leaks, nothing is counted twice), and no two
/// address-contiguous free ranges sit uncoalesced on the list.
pub proof fn lemma_first_fit_conservation(s: FirstFitAllocator)
    requires
        s.wf(),
    ensures
        s.allocated + sum_sizes(s.free@) == s.heap_end - s.heap_start,
        forall|i: int| 0 <= i < s.free@.len() - 1 ==> (#[trigger] s.free@[i]).addr
            + s.free@[i].size < s.free@[i + 1].addr,
{
}

} // verus!
