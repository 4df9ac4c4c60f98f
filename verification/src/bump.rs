//! Bump-pointer heap allocator strategy.
//!
//! A cursor starts at the bottom of the heap and only ever moves forward:
//! each allocation rounds it up to the requested alignment and advances it
//! by the requested size. Individual allocations are never reclaimed;
//! instead a live-allocation count is kept, and when a deallocation drives
//! it back to zero the whole arena is reclaimed at once by resetting the
//! cursor to the start of the heap.
//!
//! The allocator works on plain addresses: it hands out byte ranges of the
//! configured heap window and never touches the memory itself. Access to
//! one shared instance is serialized by an exclusive lock outside this
//! library.

use vstd::prelude::*;
use vstd::arithmetic::div_mod::lemma_fundamental_div_mod;
use crate::memory::AllocError;

verus! {

/// Rounds `addr` up to the next multiple of `align`.
pub open spec fn spec_align_up(addr: int, align: int) -> int {
    ((addr + align - 1) / align) * align
}

/// Rounding up never moves an address down, lands on a multiple of the
/// alignment, and moves by less than one alignment unit.
pub proof fn lemma_align_up(addr: int, align: int)
    requires
        addr >= 0,
        align >= 1,
    ensures
        spec_align_up(addr, align) >= addr,
        spec_align_up(addr, align) % align == 0,
        spec_align_up(addr, align) < addr + align,
{
    let x = addr + align - 1;
    let q = x / align;
    let r = x % align;
    lemma_fundamental_div_mod(x, align);
    assert(x == q * align + r);
    assert(q * align == x - r);
    assert((q * align) % align == 0) by (nonlinear_arith)
        requires align >= 1,
    ;
}

/// One operation of the bump allocator, for stating laws about whole
/// operation sequences.
#[derive(Clone, Copy, PartialEq, Eq, Structural, Debug)]
pub enum BumpOp {
    Allocate { size: usize, align: usize },
    Deallocate { size: usize },
}

/// Bump-pointer allocator state: the heap window `[heap_start, heap_end)`,
/// the cursor `next` at which the following allocation is carved out, and
/// the number of allocations still live.
pub struct BumpAllocator {
    pub heap_start: usize,
    pub heap_end: usize,
    pub next: usize,
    pub allocations: usize,
}

impl BumpAllocator {
    /// The cursor stays inside the heap window, and the live count never
    /// exceeds the bytes handed out so far (every live allocation advanced
    /// the cursor by at least one byte).
    pub open spec fn wf(self) -> bool {
        &&& self.heap_start <= self.next <= self.heap_end
        &&& self.allocations <= self.next - self.heap_start
    }

    /// State after an allocation request: for a non-zero size the cursor is
    /// rounded up to the alignment and advanced past the granted range; a
    /// request whose aligned end would leave the heap (or overflow the
    /// address width) changes nothing, and a zero-size request never touches
    /// the cursor.
    pub open spec fn alloc_state(self, size: usize, align: usize) -> BumpAllocator {
        if size == 0 {
            self
        } else {
            let aligned = spec_align_up(self.next as int, align as int);
            if aligned + size <= self.heap_end {
                BumpAllocator {
                    next: (aligned + size) as usize,
                    allocations: (self.allocations + 1) as usize,
                    ..self
                }
            } else {
                self
            }
        }
    }

    /// Result of an allocation request: the granted address, or the
    /// recoverable failure. A zero-size request is granted trivially with
    /// the non-null, suitably aligned address `align`.
    pub open spec fn alloc_result(self, size: usize, align: usize) -> Result<usize, AllocError> {
        if size == 0 {
            Ok(align)
        } else {
            let aligned = spec_align_up(self.next as int, align as int);
            if aligned + size <= self.heap_end {
                Ok(aligned as usize)
            } else {
                Err(AllocError)
            }
        }
    }

    /// State after a deallocation: the live count drops by one, and when it
    /// reaches zero the cursor resets to the start of the heap, reclaiming
    /// the whole arena at once. A zero-size deallocation matches a zero-size
    /// allocation and changes nothing.
    pub open spec fn dealloc_state(self, size: usize) -> BumpAllocator {
        if size == 0 {
            self
        } else if self.allocations == 1 {
            BumpAllocator { next: self.heap_start, allocations: 0, ..self }
        } else {
            BumpAllocator { allocations: (self.allocations - 1) as usize, ..self }
        }
    }

    /// The zero-capacity placeholder the kernel starts with: every non-zero
    /// request fails until `init` configures the real heap window.
    pub fn new() -> (r: BumpAllocator)
        ensures
            r.wf(),
            r.heap_start == 0 && r.heap_end == 0 && r.next == 0 && r.allocations == 0,
    {
        BumpAllocator { heap_start: 0, heap_end: 0, next: 0, allocations: 0 }
    }

    /// Records the heap window `[heap_start, heap_start + heap_size)`.
    /// Called exactly once before the first allocation; a second call leaves
    /// the new bounds in effect with no migration of prior allocations, so
    /// it must not happen while any allocation is live.
    pub fn init(&mut self, heap_start: usize, heap_size: usize)
        requires
            heap_start + heap_size <= usize::MAX,
        ensures
            final(self).heap_start == heap_start,
            final(self).heap_end == heap_start + heap_size,
            final(self).next == heap_start,
            final(self).allocations == 0,
            final(self).wf(),
    {
        self.heap_start = heap_start;
        self.heap_end = heap_start + heap_size;
        self.next = heap_start;
        self.allocations = 0;
    }

    /// Allocates `size` bytes aligned to `align`: rounds the cursor up to
    /// the alignment and, when the rounded range still fits below
    /// `heap_end`, advances the cursor past it and returns its start.
    /// A request whose aligned end would exceed `heap_end`, or whose
    /// size/alignment arithmetic overflows the address width, fails without
    /// mutating any state.
    pub fn allocate(&mut self, size: usize, align: usize) -> (r: Result<usize, AllocError>)
        requires
            old(self).wf(),
            align >= 1,
        ensures
            *final(self) == old(self).alloc_state(size, align),
            r == old(self).alloc_result(size, align),
            final(self).wf(),
            // a granted address is aligned ...
            r matches Ok(a) ==> a as int % align as int == 0,
            // ... and a granted non-empty range lies inside the heap window,
            // above every previously granted range
            size > 0 ==> (r matches Ok(a) ==> old(self).heap_start <= a
                && old(self).next <= a && a + size <= old(self).heap_end),
            // the cursor never moves backwards on allocation
            final(self).next >= old(self).next,
            // a failed request mutates nothing
            r is Err ==> *final(self) == *old(self),
    {
        if size == 0 {
            proof {
                assert(align as int % align as int == 0) by (nonlinear_arith)
                    requires align >= 1,
                ;
            }
            return Ok(align);
        }
        let next128 = self.next as u128;
        let align128 = align as u128;
        let x: u128 = next128 + (align128 - 1);
        let q: u128 = x / align128;
        proof {
            assert(q as int * align128 as int <= x as int) by (nonlinear_arith)
                requires
                    align128 as int >= 1,
                    x as int >= 0,
                    q as int == x as int / align128 as int,
            ;
        }
        let aligned: u128 = q * align128;
        proof {
            lemma_align_up(self.next as int, align as int);
            assert(aligned == spec_align_up(self.next as int, align as int));
        }
        let end: u128 = aligned + size as u128;
        if end <= self.heap_end as u128 {
            self.next = end as usize;
            self.allocations = self.allocations + 1;
            Ok(aligned as usize)
        } else {
            Err(AllocError)
        }
    }

    /// Releases one live allocation. The bump strategy reclaims no
    /// individual range, so the address is not needed; the live count drops
    /// by one, and when it reaches zero the cursor resets to `heap_start`,
    /// reclaiming the entire arena. A zero-size deallocation matches a
    /// zero-size allocation and changes nothing. Deallocating with no
    /// allocation live would silently corrupt the count, so it is ruled
    /// out here rather than guessed at.
    pub fn deallocate(&mut self, _addr: usize, size: usize)
        requires
            old(self).wf(),
            size >= 1 ==> old(self).allocations >= 1,
        ensures
            *final(self) == old(self).dealloc_state(size),
            final(self).wf(),
            final(self).heap_start == old(self).heap_start,
            final(self).heap_end == old(self).heap_end,
            size >= 1 ==> final(self).allocations == old(self).allocations - 1,
            size >= 1 && old(self).allocations == 1 ==> final(self).next == old(self).heap_start,
            size >= 1 && old(self).allocations > 1 ==> final(self).next == old(self).next,
            size == 0 ==> *final(self) == *old(self),
    {
        if size == 0 {
            return;
        }
        self.allocations = self.allocations - 1;
        if self.allocations == 0 {
            self.next = self.heap_start;
        }
    }
}

/// Whether an operation is legal in state `s`: an allocation needs a
/// positive alignment, and a non-trivial deallocation needs a live
/// allocation to release.
pub open spec fn bump_op_valid(s: BumpAllocator, op: BumpOp) -> bool {
    match op {
        BumpOp::Allocate { size, align } => align >= 1,
        BumpOp::Deallocate { size } => size >= 1 ==> s.allocations >= 1,
    }
}

/// The state an operation leaves behind, as `allocate` and `deallocate`
/// promise it in their contracts.
pub open spec fn bump_apply(s: BumpAllocator, op: BumpOp) -> BumpAllocator {
    match op {
        BumpOp::Allocate { size, align } => s.alloc_state(size, align),
        BumpOp::Deallocate { size } => s.dealloc_state(size),
    }
}

/// Every operation of the sequence is legal in the state it meets.
pub open spec fn bump_ops_valid(s: BumpAllocator, ops: Seq<BumpOp>) -> bool
    decreases ops.len(),
{
    ops.len() == 0 || (bump_op_valid(s, ops[0]) && bump_ops_valid(
        bump_apply(s, ops[0]),
        ops.drop_first(),
    ))
}

/// The state after running a whole sequence of operations.
pub open spec fn bump_apply_ops(s: BumpAllocator, ops: Seq<BumpOp>) -> BumpAllocator
    decreases ops.len(),
{
    if ops.len() == 0 {
        s
    } else {
        bump_apply_ops(bump_apply(s, ops[0]), ops.drop_first())
    }
}

/// The live count stays positive after every operation of the sequence.
pub open spec fn bump_stays_live(s: BumpAllocator, ops: Seq<BumpOp>) -> bool
    decreases ops.len(),
{
    ops.len() == 0 || ({
        let t = bump_apply(s, ops[0]);
        t.allocations >= 1 && bump_stays_live(t, ops.drop_first())
    })
}

/// One legal operation keeps the allocator well formed, leaves the heap
/// window alone, moves the cursor only forward while allocations stay live,
/// and parks the cursor at `heap_start` whenever the live count is zero.
pub proof fn lemma_bump_step(s: BumpAllocator, op: BumpOp)
    requires
        s.wf(),
        bump_op_valid(s, op),
        s.allocations == 0 ==> s.next == s.heap_start,
    ensures
        ({
            let t = bump_apply(s, op);
            &&& t.wf()
            &&& t.heap_start == s.heap_start
            &&& t.heap_end == s.heap_end
            &&& (t.allocations == 0 ==> t.next == t.heap_start)
            &&& (t.allocations >= 1 ==> t.next >= s.next)
        }),
{
    match op {
        BumpOp::Allocate { size, align } => {
            if size > 0 {
                lemma_align_up(s.next as int, align as int);
            }
        }
        BumpOp::Deallocate { size } => {}
    }
}

/// Law (bump cursor discipline): starting from a well-formed state whose
/// cursor is reset whenever nothing is live, any legal sequence of
/// allocate/deallocate operations keeps the allocator well formed, and
///  - whenever the live-allocation count is zero, the cursor sits at
///    `heap_start` (the arena is reclaimed as a whole);
///  - as long as the count stays positive after every operation, the cursor
///    never decreases.
pub proof fn lemma_bump_cursor_discipline(s: BumpAllocator, ops: Seq<BumpOp>)
    requires
        s.wf(),
        bump_ops_valid(s, ops),
        s.allocations == 0 ==> s.next == s.heap_start,
    ensures
        ({
            let t = bump_apply_ops(s, ops);
            &&& t.wf()
            &&& t.heap_start == s.heap_start
            &&& t.heap_end == s.heap_end
            &&& (t.allocations == 0 ==> t.next == s.heap_start)
            &&& (bump_stays_live(s, ops) ==> t.next >= s.next)
        }),
    decreases ops.len(),
{
    if ops.len() > 0 {
        lemma_bump_step(s, ops[0]);
        lemma_bump_cursor_discipline(bump_apply(s, ops[0]), ops.drop_first());
    }
}

} // verus!
