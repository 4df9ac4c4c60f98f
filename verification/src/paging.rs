//! Page table permission propagator.
//!
//! Before user-mode system calls can work, every present mapping that the
//! firmware or bootloader left behind must become accessible from the lower
//! privilege level. The kernel walks the multi-level page table depth
//! first and sets the user-accessible flag in every present entry, leaving
//! every other bit — the frame pointer in particular — untouched, and
//! never writing to an absent entry.
//!
//! The hierarchy is modelled as an arena of tables of 512 entries each. An
//! entry is a raw 64-bit value exactly as the hardware sees it: zero means
//! absent, the huge-page flag marks a leaf at an intermediate level, and
//! for entries that point at a child table the frame field holds the
//! child's physical address — page-aligned, so dividing the masked field by
//! the page size yields the child's index in the arena. Whoever owns the
//! real tables reads them into this shape and writes the result back.

use vstd::prelude::*;

verus! {

/// Entries per page table.
pub const ENTRY_COUNT: usize = 512;

/// Flag bit: the mapping may be reached from the lower privilege level.
pub const USER_ACCESSIBLE_BIT: u64 = 0x4;

/// Flag bit: the entry is a huge-page leaf, not a pointer to a child
/// table.
pub const HUGE_PAGE_BIT: u64 = 0x80;

/// The bits of an entry that hold the physical frame address.
pub const FRAME_MASK: u64 = 0x000f_ffff_ffff_f000;

/// Bytes per page, and hence per page table.
pub const TABLE_BYTES: u64 = 0x1000;

/// Whether an entry maps anything: absent entries are all zero.
pub open spec fn entry_present(e: u64) -> bool {
    e != 0
}

/// Whether an entry is a huge-page leaf.
pub open spec fn entry_huge(e: u64) -> bool {
    e & HUGE_PAGE_BIT != 0
}

/// Whether an entry has the user-accessible flag set.
pub open spec fn entry_user(e: u64) -> bool {
    e & USER_ACCESSIBLE_BIT == USER_ACCESSIBLE_BIT
}

/// The arena index of the child table an entry points at.
pub open spec fn entry_child(e: u64) -> int {
    (e & FRAME_MASK) as int / TABLE_BYTES as int
}

/// Setting the user-accessible flag keeps an entry present, keeps its
/// huge-page flag and its frame field, changes no bit besides the flag
/// itself, and is idempotent.
pub proof fn lemma_user_bit(e: u64)
    ensures
        e | USER_ACCESSIBLE_BIT != 0,
        entry_user(e | USER_ACCESSIBLE_BIT),
        entry_huge(e | USER_ACCESSIBLE_BIT) == entry_huge(e),
        (e | USER_ACCESSIBLE_BIT) & FRAME_MASK == e & FRAME_MASK,
        entry_child(e | USER_ACCESSIBLE_BIT) == entry_child(e),
        (e | USER_ACCESSIBLE_BIT) | USER_ACCESSIBLE_BIT == e | USER_ACCESSIBLE_BIT,
        ((e | USER_ACCESSIBLE_BIT) & !USER_ACCESSIBLE_BIT) == (e & !USER_ACCESSIBLE_BIT),
{
    assert((e | 0x4u64) != 0) by (bit_vector);
    assert((e | 0x4u64) & 0x4u64 == 0x4u64) by (bit_vector);
    assert((e | 0x4u64) & 0x80u64 == e & 0x80u64) by (bit_vector);
    assert((e | 0x4u64) & 0x000f_ffff_ffff_f000u64 == e & 0x000f_ffff_ffff_f000u64)
        by (bit_vector);
    assert((e | 0x4u64) | 0x4u64 == e | 0x4u64) by (bit_vector);
    assert(((e | 0x4u64) & !0x4u64) == (e & !0x4u64)) by (bit_vector);
}

/// A synthetic arena of page tables: table `t` stands for the table whose
/// physical address is `t * TABLE_BYTES`.
pub struct PageTableArena {
    pub tables: Vec<Vec<u64>>,
}

impl PageTableArena {
    /// The entry at index `i` of table `t`.
    pub open spec fn entry(self, t: int, i: int) -> u64 {
        self.tables@[t]@[i]
    }

    /// Table `t` roots a well-formed hierarchy of `level` levels: it has
    /// 512 entries, and every present non-huge entry above the leaf level
    /// points at a table that roots a well-formed hierarchy one level
    /// shorter. The walk only ever follows such entries, so this is what
    /// keeps it inside the arena.
    pub open spec fn reachable_wf(self, t: int, level: nat) -> bool
        decreases level,
    {
        &&& 0 <= t < self.tables@.len()
        &&& self.tables@[t]@.len() == ENTRY_COUNT
        &&& level >= 1
        &&& (level > 1 ==> forall|i: int| 0 <= i < ENTRY_COUNT ==> {
            let e = #[trigger] self.tables@[t]@[i];
            entry_present(e) && !entry_huge(e) ==> self.reachable_wf(
                entry_child(e),
                (level - 1) as nat,
            )
        })
    }

    /// Every mapping reachable from table `t` in `level` levels is
    /// accessible from the lower privilege level.
    pub open spec fn propagated(self, t: int, level: nat) -> bool
        decreases level,
    {
        &&& 0 <= t < self.tables@.len()
        &&& self.tables@[t]@.len() == ENTRY_COUNT
        &&& forall|i: int| 0 <= i < ENTRY_COUNT ==> {
            let e = #[trigger] self.tables@[t]@[i];
            entry_present(e) ==> entry_user(e) && (level > 1 && !entry_huge(e)
                ==> self.propagated(entry_child(e), (level - 1) as nat))
        }
    }
}

/// How one arena may differ from another after some of the walk has run:
/// every entry is either exactly what it was, or — only if it was present —
/// what it was with the user-accessible flag ored in. In particular no
/// absent entry is written, no frame pointer moves, and no other flag bit
/// changes.
pub open spec fn user_bit_step(a: PageTableArena, b: PageTableArena) -> bool {
    &&& b.tables@.len() == a.tables@.len()
    &&& forall|t: int| 0 <= t < a.tables@.len() ==> (#[trigger] b.tables@[t])@.len()
        == a.tables@[t]@.len()
    &&& forall|t: int, i: int| 0 <= t < a.tables@.len() && 0 <= i < a.tables@[t]@.len() ==> {
        let ea = a.tables@[t]@[i];
        let eb = #[trigger] b.tables@[t]@[i];
        eb == ea || (entry_present(ea) && eb == ea | USER_ACCESSIBLE_BIT)
    }
}

/// The step relation composes.
pub proof fn lemma_step_trans(a: PageTableArena, b: PageTableArena, c: PageTableArena)
    requires
        user_bit_step(a, b),
        user_bit_step(b, c),
    ensures
        user_bit_step(a, c),
{
    assert forall|t: int, i: int| 0 <= t < a.tables@.len() && 0 <= i < a.tables@[t]@.len()
        implies ({
        let ea = a.tables@[t]@[i];
        let ec = #[trigger] c.tables@[t]@[i];
        ec == ea || (entry_present(ea) && ec == ea | USER_ACCESSIBLE_BIT)
    }) by {
        let ea = a.tables@[t]@[i];
        let eb = b.tables@[t]@[i];
        lemma_user_bit(ea);
    }
}

/// A step never unmakes a well-formed hierarchy: presence, huge-page flags
/// and child pointers all survive it.
pub proof fn lemma_step_preserves_reachable(
    a: PageTableArena,
    b: PageTableArena,
    t: int,
    level: nat,
)
    requires
        user_bit_step(a, b),
        a.reachable_wf(t, level),
    ensures
        b.reachable_wf(t, level),
    decreases level,
{
    if level > 1 {
        assert forall|i: int| 0 <= i < ENTRY_COUNT implies ({
            let e = #[trigger] b.tables@[t]@[i];
            entry_present(e) && !entry_huge(e) ==> b.reachable_wf(entry_child(e), (level
                - 1) as nat)
        }) by {
            let ea = a.tables@[t]@[i];
            let eb = b.tables@[t]@[i];
            lemma_user_bit(ea);
            if entry_present(eb) && !entry_huge(eb) {
                lemma_step_preserves_reachable(a, b, entry_child(ea), (level - 1) as nat);
            }
        }
    }
}

/// A step never undoes propagation: entries stay present and keep the
/// user-accessible flag once they have it.
pub proof fn lemma_step_preserves_propagated(
    a: PageTableArena,
    b: PageTableArena,
    t: int,
    level: nat,
)
    requires
        user_bit_step(a, b),
        a.propagated(t, level),
    ensures
        b.propagated(t, level),
    decreases level,
{
    assert forall|i: int| 0 <= i < ENTRY_COUNT implies ({
        let e = #[trigger] b.tables@[t]@[i];
        entry_present(e) ==> entry_user(e) && (level > 1 && !entry_huge(e) ==> b.propagated(
            entry_child(e),
            (level - 1) as nat,
        ))
    }) by {
        let ea = a.tables@[t]@[i];
        let eb = b.tables@[t]@[i];
        lemma_user_bit(ea);
        if entry_present(eb) && level > 1 && !entry_huge(eb) {
            lemma_step_preserves_propagated(a, b, entry_child(ea), (level - 1) as nat);
        }
    }
}

impl PageTableArena {
    /// Walks the hierarchy rooted at table `t`, `level` levels deep, and
    /// sets the user-accessible flag in every present entry, recursing into
    /// every present entry that is not a huge-page leaf until the leaf
    /// level. No absent entry is written, and no bit besides the
    /// user-accessible flag changes anywhere — frames, huge-page flags and
    /// all other flags come out exactly as they went in.
    ///
    /// The caller runs this on the active hierarchy's root with write
    /// protection lifted, interrupts disabled and no other writer, and
    /// restores protection afterwards.
    #[verifier::rlimit(100)]
    pub fn propagate_user_access(&mut self, t: usize, level: usize)
        requires
            old(self).reachable_wf(t as int, level as nat),
        ensures
            user_bit_step(*old(self), *final(self)),
            final(self).propagated(t as int, level as nat),
            final(self).reachable_wf(t as int, level as nat),
        decreases level,
    {
        let ghost s0 = *self;
        let mut i: usize = 0;
        while i < ENTRY_COUNT
            invariant
                s0 == *old(self),
                user_bit_step(s0, *self),
                self.reachable_wf(t as int, level as nat),
                level >= 1,
                i <= ENTRY_COUNT,
                forall|j: int| 0 <= j < i ==> {
                    let e = #[trigger] self.tables@[t as int]@[j];
                    entry_present(e) ==> entry_user(e) && (level > 1 && !entry_huge(e)
                        ==> self.propagated(entry_child(e), (level - 1) as nat))
                },
            decreases ENTRY_COUNT - i,
        {
            let ghost prev = *self;
            let e = self.tables[t][i];
            if e != 0 {
                let marked = e | USER_ACCESSIBLE_BIT;
                proof {
                    lemma_user_bit(e);
                }
                self.tables[t][i] = marked;
                proof {
                    let ghost mid = *self;
                    assert(user_bit_step(prev, mid));
                    lemma_step_trans(s0, prev, mid);
                    lemma_step_preserves_reachable(prev, mid, t as int, level as nat);
                    assert forall|j: int| 0 <= j < i implies ({
                        let ej = #[trigger] self.tables@[t as int]@[j];
                        entry_present(ej) ==> entry_user(ej) && (level > 1 && !entry_huge(ej)
                            ==> self.propagated(entry_child(ej), (level - 1) as nat))
                    }) by {
                        let ej = prev.tables@[t as int]@[j];
                        if entry_present(ej) && level > 1 && !entry_huge(ej) {
                            lemma_step_preserves_propagated(prev, mid, entry_child(ej), (level
                                - 1) as nat);
                        }
                    }
                }
                if level > 1 && marked & HUGE_PAGE_BIT == 0 {
                    let table_count = self.tables.len();
                    proof {
                        lemma_user_bit(e);
                        assert(self.tables@[t as int]@[i as int] == marked);
                        assert(self.reachable_wf(entry_child(marked), (level - 1) as nat));
                        assert(entry_child(marked) < table_count);
                    }
                    let child = ((marked & FRAME_MASK) / TABLE_BYTES) as usize;
                    let ghost mid = *self;
                    proof {
                        assert(mid.reachable_wf(entry_child(e), (level - 1) as nat));
                        assert(child as int == entry_child(e));
                    }
                    self.propagate_user_access(child, level - 1);
                    proof {
                        lemma_step_trans(s0, mid, *self);
                        lemma_step_preserves_reachable(mid, *self, t as int, level as nat);
                        assert forall|j: int| 0 <= j < i implies ({
                            let ej = #[trigger] self.tables@[t as int]@[j];
                            entry_present(ej) ==> entry_user(ej) && (level > 1 && !entry_huge(ej)
                                ==> self.propagated(entry_child(ej), (level - 1) as nat))
                        }) by {
                            let ej = mid.tables@[t as int]@[j];
                            lemma_user_bit(ej);
                            if entry_present(ej) && level > 1 && !entry_huge(ej) {
                                lemma_step_preserves_propagated(mid, *self, entry_child(ej),
                                    (level - 1) as nat);
                            }
                        }
                        let enow = self.tables@[t as int]@[i as int];
                        lemma_user_bit(marked);
                        assert(entry_user(enow) && entry_child(enow) == entry_child(e));
                    }
                }
            }
            i = i + 1;
        }
    }
}

} // verus!
