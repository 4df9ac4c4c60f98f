use kernel_boot::paging::{
    PageTableArena, ENTRY_COUNT, FRAME_MASK, HUGE_PAGE_BIT, USER_ACCESSIBLE_BIT,
};

const PRESENT: u64 = 0x1;
const WRITABLE: u64 = 0x2;
const NO_EXECUTE: u64 = 0x8000000000000000;

fn table(entries: &[(usize, u64)]) -> Vec<u64> {
    let mut t = vec![0u64; ENTRY_COUNT];
    for &(i, e) in entries {
        t[i] = e;
    }
    t
}

/// Entry pointing at arena table `t` (its synthetic physical address is
/// `t * 0x1000`), with the given extra flags.
fn child_entry(t: usize, flags: u64) -> u64 {
    ((t as u64) << 12) | flags
}

#[test]
fn four_level_walk_marks_every_present_leaf() {
    // root (table 0) has one mapping chain 0 -> 1 -> 2 -> 3, one huge leaf
    // at an intermediate level, and plenty of absent entries
    let mut arena = PageTableArena {
        tables: vec![
            table(&[(0, child_entry(1, PRESENT | WRITABLE))]),
            table(&[(3, child_entry(2, PRESENT)), (7, child_entry(9, PRESENT | HUGE_PAGE_BIT))]),
            table(&[(511, child_entry(3, PRESENT | WRITABLE))]),
            table(&[(0, child_entry(0x12345, PRESENT | NO_EXECUTE)), (1, 0)]),
        ],
    };
    let before = arena.tables.clone();
    arena.propagate_user_access(0, 4);
    for t in 0..before.len() {
        for i in 0..ENTRY_COUNT {
            let old = before[t][i];
            let new = arena.tables[t][i];
            if old == 0 {
                // no absent entry was written
                assert_eq!(new, 0);
            } else {
                // exactly the user bit was added: frame and flags intact
                assert_eq!(new, old | USER_ACCESSIBLE_BIT);
                assert_eq!(new & FRAME_MASK, old & FRAME_MASK);
                assert_eq!(new & HUGE_PAGE_BIT, old & HUGE_PAGE_BIT);
                assert_eq!(new & NO_EXECUTE, old & NO_EXECUTE);
            }
        }
    }
    // the huge leaf was not recursed into: table 9 does not exist and the
    // walk still terminated inside the arena
    assert_eq!(arena.tables[1][7], child_entry(9, PRESENT | HUGE_PAGE_BIT) | USER_ACCESSIBLE_BIT);
}

#[test]
fn five_level_walk_reaches_the_leaf() {
    let mut arena = PageTableArena {
        tables: vec![
            table(&[(42, child_entry(1, PRESENT))]),
            table(&[(0, child_entry(2, PRESENT))]),
            table(&[(511, child_entry(3, PRESENT))]),
            table(&[(256, child_entry(4, PRESENT))]),
            table(&[(1, child_entry(0x6789a, PRESENT | WRITABLE))]),
        ],
    };
    arena.propagate_user_access(0, 5);
    assert_eq!(arena.tables[4][1] & USER_ACCESSIBLE_BIT, USER_ACCESSIBLE_BIT);
    assert_eq!(arena.tables[4][1] & FRAME_MASK, child_entry(0x6789a, 0));
    assert_eq!(arena.tables[4][0], 0);
}

#[test]
fn leaf_level_walk_does_not_recurse() {
    // at level 1 an entry's frame field points at a data frame, not a
    // table; the walk must mark it and stop
    let mut arena = PageTableArena {
        tables: vec![table(&[(5, child_entry(0xfffff, PRESENT | WRITABLE))])],
    };
    arena.propagate_user_access(0, 1);
    assert_eq!(
        arena.tables[0][5],
        child_entry(0xfffff, PRESENT | WRITABLE) | USER_ACCESSIBLE_BIT
    );
}

#[test]
fn shared_child_tables_are_marked_once_for_all() {
    // two root entries alias the same child table; marking is idempotent
    let mut arena = PageTableArena {
        tables: vec![
            table(&[(0, child_entry(1, PRESENT)), (1, child_entry(1, PRESENT))]),
            table(&[(9, child_entry(0x500, PRESENT))]),
        ],
    };
    arena.propagate_user_access(0, 2);
    assert_eq!(arena.tables[1][9], child_entry(0x500, PRESENT) | USER_ACCESSIBLE_BIT);
    assert_eq!(arena.tables[0][0], child_entry(1, PRESENT) | USER_ACCESSIBLE_BIT);
    assert_eq!(arena.tables[0][1], child_entry(1, PRESENT) | USER_ACCESSIBLE_BIT);
}
