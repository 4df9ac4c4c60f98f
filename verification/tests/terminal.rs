use kernel_boot::memory::MemorySpace;
use kernel_boot::syscall::{convert_syscall_codes_to_result, SystemCall, NUM_SYSCALLS};
use kernel_boot::terminal::{print, Color, Terminal, CHAR_HEIGHT, CHAR_WIDTH};

fn white() -> Color {
    Color { red: 255, green: 255, blue: 255, alpha: 255 }
}

fn black() -> Color {
    Color { red: 0, green: 0, blue: 0, alpha: 255 }
}

#[test]
fn empty_terminal_is_all_zero() {
    let t = Terminal::empty();
    assert_eq!((t.columns, t.rows, t.x, t.y), (0, 0, 0, 0));
    assert_eq!((t.addr, t.pitch, t.bpp), (0, 0, 0));
}

#[test]
fn new_terminal_derives_grid_from_pixels() {
    let t = Terminal::new(0xfd000000, 640 * 4, 640, 480, 32);
    assert_eq!(t.columns, 640 / CHAR_WIDTH);
    assert_eq!(t.rows, 480 / CHAR_HEIGHT);
    assert_eq!((t.x, t.y), (0, 0));
    assert_eq!((t.addr, t.pitch, t.bpp), (0xfd000000, 640 * 4, 32));
}

#[test]
fn print_char_advances_and_newline_breaks() {
    let mut t = Terminal::new(0, 0, 640, 480, 32);
    t.print_char('h', &white(), &black());
    assert_eq!((t.x, t.y), (1, 0));
    t.print_char('i', &white(), &black());
    assert_eq!((t.x, t.y), (2, 0));
    t.print_char('\n', &white(), &black());
    assert_eq!((t.x, t.y), (0, 1));
}

#[test]
fn print_char_wraps_at_the_last_column() {
    let mut t = Terminal::new(0, 0, 640, 480, 32);
    t.x = t.columns - 1;
    t.y = 3;
    t.print_char('x', &white(), &black());
    assert_eq!((t.x, t.y), (0, 4));
}

#[test]
fn print_char_scrolls_at_the_last_row() {
    let mut t = Terminal::new(0, 0, 640, 480, 32);
    t.x = 0;
    t.y = t.rows - 1;
    t.print_char('\n', &white(), &black());
    // scrolled: the cursor stays on the last row
    assert_eq!((t.x, t.y), (0, t.rows - 1));
    t.x = t.columns - 1;
    t.print_char('z', &white(), &black());
    assert_eq!((t.x, t.y), (0, t.rows - 1));
}

#[test]
fn print_walks_a_whole_string() {
    let mut t = Terminal::new(0, 0, 640, 480, 32);
    print(&mut t, "> boot\nok");
    assert_eq!((t.x, t.y), (2, 1));
}

#[test]
fn memory_space_distinguishes_kernel_and_user() {
    let k = MemorySpace::Kernel;
    let copy = k;
    assert_eq!(copy, MemorySpace::Kernel);
    assert_ne!(MemorySpace::User, MemorySpace::Kernel);
}

#[test]
fn syscall_numbers_follow_declaration_order() {
    assert_eq!(SystemCall::Read.number(), 0);
    assert_eq!(SystemCall::Write.number(), 1);
    assert_eq!(SystemCall::GetSystemTime.number(), 12);
    assert_eq!(SystemCall::Mkentry.number(), 15);
    assert_eq!(SystemCall::LastEntryMarker.number(), NUM_SYSCALLS);
}

#[test]
fn syscall_codes_convert_to_results() {
    // the predicate flags an error pair; a flagged pair becomes Err
    let r: Result<usize, usize> =
        convert_syscall_codes_to_result(0, 42, |c, _v| c != 0, |_c, v| v, |c, _v| c);
    assert_eq!(r, Ok(42));
    let r: Result<usize, usize> =
        convert_syscall_codes_to_result(7, 42, |c, _v| c != 0, |_c, v| v, |c, _v| c);
    assert_eq!(r, Err(7));
}
