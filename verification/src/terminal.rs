//! Text terminal over a linear framebuffer.
//!
//! The terminal divides the framebuffer into a grid of character cells and
//! keeps a cursor. Printing advances the cursor, wraps it at the end of a
//! line, and scrolls — pinning the cursor to the last row — when it runs
//! off the bottom. The pixel work (drawing glyphs, scrolling the buffer)
//! happens outside this library against the framebuffer this terminal
//! describes; here the terminal is the cursor state machine, and every
//! glyph handed to it is taken as drawn.

use vstd::prelude::*;
use vstd::string::StrSliceExecFns;

verus! {

/// Width in pixels of one character cell.
pub const CHAR_WIDTH: u32 = 8;

/// Height in pixels of one character cell.
pub const CHAR_HEIGHT: u32 = 16;

/// A colour as the framebuffer takes it.
#[derive(Clone, Copy, PartialEq, Eq, Structural, Debug)]
pub struct Color {
    pub red: u8,
    pub green: u8,
    pub blue: u8,
    pub alpha: u8,
}

/// Terminal state: where its framebuffer lives (`addr`, `pitch`, `bpp` are
/// recorded for whoever renders), the grid size in character cells, and the
/// cursor.
pub struct Terminal {
    pub addr: u64,
    pub pitch: u32,
    pub bpp: u8,
    pub columns: u32,
    pub rows: u32,
    pub x: u32,
    pub y: u32,
}

/// Where the cursor stands after printing `c` at `(x, y)` on a grid of
/// `columns` by `rows` cells: a newline starts the next line, any other
/// character advances by one cell; running past the last column wraps to
/// the next line, and running past the last row scrolls, leaving the cursor
/// at the start of the last row.
pub open spec fn advance_cursor(columns: int, rows: int, x: int, y: int, c: char) -> (int, int) {
    let x1 = if c == '\n' { 0 } else { x + 1 };
    let y1 = if c == '\n' { y + 1 } else { y };
    let x2 = if x1 >= columns { 0 } else { x1 };
    let y2 = if x1 >= columns { y1 + 1 } else { y1 };
    if y2 >= rows {
        (0, rows - 1)
    } else {
        (x2, y2)
    }
}

/// Where the cursor stands after printing a whole sequence of characters.
pub open spec fn advance_cursor_seq(columns: int, rows: int, x: int, y: int, s: Seq<char>) -> (
    int,
    int,
)
    decreases s.len(),
{
    if s.len() == 0 {
        (x, y)
    } else {
        let xy = advance_cursor(columns, rows, x, y, s[0]);
        advance_cursor_seq(columns, rows, xy.0, xy.1, s.drop_first())
    }
}

impl Terminal {
    /// The grid has at least one cell and the cursor is on it.
    pub open spec fn wf(self) -> bool {
        &&& self.columns >= 1
        &&& self.rows >= 1
        &&& self.x < self.columns
        &&& self.y < self.rows
    }

    /// The grid and framebuffer description, which printing never changes.
    pub open spec fn geometry(self) -> (u64, u32, u8, u32, u32) {
        (self.addr, self.pitch, self.bpp, self.columns, self.rows)
    }

    /// The placeholder the kernel starts with, before any framebuffer is
    /// known: a zero-cell grid nothing can be printed on.
    pub fn empty() -> (r: Terminal)
        ensures
            r.addr == 0 && r.pitch == 0 && r.bpp == 0,
            r.columns == 0 && r.rows == 0 && r.x == 0 && r.y == 0,
    {
        Terminal { addr: 0, pitch: 0, bpp: 0, columns: 0, rows: 0, x: 0, y: 0 }
    }

    /// A terminal over the framebuffer at `addr` with the given pitch,
    /// pixel size and colour depth: the grid is however many whole
    /// character cells fit, and the cursor starts at the top left.
    pub fn new(addr: u64, pitch: u32, width: u32, height: u32, bpp: u8) -> (r: Terminal)
        ensures
            r.addr == addr && r.pitch == pitch && r.bpp == bpp,
            r.columns == width / CHAR_WIDTH,
            r.rows == height / CHAR_HEIGHT,
            r.x == 0 && r.y == 0,
            r.wf() == (width >= CHAR_WIDTH && height >= CHAR_HEIGHT),
    {
        Terminal {
            addr,
            pitch,
            bpp,
            columns: width / CHAR_WIDTH,
            rows: height / CHAR_HEIGHT,
            x: 0,
            y: 0,
        }
    }

    /// Prints one character: the glyph goes to the cell under the cursor in
    /// the given colours (drawn by whoever renders the framebuffer), and
    /// the cursor advances, wraps and scrolls as [`advance_cursor`] says.
    pub fn print_char(&mut self, c: char, fg_color: &Color, bg_color: &Color)
        requires
            old(self).wf(),
        ensures
            final(self).wf(),
            final(self).geometry() == old(self).geometry(),
            (final(self).x as int, final(self).y as int) == advance_cursor(
                old(self).columns as int,
                old(self).rows as int,
                old(self).x as int,
                old(self).y as int,
                c,
            ),
    {
        if c == '\n' {
            self.y = self.y + 1;
            self.x = 0;
        } else {
            self.x = self.x + 1;
        }

        if self.x >= self.columns {
            self.y = self.y + 1;
            self.x = 0;
        }

        if self.y >= self.rows {
            self.x = 0;
            self.y = self.rows - 1;
        }
    }

    /// Prints every character of `s` in order, in white on black as the
    /// boot console does.
    pub fn write_str(&mut self, s: &str)
        requires
            old(self).wf(),
        ensures
            final(self).wf(),
            final(self).geometry() == old(self).geometry(),
            (final(self).x as int, final(self).y as int) == advance_cursor_seq(
                old(self).columns as int,
                old(self).rows as int,
                old(self).x as int,
                old(self).y as int,
                s@,
            ),
    {
        let white = Color { red: 255, green: 255, blue: 255, alpha: 255 };
        let black = Color { red: 0, green: 0, blue: 0, alpha: 255 };
        let ghost cols = self.columns as int;
        let ghost rows = self.rows as int;
        let ghost goal = advance_cursor_seq(cols, rows, self.x as int, self.y as int, s@);
        let len = s.unicode_len();
        proof {
            assert(s@.skip(0) =~= s@);
        }
        let mut i: usize = 0;
        while i < len
            invariant
                self.wf(),
                self.geometry() == old(self).geometry(),
                cols == self.columns as int,
                rows == self.rows as int,
                len == s@.len(),
                i <= len,
                goal == advance_cursor_seq(cols, rows, self.x as int, self.y as int, s@.skip(
                    i as int,
                )),
            decreases len - i,
        {
            let c = s.get_char(i);
            proof {
                assert(s@.skip(i as int)[0] == s@[i as int]);
                assert(s@.skip(i as int).drop_first() =~= s@.skip(i as int + 1));
            }
            self.print_char(c, &white, &black);
            i = i + 1;
        }
        proof {
            assert(s@.skip(len as int) =~= Seq::<char>::empty());
        }
    }
}

/// Prints a string on the boot terminal; what the kernel's print macros
/// expand to once the terminal is up.
pub fn print(term: &mut Terminal, s: &str)
    requires
        old(term).wf(),
    ensures
        final(term).wf(),
        final(term).geometry() == old(term).geometry(),
        (final(term).x as int, final(term).y as int) == advance_cursor_seq(
            old(term).columns as int,
            old(term).rows as int,
            old(term).x as int,
            old(term).y as int,
            s@,
        ),
{
    term.write_str(s);
}

} // verus!
