//! The console: on the screen, in the cells of the text display, and on the serial line.
use crate::fixed;
use crate::fixed::InlineString;
use crate::screen;
use crate::screen::glyphs;
use crate::screen::letters;
use crate::screen::{ConsoleView, Screen, ScreenView};
use crate::text;
use vstd::prelude::*;
use vstd::string::*;

verus! {

pub const GFX_CONSOLE_COLS: usize = 40;

pub const GFX_CONSOLE_ROWS: usize = 19;

pub const GFX_CONSOLE_EMPTY: u16 = 0;

/// The cell behind a character that takes two.
pub const GFX_CONSOLE_WIDE_CONT: u16 = 0xffff;

pub const VGA_WIDTH: usize = 80;

pub const VGA_HEIGHT: usize = 25;

/// Whether a cell holds a character.
pub open spec fn shown(cell: u16) -> bool {
    cell != 0 && cell != 0xffff && !(0xd800 <= cell <= 0xdfff)
}

/// The screen with the first `count` cells of the console drawn.
pub open spec fn cells_drawn(screen: ScreenView, count: nat) -> ScreenView
    decreases count,
{
    if count == 0 {
        screen
    } else {
        let index = count - 1;
        let before = cells_drawn(screen, index as nat);
        let cell = screen.console.cells[index];
        if shown(cell) {
            letters::compact_drawn(
                before,
                screen.console.x + index % 40 * 6,
                screen.console.y + index / 40 * 8,
                cell as u32,
                6,
                1,
            )
        } else {
            before
        }
    }
}

/// The screen with the console drawn, where it is to be seen.
#[verifier::opaque]
pub open spec fn redrawn(screen: ScreenView) -> ScreenView {
    if !screen.graphics || !screen.console.visible {
        screen
    } else {
        cells_drawn(
            screen::rect(screen, screen.console.x, screen.console.y, 240, 152, 8),
            760,
        )
    }
}

/// The console as another.
pub open spec fn with_console(screen: ScreenView, console: ConsoleView) -> ScreenView {
    ScreenView { console, ..screen }
}

/// The console emptied.
pub open spec fn console_reset(screen: ScreenView) -> ScreenView {
    if !screen.graphics {
        screen
    } else {
        redrawn(
            with_console(
                screen,
                ConsoleView {
                    row: 0,
                    column: 0,
                    cells: Seq::new(760, |i: int| 0u16),
                    ..screen.console
                },
            ),
        )
    }
}

/// The console one row up, if it writes behind its last row.
pub open spec fn console_scrolled(screen: ScreenView) -> ScreenView {
    if screen.console.row < 19 {
        screen
    } else {
        redrawn(
            with_console(
                screen,
                ConsoleView {
                    row: 18,
                    cells: Seq::new(
                        760,
                        |i: int|
                            if i < 720 {
                                screen.console.cells[i + 40]
                            } else {
                                0
                            },
                    ),
                    ..screen.console
                },
            ),
        )
    }
}

/// The console on a new line.
pub open spec fn console_newline(screen: ScreenView) -> ScreenView {
    if !screen.graphics {
        screen
    } else {
        console_scrolled(
            with_console(
                screen,
                ConsoleView { column: 0, row: screen.console.row + 1, ..screen.console },
            ),
        )
    }
}

/// How many cells a character takes.
pub open spec fn cell_width(code: u32) -> int {
    if glyphs::small_rows(code) is Some {
        2
    } else {
        1
    }
}

/// The console with a character in the cells where it writes.
pub open spec fn console_stored(screen: ScreenView, code: u32) -> ScreenView {
    let at = screen.console.row * 40 + screen.console.column;
    let first = screen.console.cells.update(at, (code % 0x1_0000) as u16);
    with_console(
        screen,
        ConsoleView {
            cells: if cell_width(code) == 2 {
                first.update(at + 1, 0xffff)
            } else {
                first
            },
            ..screen.console
        },
    )
}

/// The console with a character written.
#[verifier::opaque]
pub open spec fn console_written(screen: ScreenView, code: u32) -> ScreenView {
    if !screen.graphics {
        screen
    } else {
        let width = cell_width(code);
        let ready = console_scrolled(
            if screen.console.column + width > 40 {
                with_console(
                    screen,
                    ConsoleView { column: 0, row: screen.console.row + 1, ..screen.console },
                )
            } else {
                screen
            },
        );
        let stored = console_stored(ready, code);
        let x = ready.console.x + ready.console.column * 6;
        let y = ready.console.y + ready.console.row * 8;
        let drawn = if ready.console.visible {
            letters::compact_drawn(
                screen::rect(stored, x, y, 6 * width, 8, 8),
                x,
                y,
                code,
                6,
                1,
            )
        } else {
            stored
        };
        with_console(
            drawn,
            ConsoleView { column: drawn.console.column + width, ..drawn.console },
        )
    }
}

/// The console one character back, with the cell there emptied.
#[verifier::opaque]
pub open spec fn console_backspaced(screen: ScreenView) -> ScreenView {
    let console = screen.console;
    if !screen.graphics || (console.column <= 0 && console.row <= 0) {
        screen
    } else {
        let (row, column) = if console.column > 0 {
            (console.row, console.column - 1)
        } else {
            (console.row - 1, 39)
        };
        let start = if console.cells[row * 40 + column] == 0xffff && column > 0 {
            column - 1
        } else {
            column
        };
        let base = row * 40 + start;
        let first = console.cells.update(base, 0);
        let cells = if start + 1 < 40 && first[base + 1] == 0xffff {
            first.update(base + 1, 0)
        } else {
            first
        };
        let moved = with_console(screen, ConsoleView { row, column: start, cells, ..console });
        if console.visible {
            screen::rect(moved, console.x + start * 6, console.y + row * 8, 12, 8, 8)
        } else {
            moved
        }
    }
}

/// A character in UTF-8.
pub open spec fn utf8_of(code: u32) -> Seq<u8> {
    if code < 0x80 {
        seq![code as u8]
    } else if code < 0x800 {
        seq![(0xc0 + code / 0x40) as u8, (0x80 + code % 0x40) as u8]
    } else if code < 0x1_0000 {
        seq![
            (0xe0 + code / 0x1000) as u8,
            (0x80 + code / 0x40 % 0x40) as u8,
            (0x80 + code % 0x40) as u8,
        ]
    } else {
        seq![
            (0xf0 + code / 0x4_0000 % 8) as u8,
            (0x80 + code / 0x1000 % 0x40) as u8,
            (0x80 + code / 0x40 % 0x40) as u8,
            (0x80 + code % 0x40) as u8,
        ]
    }
}

proof fn lemma_code_bits(code: u32)
    by (bit_vector)
    requires
        code < 0x11_0000,
    ensures
        code < 0x80 ==> (code & 0x7f) as u8 == code as u8,
        code < 0x800 ==> 0xc0u8 | ((code >> 6) & 0x1f) as u8 == (0xc0 + code / 0x40) as u8,
        code < 0x1_0000 ==> 0xe0u8 | ((code >> 12) & 0x0f) as u8 == (0xe0 + code / 0x1000) as u8,
        0xf0u8 | ((code >> 18) & 0x7) as u8 == (0xf0 + code / 0x4_0000 % 8) as u8,
        0x80u8 | ((code >> 12) & 0x3f) as u8 == (0x80 + code / 0x1000 % 0x40) as u8,
        0x80u8 | ((code >> 6) & 0x3f) as u8 == (0x80 + code / 0x40 % 0x40) as u8,
        0x80u8 | (code & 0x3f) as u8 == (0x80 + code % 0x40) as u8,
{
}

/// The bytes of a character are UTF-8.
pub proof fn lemma_utf8_of(code: u32)
    requires
        vstd::utf8::is_scalar(code),
    ensures
        utf8_of(code) == vstd::utf8::encode_scalar(code),
        vstd::utf8::valid_utf8(utf8_of(code)),
{
    lemma_code_bits(code);
    assert(utf8_of(code) =~= vstd::utf8::encode_scalar(code));
    let letter = code as char;
    assert(letter as u32 == code);
    let text = seq![letter];
    vstd::utf8::encode_utf8_valid_utf8(text);
    assert(text.drop_first() =~= Seq::<char>::empty());
    reveal_with_fuel(vstd::utf8::encode_utf8, 2);
    assert(vstd::utf8::encode_utf8(text) =~= utf8_of(code));
}

/// A character in UTF-8.
pub fn encode_utf8(code: u32) -> (bytes: Vec<u8>)
    ensures
        bytes@ == utf8_of(code),
        vstd::utf8::is_scalar(code) ==> vstd::utf8::valid_utf8(bytes@),
{
    proof {
        if vstd::utf8::is_scalar(code) {
            lemma_utf8_of(code);
        }
    }
    let bytes: Vec<u8> = if code < 0x80 {
        vec![code as u8]
    } else if code < 0x800 {
        vec![(0xc0 + code / 0x40) as u8, (0x80 + code % 0x40) as u8]
    } else if code < 0x1_0000 {
        vec![
            (0xe0 + code / 0x1000) as u8,
            (0x80 + code / 0x40 % 0x40) as u8,
            (0x80 + code % 0x40) as u8,
        ]
    } else {
        vec![
            (0xf0 + code / 0x4_0000 % 8) as u8,
            (0x80 + code / 0x1000 % 0x40) as u8,
            (0x80 + code / 0x40 % 0x40) as u8,
            (0x80 + code % 0x40) as u8,
        ]
    };
    assert(bytes@ =~= utf8_of(code));
    bytes
}

/// What a cell adds to the text of its row.
pub open spec fn cell_text(cell: u16) -> Seq<u8> {
    if cell == 0 || cell == 0xffff {
        seq![32u8]
    } else if 0xd800 <= cell <= 0xdfff {
        seq![63u8]
    } else {
        utf8_of(cell as u32)
    }
}

/// The text of the first `count` cells of a row, as far as each fits.
pub open spec fn row_text(cells: Seq<u16>, row: int, capacity: nat, count: nat) -> Seq<u8>
    decreases count,
{
    if count == 0 {
        Seq::empty()
    } else {
        fixed::appended(
            row_text(cells, row, capacity, (count - 1) as nat),
            cell_text(cells[row * 40 + count - 1]),
            capacity,
        )
    }
}

/// A text without the spaces at its end.
pub open spec fn stripped(text: Seq<u8>) -> Seq<u8>
    decreases text.len(),
{
    if text.len() > 0 && text.last() == 32 {
        stripped(text.drop_last())
    } else {
        text
    }
}

proof fn lemma_cells_drawn(screen: ScreenView, count: nat)
    ensures
        screen.wf() ==> cells_drawn(screen, count).wf(),
        cells_drawn(screen, count).console == screen.console,
        cells_drawn(screen, count).graphics == screen.graphics,
    decreases count,
{
    if count > 0 {
        lemma_cells_drawn(screen, (count - 1) as nat);
        let before = cells_drawn(screen, (count - 1) as nat);
        let index = count - 1;
        letters::lemma_compact(
            before,
            screen.console.x + index % 40 * 6,
            screen.console.y + index / 40 * 8,
            screen.console.cells[index] as u32,
            6,
            1,
        );
    }
}

proof fn lemma_redrawn(screen: ScreenView)
    ensures
        screen.wf() ==> redrawn(screen).wf(),
        redrawn(screen).console == screen.console,
        redrawn(screen).graphics == screen.graphics,
{
    reveal(redrawn);
    let filled = screen::rect(screen, screen.console.x, screen.console.y, 240, 152, 8);
    letters::lemma_rect(screen, screen.console.x, screen.console.y, 240, 152, 8);
    lemma_cells_drawn(filled, 760);
}

impl Screen {
    /// Draws the console, where it is to be seen.
    pub fn gfx_console_redraw(&mut self)
        requires
            old(self)@.wf(),
        ensures
            final(self)@.wf(),
            final(self)@ == redrawn(old(self)@),
    {
        reveal(redrawn);
        if !self.graphics || !self.console_visible {
            return;
        }
        let x: i128 = self.console_x as i128;
        let y: i128 = self.console_y as i128;
        proof {
            letters::lemma_rect(self@, x as int, y as int, 240, 152, 8);
        }
        self.fill(x, y, 240, 152, 8);
        let ghost filled = self@;
        let mut index: usize = 0;
        while index < 760
            invariant
                index <= 760,
                filled.wf(),
                filled.console.x == x,
                filled.console.y == y,
                self@.wf(),
                self@.console == filled.console,
                self@ == cells_drawn(filled, index as nat),
                -0x8000_0000 <= x <= 0x7fff_ffff,
                -0x8000_0000 <= y <= 0x7fff_ffff,
            decreases 760 - index,
        {
            proof {
                lemma_cells_drawn(filled, (index + 1) as nat);
            }
            assert(self.cells@ == self@.console.cells);
            let cell: u16 = self.cells[index];
            if cell != 0 && cell != 0xffff && !(cell >= 0xd800 && cell <= 0xdfff) {
                let column: i128 = (index % 40) as i128;
                let row: i128 = (index / 40) as i128;
                self.draw_unicode_glyph_compact(x + column * 6, y + row * 8, cell as u32, 6, 1);
            }
            index += 1;
        }
    }

    /// Empties the console.
    pub fn gfx_console_reset(&mut self)
        requires
            old(self)@.wf(),
        ensures
            final(self)@.wf(),
            final(self)@ == console_reset(old(self)@),
    {
        if !self.graphics {
            return;
        }
        self.console_row = 0;
        self.console_column = 0;
        let mut index: usize = 0;
        while index < 760
            invariant
                index <= 760,
                self.cells@.len() == 760,
                self@ == with_console(
                    old(self)@,
                    ConsoleView {
                        row: 0,
                        column: 0,
                        cells: self.cells@,
                        ..old(self)@.console
                    },
                ),
                forall|i: int| 0 <= i < index ==> #[trigger] self.cells@[i] == 0,
            decreases 760 - index,
        {
            self.cells.set(index, 0);
            index += 1;
        }
        assert(self.cells@ =~= Seq::new(760, |i: int| 0u16));
        self.gfx_console_redraw();
    }

    pub fn gfx_set_console_origin(&mut self, x: i32, y: i32)
        requires
            old(self)@.wf(),
        ensures
            final(self)@.wf(),
            final(self)@ == with_console(
                old(self)@,
                ConsoleView { x: x as int, y: y as int, ..old(self)@.console },
            ),
    {
        self.console_x = x;
        self.console_y = y;
    }

    pub fn gfx_set_console_visible(&mut self, visible: bool)
        requires
            old(self)@.wf(),
        ensures
            final(self)@.wf(),
            screen::same_frame(old(self)@, final(self)@),
            final(self)@ == with_console(
                old(self)@,
                ConsoleView { visible, ..old(self)@.console },
            ),
    {
        self.console_visible = visible;
    }

    pub fn gfx_console_rows(&self) -> (rows: usize)
        ensures
            rows == 19,
    {
        GFX_CONSOLE_ROWS
    }

    pub fn gfx_console_cols(&self) -> (columns: usize)
        ensures
            columns == 40,
    {
        GFX_CONSOLE_COLS
    }

    /// Where the console writes next.
    pub fn gfx_console_cursor(&self) -> (cursor: (usize, usize))
        requires
            self@.wf(),
        ensures
            cursor.0 == self@.console.row,
            cursor.1 == self@.console.column,
    {
        (self.console_row, self.console_column)
    }

    /// What a cell of the console holds; a cell that it does not have is empty.
    pub fn gfx_console_cell(&self, row: usize, column: usize) -> (cell: u16)
        requires
            self@.wf(),
        ensures
            cell == (if row < 19 && column < 40 {
                self@.console.cells[row * 40 + column]
            } else {
                0
            }),
    {
        if row >= GFX_CONSOLE_ROWS || column >= GFX_CONSOLE_COLS {
            return GFX_CONSOLE_EMPTY;
        }
        self.cells[row * 40 + column]
    }

    /// The text of a row of the console, without the spaces at its end.
    pub fn gfx_console_line<const N: usize>(&self, row: usize, out: &mut InlineString<N>)
        requires
            self@.wf(),
        ensures
            final(out)@ == (if row < 19 {
                stripped(row_text(self@.console.cells, row as int, N as nat, 40))
            } else {
                Seq::<u8>::empty()
            }),
    {
        out.clear();
        if row >= GFX_CONSOLE_ROWS {
            return;
        }
        let mut column: usize = 0;
        while column < GFX_CONSOLE_COLS
            invariant
                column <= 40,
                row < 19,
                self@.wf(),
                out@ == row_text(self@.console.cells, row as int, N as nat, column as nat),
            decreases 40 - column,
        {
            let cell: u16 = self.cells[row * 40 + column];
            let piece = if cell == 0 || cell == 0xffff {
                encode_utf8(32)
            } else if cell >= 0xd800 && cell <= 0xdfff {
                encode_utf8(63)
            } else {
                encode_utf8(cell as u32)
            };
            assert(piece@ =~= cell_text(cell));
            let _ = out.push_bytes(piece.as_slice());
            column += 1;
        }
        let ghost whole = out@;
        loop
            invariant
                stripped(out@) == stripped(whole),
            ensures
                out@ == stripped(whole),
            decreases out@.len(),
        {
            let length: usize = out.len();
            if length == 0 {
                break;
            }
            let bytes = out.as_bytes();
            if bytes[length - 1] != 32 {
                break;
            }
            proof {
                text::lemma_cut_at_ascii(bytes@, length - 1);
            }
            out.truncate(length - 1);
            assert(out@ =~= bytes@.drop_last());
        }
    }

    /// Moves the console one row up, if it writes behind its last row.
    fn gfx_console_scroll_if_needed(&mut self)
        requires
            old(self).console_row <= 19,
            old(self).console_row < 19 ==> old(self)@.wf(),
            old(self).console_row == 19 ==> with_console(
                old(self)@,
                ConsoleView { row: 0, ..old(self)@.console },
            ).wf(),
        ensures
            final(self)@.wf(),
            final(self)@ == console_scrolled(old(self)@),
            final(self)@.console.column == old(self)@.console.column,
            final(self)@.console.x == old(self)@.console.x,
            final(self)@.console.y == old(self)@.console.y,
            final(self)@.console.visible == old(self)@.console.visible,
            final(self)@.graphics == old(self)@.graphics,
    {
        if self.console_row < GFX_CONSOLE_ROWS {
            return;
        }
        let mut index: usize = 0;
        while index < 760
            invariant
                index <= 760,
                self.cells@.len() == 760,
                old(self).cells@.len() == 760,
                self@ == with_console(
                    old(self)@,
                    ConsoleView { cells: self.cells@, ..old(self)@.console },
                ),
                forall|i: int|
                    0 <= i < 760 ==> #[trigger] self.cells@[i] == (if i >= index {
                        old(self).cells@[i]
                    } else if i < 720 {
                        old(self).cells@[i + 40]
                    } else {
                        0
                    }),
            decreases 760 - index,
        {
            if index < 720 {
                let below: u16 = self.cells[index + 40];
                self.cells.set(index, below);
            } else {
                self.cells.set(index, 0);
            }
            index += 1;
        }
        self.console_row = 18;
        proof {
            let console = old(self)@.console;
            assert(self.cells@ =~= Seq::new(
                760,
                |i: int|
                    if i < 720 {
                        console.cells[i + 40]
                    } else {
                        0
                    },
            ));
            lemma_redrawn(self@);
        }
        self.gfx_console_redraw();
    }

    fn gfx_console_newline(&mut self)
        requires
            old(self)@.wf(),
        ensures
            final(self)@.wf(),
            final(self)@ == console_newline(old(self)@),
    {
        if !self.graphics {
            return;
        }
        self.console_column = 0;
        self.console_row = self.console_row + 1;
        self.gfx_console_scroll_if_needed();
    }

    fn gfx_console_write_char(&mut self, code: u32)
        requires
            old(self)@.wf(),
        ensures
            final(self)@.wf(),
            final(self)@ == console_written(old(self)@, code),
    {
        reveal(console_written);
        if !self.graphics {
            return;
        }
        let width: usize = if glyphs::cjk_glyph(code).is_some() {
            2
        } else {
            1
        };
        if self.console_column + width > GFX_CONSOLE_COLS {
            self.console_column = 0;
            self.console_row = self.console_row + 1;
        }
        self.gfx_console_scroll_if_needed();
        let ghost ready = self@;
        let row: usize = self.console_row;
        let column: usize = self.console_column;
        let at: usize = row * 40 + column;
        let x: i128 = self.console_x as i128 + column as i128 * 6;
        let y: i128 = self.console_y as i128 + row as i128 * 8;
        self.cells.set(at, (code % 0x1_0000) as u16);
        if width == 2 {
            self.cells.set(at + 1, 0xffff);
        }
        assert(self@ == console_stored(ready, code));
        if self.console_visible {
            proof {
                letters::lemma_rect(self@, x as int, y as int, 6 * width, 8, 8);
                letters::lemma_compact(
                    screen::rect(self@, x as int, y as int, 6 * width, 8, 8),
                    x as int,
                    y as int,
                    code,
                    6,
                    1,
                );
            }
            self.fill(x, y, 6 * width as i128, 8, 8);
            self.draw_unicode_glyph_compact(x, y, code, 6, 1);
        }
        self.console_column = self.console_column + width;
    }

    fn gfx_console_backspace(&mut self)
        requires
            old(self)@.wf(),
        ensures
            final(self)@.wf(),
            final(self)@ == console_backspaced(old(self)@),
    {
        reveal(console_backspaced);
        if !self.graphics {
            return;
        }
        if self.console_column > 0 {
            self.console_column = self.console_column - 1;
        } else if self.console_row > 0 {
            self.console_row = self.console_row - 1;
            self.console_column = 39;
        } else {
            return;
        }
        let row: usize = self.console_row;
        if self.cells[row * 40 + self.console_column] == 0xffff && self.console_column > 0 {
            self.console_column = self.console_column - 1;
        }
        let column: usize = self.console_column;
        let base: usize = row * 40 + column;
        self.cells.set(base, 0);
        if column + 1 < 40 && self.cells[base + 1] == 0xffff {
            self.cells.set(base + 1, 0);
        }
        if self.console_visible {
            let x: i128 = self.console_x as i128 + column as i128 * 6;
            let y: i128 = self.console_y as i128 + row as i128 * 8;
            self.fill(x, y, 12, 8, 8);
        }
    }

    /// Starts the line of the console again, whether or not it is drawn.
    fn gfx_console_return(&mut self)
        requires
            old(self)@.wf(),
        ensures
            final(self)@.wf(),
            final(self)@ == with_console(
                old(self)@,
                ConsoleView { column: 0, ..old(self)@.console },
            ),
    {
        self.console_column = 0;
    }
}

/// The text display: its cursor, the letter and the colour of each of its cells, and what
/// was sent on the serial line.
#[verifier::ext_equal]
pub struct TextView {
    pub row: int,
    pub column: int,
    pub cells: Seq<(u8, u8)>,
    pub serial: Seq<u8>,
}

impl TextView {
    pub open spec fn wf(self) -> bool {
        &&& 0 <= self.row < 25
        &&& 0 <= self.column < 80
        &&& self.cells.len() == 2000
    }

    /// The display emptied.
    pub open spec fn cleared(self) -> Self {
        TextView {
            row: 0,
            column: 0,
            cells: Seq::new(2000, |i: int| (32u8, 7u8)),
            ..self
        }
    }

    /// The display one row up, if it writes behind its last row.
    pub open spec fn scrolled(self) -> Self {
        if self.row < 25 {
            self
        } else {
            TextView {
                row: 24,
                cells: Seq::new(
                    2000,
                    |i: int|
                        if i < 1920 {
                            self.cells[i + 80]
                        } else {
                            (32u8, 7u8)
                        },
                ),
                ..self
            }
        }
    }

    /// The display on a new line.
    pub open spec fn newline(self) -> Self {
        TextView {
            row: self.row + 1,
            column: 0,
            serial: self.serial.push(13).push(10),
            ..self
        }.scrolled()
    }

    /// The display one character back, with the cell there emptied.
    pub open spec fn backspaced(self) -> Self {
        let (row, column) = if self.column > 0 {
            (self.row, self.column - 1)
        } else if self.row > 0 {
            (self.row - 1, 79)
        } else {
            (self.row, self.column)
        };
        TextView {
            row,
            column,
            cells: self.cells.update(row * 80 + column, (32u8, 7u8)),
            serial: self.serial.push(8).push(32).push(8),
        }
    }

    /// The display with a character written.
    pub open spec fn letter(self, code: u32) -> Self {
        let stored = TextView {
            cells: self.cells.update(
                self.row * 80 + self.column,
                (
                    if code < 128 {
                        code as u8
                    } else {
                        63u8
                    },
                    15u8,
                ),
            ),
            serial: self.serial + utf8_of(code),
            ..self
        };
        if self.column + 1 >= 80 {
            TextView { column: 0, row: self.row + 1, ..stored }.scrolled()
        } else {
            TextView { column: self.column + 1, ..stored }
        }
    }
}

/// The text display and the screen with one character written.
pub open spec fn char_written(text: TextView, screen: ScreenView, ch: char) -> (
    TextView,
    ScreenView,
) {
    if ch == '\n' {
        (text.newline(), console_newline(screen))
    } else if ch == '\r' {
        (
            TextView { column: 0, ..text },
            with_console(screen, ConsoleView { column: 0, ..screen.console }),
        )
    } else if ch as u32 == 8 {
        (text.backspaced(), console_backspaced(screen))
    } else {
        (text.letter(ch as u32), console_written(screen, ch as u32))
    }
}

/// The text display and the screen with the first characters of a text written.
pub open spec fn text_written(text: TextView, screen: ScreenView, chars: Seq<char>, count: nat) -> (
    TextView,
    ScreenView,
)
    decreases count,
{
    if count == 0 {
        (text, screen)
    } else {
        let before = text_written(text, screen, chars, (count - 1) as nat);
        char_written(before.0, before.1, chars[count - 1])
    }
}

/// The text display and the serial line.
pub struct TextConsole {
    row: usize,
    column: usize,
    cells: Vec<(u8, u8)>,
    serial: Vec<u8>,
}

impl View for TextConsole {
    type V = TextView;

    closed spec fn view(&self) -> TextView {
        TextView {
            row: self.row as int,
            column: self.column as int,
            cells: self.cells@,
            serial: self.serial@,
        }
    }
}

impl TextConsole {
    /// An empty display, with nothing sent.
    pub fn new() -> (console: Self)
        ensures
            console@.wf(),
            console@ == (TextView {
                row: 0,
                column: 0,
                cells: Seq::new(2000, |i: int| (32u8, 7u8)),
                serial: Seq::empty(),
            }),
    {
        let mut cells: Vec<(u8, u8)> = Vec::new();
        let mut index: usize = 0;
        while index < 2000
            invariant
                index <= 2000,
                cells@ == Seq::new(index as nat, |i: int| (32u8, 7u8)),
            decreases 2000 - index,
        {
            cells.push((32, 7));
            index += 1;
            assert(cells@ =~= Seq::new(index as nat, |i: int| (32u8, 7u8)));
        }
        let console = TextConsole { row: 0, column: 0, cells, serial: Vec::new() };
        assert(console@.serial =~= Seq::<u8>::empty());
        console
    }

    /// Takes what was sent on the serial line.
    pub fn take_serial(&mut self) -> (sent: Vec<u8>)
        requires
            old(self)@.wf(),
        ensures
            final(self)@.wf(),
            sent@ == old(self)@.serial,
            final(self)@ == (TextView { serial: Seq::empty(), ..old(self)@ }),
    {
        let mut sent: Vec<u8> = Vec::new();
        core::mem::swap(&mut sent, &mut self.serial);
        assert(self@.serial =~= Seq::<u8>::empty());
        sent
    }

    /// What a cell of the display holds.
    pub fn cell(&self, row: usize, column: usize) -> (cell: (u8, u8))
        requires
            self@.wf(),
            row < 25,
            column < 80,
        ensures
            cell == self@.cells[row * 80 + column],
    {
        self.cells[row * 80 + column]
    }

    pub fn clear_screen(&mut self)
        requires
            old(self)@.wf(),
        ensures
            final(self)@.wf(),
            final(self)@ == old(self)@.cleared(),
    {
        let mut index: usize = 0;
        while index < 2000
            invariant
                index <= 2000,
                self.cells@.len() == 2000,
                self@ == (TextView { cells: self.cells@, ..old(self)@ }),
                forall|i: int| 0 <= i < index ==> #[trigger] self.cells@[i] == (32u8, 7u8),
            decreases 2000 - index,
        {
            self.cells.set(index, (32, 7));
            index += 1;
        }
        self.row = 0;
        self.column = 0;
        assert(self.cells@ =~= Seq::new(2000, |i: int| (32u8, 7u8)));
    }

    fn scroll_if_needed(&mut self)
        requires
            old(self).row <= 25,
            old(self).column < 80,
            old(self).cells@.len() == 2000,
        ensures
            final(self)@.wf(),
            final(self)@ == old(self)@.scrolled(),
    {
        if self.row < VGA_HEIGHT {
            return;
        }
        let mut index: usize = 0;
        while index < 2000
            invariant
                index <= 2000,
                self.cells@.len() == 2000,
                old(self).cells@.len() == 2000,
                self@ == (TextView { cells: self.cells@, ..old(self)@ }),
                old(self).row <= 25,
                old(self).column < 80,
                forall|i: int|
                    0 <= i < 2000 ==> #[trigger] self.cells@[i] == (if i >= index {
                        old(self).cells@[i]
                    } else if i < 1920 {
                        old(self).cells@[i + 80]
                    } else {
                        (32u8, 7u8)
                    }),
            decreases 2000 - index,
        {
            if index < 1920 {
                let below = self.cells[index + 80];
                self.cells.set(index, below);
            } else {
                self.cells.set(index, (32, 7));
            }
            index += 1;
        }
        self.row = 24;
        assert(self@.cells =~= old(self)@.scrolled().cells);
    }

    fn serial_write(&mut self, bytes: &[u8])
        requires
            old(self)@.wf(),
        ensures
            final(self)@.wf(),
            final(self)@ == (TextView { serial: old(self)@.serial + bytes@, ..old(self)@ }),
    {
        let mut index: usize = 0;
        assert(bytes@.take(0) =~= Seq::<u8>::empty());
        assert(self.serial@ =~= old(self)@.serial + bytes@.take(0));
        while index < bytes.len()
            invariant
                index <= bytes@.len(),
                old(self)@.wf(),
                self@ == (TextView { serial: self.serial@, ..old(self)@ }),
                self.serial@ == old(self)@.serial + bytes@.take(index as int),
            decreases bytes@.len() - index,
        {
            self.serial.push(bytes[index]);
            index += 1;
            assert(self.serial@ =~= old(self)@.serial + bytes@.take(index as int));
        }
        assert(bytes@.take(index as int) =~= bytes@);
    }

    fn write_char(&mut self, screen: &mut Screen, ch: char)
        requires
            old(self)@.wf(),
            old(screen)@.wf(),
        ensures
            final(self)@.wf(),
            final(screen)@.wf(),
            (final(self)@, final(screen)@) == char_written(old(self)@, old(screen)@, ch),
    {
        if ch == '\n' {
            self.serial.push(13);
            self.serial.push(10);
            screen.gfx_console_newline();
            self.row = self.row + 1;
            self.column = 0;
            self.scroll_if_needed();
        } else if ch == '\r' {
            self.column = 0;
            screen.gfx_console_return();
        } else if ch as u32 == 8 {
            if self.column > 0 {
                self.column = self.column - 1;
            } else if self.row > 0 {
                self.row = self.row - 1;
                self.column = 79;
            }
            let at: usize = self.row * 80 + self.column;
            self.cells.set(at, (32, 7));
            self.serial.push(8);
            self.serial.push(32);
            self.serial.push(8);
            screen.gfx_console_backspace();
        } else {
            let code: u32 = ch as u32;
            let bytes = encode_utf8(code);
            self.serial_write(bytes.as_slice());
            screen.gfx_console_write_char(code);
            let at: usize = self.row * 80 + self.column;
            let letter: u8 = if code < 128 {
                code as u8
            } else {
                63
            };
            self.cells.set(at, (letter, 15));
            self.column = self.column + 1;
            if self.column >= VGA_WIDTH {
                self.column = 0;
                self.row = self.row + 1;
                self.scroll_if_needed();
            }
        }
    }

    /// Writes a text to the display, the serial line and the console on the screen.
    pub fn console_write(&mut self, screen: &mut Screen, text: &str)
        requires
            old(self)@.wf(),
            old(screen)@.wf(),
        ensures
            final(self)@.wf(),
            final(screen)@.wf(),
            (final(self)@, final(screen)@) == text_written(
                old(self)@,
                old(screen)@,
                text@,
                text@.len(),
            ),
    {
        let count: usize = text.unicode_len();
        let mut index: usize = 0;
        while index < count
            invariant
                index <= count,
                count == text@.len(),
                self@.wf(),
                screen@.wf(),
                (self@, screen@) == text_written(
                    old(self)@,
                    old(screen)@,
                    text@,
                    index as nat,
                ),
            decreases count - index,
        {
            let ch = text.get_char(index);
            self.write_char(screen, ch);
            index += 1;
        }
    }
}

} // verus!
