//! Letters on the screen.
use crate::screen;
use crate::screen::glyphs;
use crate::screen::glyphs::Stroke;
use crate::screen::{Screen, ScreenView, Shape};
use vstd::prelude::*;
use vstd::string::*;

verus! {

/// The sixteen rows of a bitmap that has fewer, or narrower ones.
pub open spec fn rows_of(rows: Seq<u16>) -> Seq<u16> {
    Seq::new(
        16,
        |i: int|
            if i < rows.len() {
                rows[i]
            } else {
                0
            },
    )
}

/// A bitmap on the screen, each bit as a square.
pub open spec fn bitmap(
    screen: ScreenView,
    x: int,
    y: int,
    step: int,
    columns: u32,
    rows: Seq<u16>,
    color: u8,
) -> ScreenView {
    screen::painted(
        screen,
        Shape::Cells {
            x: x as i128,
            y: y as i128,
            step: step as i128,
            columns,
            count: rows.len() as usize,
            rows: array_of(rows_of(rows)),
        },
        screen.palette[color as int],
        255,
    )
}

/// An array by what it holds.
pub open spec fn array_of(rows: Seq<u16>) -> [u16; 16] {
    choose|array: [u16; 16]| array@ == rows
}

/// Rows of eight bits as rows of sixteen.
pub open spec fn wide(rows: Seq<u8>) -> Seq<u16> {
    Seq::new(rows.len(), |i: int| rows[i] as u16)
}

/// A quotient rounded toward zero.
pub open spec fn quotient(value: int, divisor: int) -> int {
    if value >= 0 {
        value / divisor
    } else {
        -((-value) / divisor)
    }
}

/// How many steps a diagonal stroke takes.
pub open spec fn diagonal_steps(dx: int, dy: int) -> int {
    let wide = if dx < 0 {
        -dx
    } else {
        dx
    };
    let high = if dy < 0 {
        -dy
    } else {
        dy
    };
    let most = if wide > high {
        wide
    } else {
        high
    };
    if most > 1 {
        most
    } else {
        1
    }
}

/// The first steps of a diagonal stroke, each as a square.
pub open spec fn diagonal(
    screen: ScreenView,
    x: int,
    y: int,
    from: (int, int),
    to: (int, int),
    color: u8,
    scale: int,
    count: nat,
) -> ScreenView
    decreases count,
{
    if count == 0 {
        screen
    } else {
        let step = count - 1;
        let dx = to.0 - from.0;
        let dy = to.1 - from.1;
        let steps = diagonal_steps(dx, dy);
        let before = diagonal(screen, x, y, from, to, color, scale, step as nat);
        screen::rect(
            before,
            x + (from.0 + quotient(dx * step, steps)) * scale,
            y + (from.1 + quotient(dy * step, steps)) * scale,
            scale,
            scale,
            color,
        )
    }
}

/// A stroke on the screen.
pub open spec fn stroked(
    screen: ScreenView,
    x: int,
    y: int,
    stroke: Stroke,
    color: u8,
    scale: int,
) -> ScreenView {
    match stroke {
        Stroke::Horizontal { left, right, top } => screen::rect(
            screen,
            x + left * scale,
            y + top * scale,
            (right - left + 1) * scale,
            scale,
            color,
        ),
        Stroke::Vertical { column, top, bottom } => screen::rect(
            screen,
            x + column * scale,
            y + top * scale,
            scale,
            (bottom - top + 1) * scale,
            color,
        ),
        Stroke::Diagonal { x0, y0, x1, y1 } => diagonal(
            screen,
            x,
            y,
            (x0 as int, y0 as int),
            (x1 as int, y1 as int),
            color,
            scale,
            (diagonal_steps(x1 - x0, y1 - y0) + 1) as nat,
        ),
        Stroke::Dot { column, row } => screen::rect(
            screen,
            x + column * scale,
            y + row * scale,
            scale,
            scale,
            color,
        ),
    }
}

/// The first strokes of a character on the screen.
pub open spec fn all_stroked(
    screen: ScreenView,
    x: int,
    y: int,
    strokes: Seq<Stroke>,
    color: u8,
    scale: int,
    count: nat,
) -> ScreenView
    decreases count,
{
    if count == 0 {
        screen
    } else {
        stroked(
            all_stroked(screen, x, y, strokes, color, scale, (count - 1) as nat),
            x,
            y,
            strokes[count - 1],
            color,
            scale,
        )
    }
}

/// An ASCII letter on the screen.
pub open spec fn ascii_drawn(screen: ScreenView, x: int, y: int, ch: u8, color: u8, scale: int) -> ScreenView {
    bitmap(screen, x, y, scale, 5, wide(glyphs::ascii_rows(glyphs::normalized(ch))), color)
}

/// A large letter on the screen.
#[verifier::opaque]
pub open spec fn large_drawn(
    screen: ScreenView,
    x: int,
    y: int,
    code: u32,
    color: u8,
    scale: int,
) -> ScreenView {
    if code < 128 {
        ascii_drawn(screen, x, y, code as u8, color, scale)
    } else if let Some(rows) = glyphs::large_rows(code) {
        bitmap(screen, x, y, scale, 16, rows, color)
    } else if let Some(strokes) = glyphs::strokes_of(code) {
        all_stroked(screen, x, y, strokes, color, scale, strokes.len())
    } else if let Some(rows) = glyphs::small_rows(code) {
        bitmap(screen, x, y, scale * 2, 8, wide(rows), color)
    } else {
        ascii_drawn(screen, x, y, 63, color, scale)
    }
}

/// The screen with the strokes of a character on it, and whether there was anything to draw.
pub open spec fn stroke_drawn(
    screen: ScreenView,
    x: int,
    y: int,
    code: u32,
    color: u8,
    scale: int,
) -> (ScreenView, bool) {
    match glyphs::strokes_of(code) {
        Some(strokes) => if scale > 0 {
            (all_stroked(screen, x, y, strokes, color, scale, strokes.len()), true)
        } else {
            (screen, false)
        },
        None => (screen, false),
    }
}

/// A character is drawn by its strokes exactly where it has any and the scale is above zero;
/// where it is not, the screen stays as it was.
pub proof fn law_strokes_are_drawn_or_nothing_is(
    screen: ScreenView,
    x: int,
    y: int,
    code: u32,
    color: u8,
    scale: int,
)
    ensures
        stroke_drawn(screen, x, y, code, color, scale).1 == (scale > 0 && glyphs::strokes_of(
            code,
        ) is Some),
        !stroke_drawn(screen, x, y, code, color, scale).1 ==> stroke_drawn(
            screen,
            x,
            y,
            code,
            color,
            scale,
        ).0 == screen,
{
}

/// How far the next large letter stands from the start of this one.
pub open spec fn large_advance(code: u32, scale: int) -> int {
    if code < 128 {
        6 * scale
    } else if glyphs::large_rows(code) is Some {
        16 * scale
    } else if glyphs::strokes_of(code) is Some || glyphs::small_rows(code) is Some {
        14 * scale
    } else {
        6 * scale
    }
}

/// A small letter on the screen.
#[verifier::opaque]
pub open spec fn compact_drawn(
    screen: ScreenView,
    x: int,
    y: int,
    code: u32,
    color: u8,
    scale: int,
) -> ScreenView {
    if code < 128 {
        ascii_drawn(screen, x, y, code as u8, color, scale)
    } else if let Some(rows) = glyphs::small_rows(code) {
        bitmap(screen, x, y, scale, 8, wide(rows), color)
    } else {
        ascii_drawn(screen, x, y, 63, color, scale)
    }
}

/// How far the next small letter stands from the start of this one.
pub open spec fn compact_advance(code: u32, scale: int) -> int {
    if code >= 128 && glyphs::small_rows(code) is Some {
        10 * scale
    } else {
        6 * scale
    }
}

/// Where letter `count` of a text stands: a line break starts at the left again, on the
/// same row.
pub open spec fn text_cursor(x: int, text: Seq<char>, scale: int, large: bool, count: nat) -> int
    decreases count,
{
    if count == 0 {
        x
    } else if text[count - 1] == '\n' {
        x
    } else {
        text_cursor(x, text, scale, large, (count - 1) as nat) + (if large {
            large_advance(text[count - 1] as u32, scale)
        } else {
            compact_advance(text[count - 1] as u32, scale)
        })
    }
}

/// The first letters of a text on the screen.
pub open spec fn letters_drawn(
    screen: ScreenView,
    x: int,
    y: int,
    text: Seq<char>,
    color: u8,
    scale: int,
    large: bool,
    count: nat,
) -> ScreenView
    decreases count,
{
    if count == 0 {
        screen
    } else {
        let before = letters_drawn(screen, x, y, text, color, scale, large, (count - 1) as nat);
        let at = text_cursor(x, text, scale, large, (count - 1) as nat);
        let ch = text[count - 1];
        if ch == '\n' {
            before
        } else if large {
            large_drawn(before, at, y, ch as u32, color, scale)
        } else {
            compact_drawn(before, at, y, ch as u32, color, scale)
        }
    }
}

/// A text in large letters on the screen.
#[verifier::opaque]
pub open spec fn text_drawn(
    screen: ScreenView,
    x: int,
    y: int,
    text: Seq<char>,
    color: u8,
    scale: int,
) -> ScreenView {
    if !screen.graphics || scale <= 0 {
        screen
    } else {
        letters_drawn(screen, x, y, text, color, scale, true, text.len())
    }
}

/// A text in small letters on the screen.
#[verifier::opaque]
pub open spec fn compact_text_drawn(
    screen: ScreenView,
    x: int,
    y: int,
    text: Seq<char>,
    color: u8,
    scale: int,
) -> ScreenView {
    if !screen.graphics || scale <= 0 {
        screen
    } else {
        letters_drawn(screen, x, y, text, color, scale, false, text.len())
    }
}

/// How wide the first letters of a text are, up to a line break.
pub open spec fn width_of(text: Seq<char>, scale: int, from: int) -> int
    decreases text.len() - from,
{
    if from < 0 || from >= text.len() || text[from] == '\n' {
        0
    } else {
        large_advance(text[from] as u32, scale) + width_of(text, scale, from + 1)
    }
}

/// How wide a text is up to a line break.
#[verifier::opaque]
pub open spec fn text_size(text: Seq<char>, scale: int) -> int {
    if scale <= 0 {
        0
    } else {
        width_of(text, scale, 0)
    }
}

proof fn lemma_advance(code: u32, scale: int)
    requires
        scale > 0,
    ensures
        0 < large_advance(code, scale) <= 16 * scale,
        0 < compact_advance(code, scale) <= 16 * scale,
{
}

proof fn lemma_cursor(x: int, text: Seq<char>, scale: int, large: bool, count: nat)
    requires
        0 < scale <= 0x7fff_ffff,
    ensures
        x <= text_cursor(x, text, scale, large, count) <= x + count * 0x8_0000_0000,
    decreases count,
{
    if count > 0 {
        lemma_cursor(x, text, scale, large, (count - 1) as nat);
        lemma_advance(text[count - 1] as u32, scale);
    }
}

proof fn lemma_width(text: Seq<char>, scale: int, from: int)
    requires
        scale > 0,
        0 <= from <= text.len(),
    ensures
        0 <= width_of(text, scale, from) <= (text.len() - from) * (16 * scale),
    decreases text.len() - from,
{
    if from < text.len() && text[from] != '\n' {
        lemma_width(text, scale, from + 1);
        lemma_advance(text[from] as u32, scale);
        assert((text.len() - from) * (16 * scale) == (text.len() - (from + 1)) * (16 * scale) + 16
            * scale) by (nonlinear_arith);
    } else {
        assert(0 <= (text.len() - from) * (16 * scale)) by (nonlinear_arith)
            requires
                0 <= from <= text.len(),
                scale > 0,
        ;
    }
}

/// Where letters can be drawn: the coordinates are computed with wide numbers.
pub open spec fn in_plane(x: int, y: int) -> bool {
    let limit = 0x80_0000_0000_0000_0000_0000_0000int;
    -limit <= x <= limit && -limit <= y <= limit
}

impl Screen {
    /// The colour of the palette.
    pub(crate) fn palette_color_u32(&self, index: u8) -> (color: u32)
        requires
            self@.wf(),
        ensures
            color == self@.palette[index as int],
    {
        self.palette[index as usize]
    }

    fn draw_bitmap(
        &mut self,
        x: i128,
        y: i128,
        step: i128,
        columns: u32,
        count: usize,
        rows: [u16; 16],
        color: u8,
    )
        requires
            old(self)@.wf(),
            in_plane(x as int, y as int),
            0 < step <= 0xffff_ffff,
            columns <= 16,
            count <= 16,
            forall|i: int| count <= i < 16 ==> #[trigger] rows@[i] == 0,
        ensures
            final(self)@.wf(),
            screen::same_frame(old(self)@, final(self)@),
            final(self)@ == bitmap(
                old(self)@,
                x as int,
                y as int,
                step as int,
                columns,
                rows@.take(count as int),
                color,
            ),
    {
        proof {
            assert(rows@ =~= rows_of(rows@.take(count as int)));
            let chosen = array_of(rows_of(rows@.take(count as int)));
            assert(chosen@ == rows@);
            assert(chosen =~= rows);
        }
        let value: u32 = self.palette_color_u32(color);
        self.paint(Shape::Cells { x, y, step, columns, count, rows }, value, 255);
    }

    fn draw_ascii_glyph(&mut self, x: i128, y: i128, ch: u8, color: u8, scale: i128)
        requires
            old(self)@.wf(),
            in_plane(x as int, y as int),
            0 < scale <= 0x7fff_ffff,
        ensures
            final(self)@.wf(),
            screen::same_frame(old(self)@, final(self)@),
            final(self)@ == ascii_drawn(
                old(self)@,
                x as int,
                y as int,
                ch,
                color,
                scale as int,
            ),
    {
        let glyph = glyphs::glyph_bitmap(glyphs::normalize_glyph(ch));
        let rows: [u16; 16] = [
            glyph[0] as u16,
            glyph[1] as u16,
            glyph[2] as u16,
            glyph[3] as u16,
            glyph[4] as u16,
            glyph[5] as u16,
            glyph[6] as u16,
            0,
            0,
            0,
            0,
            0,
            0,
            0,
            0,
            0,
        ];
        assert(rows@.take(7) =~= wide(glyph@));
        self.draw_bitmap(x, y, scale, 5, 7, rows, color);
    }

    fn draw_bitmap_glyph8(&mut self, x: i128, y: i128, glyph: [u8; 8], color: u8, step: i128)
        requires
            old(self)@.wf(),
            in_plane(x as int, y as int),
            0 < step <= 0xffff_ffff,
        ensures
            final(self)@.wf(),
            screen::same_frame(old(self)@, final(self)@),
            final(self)@ == bitmap(
                old(self)@,
                x as int,
                y as int,
                step as int,
                8,
                wide(glyph@),
                color,
            ),
    {
        let rows: [u16; 16] = [
            glyph[0] as u16,
            glyph[1] as u16,
            glyph[2] as u16,
            glyph[3] as u16,
            glyph[4] as u16,
            glyph[5] as u16,
            glyph[6] as u16,
            glyph[7] as u16,
            0,
            0,
            0,
            0,
            0,
            0,
            0,
            0,
        ];
        assert(rows@.take(8) =~= wide(glyph@));
        self.draw_bitmap(x, y, step, 8, 8, rows, color);
    }

    /// Draws a rectangle anywhere in the plane.
    pub(crate) fn fill(&mut self, x: i128, y: i128, w: i128, h: i128, color: u8)
        requires
            old(self)@.wf(),
            in_plane(x as int - 0x1000_0000_0000, y as int - 0x1000_0000_0000),
            in_plane(x as int + 0x1000_0000_0000, y as int + 0x1000_0000_0000),
            -0x1000_0000_0000 <= w <= 0x1000_0000_0000,
            -0x1000_0000_0000 <= h <= 0x1000_0000_0000,
        ensures
            final(self)@.wf(),
            screen::same_frame(old(self)@, final(self)@),
            final(self)@ == screen::rect(
                old(self)@,
                x as int,
                y as int,
                w as int,
                h as int,
                color,
            ),
    {
        let value: u32 = self.palette_color_u32(color);
        self.paint(Shape::Rect { x, y, w, h }, value, 255);
    }

    fn draw_diagonal(
        &mut self,
        x: i128,
        y: i128,
        from: (i32, i32),
        to: (i32, i32),
        color: u8,
        scale: i128,
    )
        requires
            old(self)@.wf(),
            letters_plane(x as int, y as int),
            0 < scale <= 0x7fff_ffff,
            -16 <= from.0 <= 16,
            -16 <= from.1 <= 16,
            -16 <= to.0 <= 16,
            -16 <= to.1 <= 16,
        ensures
            final(self)@.wf(),
            screen::same_frame(old(self)@, final(self)@),
            final(self)@ == diagonal(
                old(self)@,
                x as int,
                y as int,
                (from.0 as int, from.1 as int),
                (to.0 as int, to.1 as int),
                color,
                scale as int,
                (diagonal_steps(to.0 - from.0, to.1 - from.1) + 1) as nat,
            ),
    {
        let dx: i32 = to.0 - from.0;
        let dy: i32 = to.1 - from.1;
        let across: i32 = if dx < 0 {
            -dx
        } else {
            dx
        };
        let high: i32 = if dy < 0 {
            -dy
        } else {
            dy
        };
        let most: i32 = if across > high {
            across
        } else {
            high
        };
        let steps: i32 = if most > 1 {
            most
        } else {
            1
        };
        let mut step: i32 = 0;
        while step <= steps
            invariant
                0 <= step <= steps + 1,
                1 <= steps <= 32,
                -32 <= dx <= 32,
                -32 <= dy <= 32,
                dx == to.0 - from.0,
                dy == to.1 - from.1,
                steps == diagonal_steps(dx as int, dy as int),
                letters_plane(x as int, y as int),
                0 < scale <= 0x7fff_ffff,
                -16 <= from.0 <= 16,
                -16 <= from.1 <= 16,
                self@.wf(),
                screen::same_frame(old(self)@, self@),
                self@ == diagonal(
                    old(self)@,
                    x as int,
                    y as int,
                    (from.0 as int, from.1 as int),
                    (to.0 as int, to.1 as int),
                    color,
                    scale as int,
                    step as nat,
                ),
            decreases steps + 1 - step,
        {
            let along_x: i128 = divide(dx, step, steps);
            let along_y: i128 = divide(dy, step, steps);
            let px: i128 = from.0 as i128 + along_x;
            let py: i128 = from.1 as i128 + along_y;
            proof {
                lemma_scaled(px as int, scale as int);
                lemma_scaled(py as int, scale as int);
            }
            self.fill(x + px * scale, y + py * scale, scale, scale, color);
            step += 1;
        }
    }

    fn draw_stroke(&mut self, x: i128, y: i128, stroke: Stroke, color: u8, scale: i128)
        requires
            old(self)@.wf(),
            letters_plane(x as int, y as int),
            0 < scale <= 0x7fff_ffff,
            stroke.wf(),
        ensures
            final(self)@.wf(),
            screen::same_frame(old(self)@, final(self)@),
            final(self)@ == stroked(
                old(self)@,
                x as int,
                y as int,
                stroke,
                color,
                scale as int,
            ),
    {
        match stroke {
            Stroke::Horizontal { left, right, top } => {
                proof {
                    lemma_scaled(left as int, scale as int);
                    lemma_scaled(top as int, scale as int);
                    lemma_scaled(right - left + 1, scale as int);
                }
                self.fill(
                    x + left as i128 * scale,
                    y + top as i128 * scale,
                    (right - left + 1) as i128 * scale,
                    scale,
                    color,
                );
            },
            Stroke::Vertical { column, top, bottom } => {
                proof {
                    lemma_scaled(column as int, scale as int);
                    lemma_scaled(top as int, scale as int);
                    lemma_scaled(bottom - top + 1, scale as int);
                }
                self.fill(
                    x + column as i128 * scale,
                    y + top as i128 * scale,
                    scale,
                    (bottom - top + 1) as i128 * scale,
                    color,
                );
            },
            Stroke::Diagonal { x0, y0, x1, y1 } => {
                self.draw_diagonal(x, y, (x0, y0), (x1, y1), color, scale);
            },
            Stroke::Dot { column, row } => {
                proof {
                    lemma_scaled(column as int, scale as int);
                    lemma_scaled(row as int, scale as int);
                }
                self.fill(
                    x + column as i128 * scale,
                    y + row as i128 * scale,
                    scale,
                    scale,
                    color,
                );
            },
        }
    }

    /// Draws a character by its strokes, if it has any and the scale is not zero or below.
    pub fn draw_cjk_stroke_glyph(&mut self, x: i128, y: i128, code: u32, color: u8, scale: i128) -> (drawn:
        bool)
        requires
            old(self)@.wf(),
            letters_plane(x as int, y as int),
            scale <= 0x7fff_ffff,
        ensures
            final(self)@.wf(),
            screen::same_frame(old(self)@, final(self)@),
            drawn == (scale > 0 && glyphs::strokes_of(code) is Some),
            !drawn ==> final(self)@ == old(self)@,
            (final(self)@, drawn) == stroke_drawn(
                old(self)@,
                x as int,
                y as int,
                code,
                color,
                scale as int,
            ),
    {
        if scale <= 0 {
            return false;
        }
        let list = match glyphs::strokes(code) {
            None => {
                return false;
            },
            Some(list) => list,
        };
        let mut index: usize = 0;
        while index < list.len()
            invariant
                index <= list@.len(),
                forall|i: int| 0 <= i < list@.len() ==> (#[trigger] list@[i]).wf(),
                letters_plane(x as int, y as int),
                0 < scale <= 0x7fff_ffff,
                self@.wf(),
                screen::same_frame(old(self)@, self@),
                self@ == all_stroked(
                    old(self)@,
                    x as int,
                    y as int,
                    list@,
                    color,
                    scale as int,
                    index as nat,
                ),
            decreases list@.len() - index,
        {
            self.draw_stroke(x, y, list[index], color, scale);
            index += 1;
        }
        true
    }

    fn draw_unicode_glyph_large(&mut self, x: i128, y: i128, code: u32, color: u8, scale: i128) -> (
        advance: i128)
        requires
            old(self)@.wf(),
            letters_plane(x as int, y as int),
            0 < scale <= 0x7fff_ffff,
        ensures
            final(self)@.wf(),
            screen::same_frame(old(self)@, final(self)@),
            final(self)@ == large_drawn(
                old(self)@,
                x as int,
                y as int,
                code,
                color,
                scale as int,
            ),
            advance == large_advance(code, scale as int),
    {
        reveal(large_drawn);
        if code < 128 {
            self.draw_ascii_glyph(x, y, code as u8, color, scale);
            return 6 * scale;
        }
        if let Some(glyph) = glyphs::cjk_glyph16(code) {
            assert(glyph@.take(16) =~= glyph@);
            self.draw_bitmap(x, y, scale, 16, 16, glyph, color);
            return 16 * scale;
        }
        if self.draw_cjk_stroke_glyph(x, y, code, color, scale) {
            return 14 * scale;
        }
        if let Some(glyph) = glyphs::cjk_glyph(code) {
            self.draw_bitmap_glyph8(x, y, glyph, color, scale * 2);
            return 14 * scale;
        }
        self.draw_ascii_glyph(x, y, 63, color, scale);
        6 * scale
    }

    /// Draws a small letter and gives how far the next stands from its start.
    pub(crate) fn draw_unicode_glyph_compact(
        &mut self,
        x: i128,
        y: i128,
        code: u32,
        color: u8,
        scale: i128,
    ) -> (advance: i128)
        requires
            old(self)@.wf(),
            letters_plane(x as int, y as int),
            0 < scale <= 0x7fff_ffff,
        ensures
            final(self)@.wf(),
            screen::same_frame(old(self)@, final(self)@),
            final(self)@ == compact_drawn(
                old(self)@,
                x as int,
                y as int,
                code,
                color,
                scale as int,
            ),
            advance == compact_advance(code, scale as int),
    {
        reveal(compact_drawn);
        if code < 128 {
            self.draw_ascii_glyph(x, y, code as u8, color, scale);
            return 6 * scale;
        }
        if let Some(glyph) = glyphs::cjk_glyph(code) {
            self.draw_bitmap_glyph8(x, y, glyph, color, scale);
            return 10 * scale;
        }
        self.draw_ascii_glyph(x, y, 63, color, scale);
        6 * scale
    }

    fn draw_letters(&mut self, x: i32, y: i32, text: &str, color: u8, scale: i32, large: bool)
        requires
            old(self)@.wf(),
            scale > 0,
        ensures
            final(self)@.wf(),
            screen::same_frame(old(self)@, final(self)@),
            final(self)@ == letters_drawn(
                old(self)@,
                x as int,
                y as int,
                text@,
                color,
                scale as int,
                large,
                text@.len(),
            ),
    {
        let count: usize = text.unicode_len();
        let mut index: usize = 0;
        let mut cursor: i128 = x as i128;
        while index < count
            invariant
                index <= count,
                count == text@.len(),
                scale > 0,
                self@.wf(),
                screen::same_frame(old(self)@, self@),
                cursor == text_cursor(x as int, text@, scale as int, large, index as nat),
                self@ == letters_drawn(
                    old(self)@,
                    x as int,
                    y as int,
                    text@,
                    color,
                    scale as int,
                    large,
                    index as nat,
                ),
            decreases count - index,
        {
            let ch = text.get_char(index);
            proof {
                lemma_cursor(x as int, text@, scale as int, large, index as nat);
                lemma_advance(ch as u32, scale as int);
            }
            if ch == '\n' {
                cursor = x as i128;
            } else if large {
                let advance: i128 = self.draw_unicode_glyph_large(
                    cursor,
                    y as i128,
                    ch as u32,
                    color,
                    scale as i128,
                );
                cursor = cursor + advance;
            } else {
                let advance: i128 = self.draw_unicode_glyph_compact(
                    cursor,
                    y as i128,
                    ch as u32,
                    color,
                    scale as i128,
                );
                cursor = cursor + advance;
            }
            index += 1;
        }
    }

    /// Draws a text in large letters. A line break starts at the left again, on the same
    /// row.
    pub fn draw_text(&mut self, x: i32, y: i32, text: &str, color: u8, scale: i32)
        requires
            old(self)@.wf(),
        ensures
            final(self)@.wf(),
            screen::same_frame(old(self)@, final(self)@),
            final(self)@ == text_drawn(
                old(self)@,
                x as int,
                y as int,
                text@,
                color,
                scale as int,
            ),
    {
        reveal(text_drawn);
        if !self.graphics_mode_enabled() || scale <= 0 {
            return;
        }
        self.draw_letters(x, y, text, color, scale, true);
    }

    /// Draws a text in small letters.
    pub fn draw_text_compact(&mut self, x: i32, y: i32, text: &str, color: u8, scale: i32)
        requires
            old(self)@.wf(),
        ensures
            final(self)@.wf(),
            screen::same_frame(old(self)@, final(self)@),
            final(self)@ == compact_text_drawn(
                old(self)@,
                x as int,
                y as int,
                text@,
                color,
                scale as int,
            ),
    {
        reveal(compact_text_drawn);
        if !self.graphics_mode_enabled() || scale <= 0 {
            return;
        }
        self.draw_letters(x, y, text, color, scale, false);
    }
}

/// Where the letters of a text stand.
pub open spec fn letters_plane(x: int, y: int) -> bool {
    let limit = 0x20_0000_0000_0000_0000_0000_0000int;
    -limit <= x <= limit && -limit <= y <= limit
}

proof fn lemma_scaled(value: int, scale: int)
    requires
        -0x100 <= value <= 0x100,
        0 < scale <= 0x7fff_ffff,
    ensures
        -0x100_0000_0000 <= value * scale <= 0x100_0000_0000,
{
    assert(-0x100_0000_0000 <= value * scale <= 0x100_0000_0000) by (nonlinear_arith)
        requires
            -0x100 <= value <= 0x100,
            0 < scale <= 0x7fff_ffff,
    ;
}

/// A share of a distance, rounded toward zero.
fn divide(distance: i32, step: i32, steps: i32) -> (share: i128)
    requires
        -32 <= distance <= 32,
        0 <= step <= steps,
        1 <= steps <= 32,
    ensures
        share == quotient(distance * step, steps as int),
        -64 <= share <= 64,
{
    assert(-1024 <= distance * step <= 1024) by (nonlinear_arith)
        requires
            -32 <= distance <= 32,
            0 <= step <= 32,
    ;
    let product: i32 = distance * step;
    proof {
        lemma_share(distance as int, step as int, steps as int);
    }
    if product >= 0 {
        (product as u32 / steps as u32) as i128
    } else {
        -(((-product) as u32 / steps as u32) as i128)
    }
}

proof fn lemma_share(distance: int, step: int, steps: int)
    requires
        -32 <= distance <= 32,
        0 <= step <= steps,
        1 <= steps <= 32,
    ensures
        -64 <= quotient(distance * step, steps) <= 64,
{
    if distance * step >= 0 {
        assert(0 <= (distance * step) / steps <= 64) by (nonlinear_arith)
            requires
                -32 <= distance <= 32,
                0 <= step <= steps,
                1 <= steps <= 32,
                distance * step >= 0,
        ;
    } else {
        assert(0 <= (-(distance * step)) / steps <= 64) by (nonlinear_arith)
            requires
                -32 <= distance <= 32,
                0 <= step <= steps,
                1 <= steps <= 32,
                distance * step < 0,
        ;
    }
}

/// How far the next large letter stands from the start of this one.
fn large_glyph_advance(code: u32, scale: i32) -> (advance: i64)
    requires
        scale > 0,
    ensures
        advance == large_advance(code, scale as int),
{
    if code < 128 {
        6 * scale as i64
    } else if glyphs::cjk_glyph16(code).is_some() {
        16 * scale as i64
    } else if glyphs::has_stroke_glyph(code) {
        14 * scale as i64
    } else if glyphs::cjk_glyph(code).is_some() {
        14 * scale as i64
    } else {
        6 * scale as i64
    }
}

/// How wide a text is in large letters, up to a line break. The width must fit in 32 bits.
pub fn text_width(text: &str, scale: i32) -> (width: i32)
    requires
        text_size(text@, scale as int) <= i32::MAX,
    ensures
        width == text_size(text@, scale as int),
        width >= 0,
{
    reveal(text_size);
    if scale <= 0 {
        return 0;
    }
    let count: usize = text.unicode_len();
    let mut index: usize = 0;
    let mut width: i32 = 0;
    while index < count && text.get_char(index) != '\n'
        invariant
            index <= count,
            count == text@.len(),
            scale > 0,
            width >= 0,
            width + width_of(text@, scale as int, index as int) == width_of(text@, scale as int, 0),
            width_of(text@, scale as int, 0) <= i32::MAX,
        decreases count - index,
    {
        let ch = text.get_char(index);
        proof {
            lemma_width(text@, scale as int, index + 1);
            lemma_advance(ch as u32, scale as int);
        }
        let advance: i64 = large_glyph_advance(ch as u32, scale);
        width = width + advance as i32;
        index += 1;
    }
    width
}

/// A short text fits.
pub proof fn lemma_short_text(text: Seq<char>, scale: int)
    requires
        scale <= 16,
        text.len() <= 4096,
    ensures
        0 <= text_size(text, scale) <= 0x10_0000,
{
    reveal(text_size);
    if scale > 0 {
        lemma_width(text, scale, 0);
        assert((text.len() - 0) * (16 * scale) <= 4096 * 256) by (nonlinear_arith)
            requires
                0 <= text.len() <= 4096,
                0 < scale <= 16,
        ;
    }
}

/// A rectangle changes nothing but pixels.
pub proof fn lemma_rect(screen: ScreenView, x: int, y: int, w: int, h: int, color: u8)
    ensures
        screen.wf() ==> screen::rect(screen, x, y, w, h, color).wf(),
        screen::rect(screen, x, y, w, h, color).console == screen.console,
        screen::rect(screen, x, y, w, h, color).graphics == screen.graphics,
        screen::rect(screen, x, y, w, h, color).palette == screen.palette,
        screen::rect(screen, x, y, w, h, color).width == screen.width,
        screen::rect(screen, x, y, w, h, color).height == screen.height,
{
    screen::lemma_painted(
        screen,
        Shape::Rect { x: x as i128, y: y as i128, w: w as i128, h: h as i128 },
        screen.palette[color as int],
        255,
    );
}

/// A small letter changes nothing but pixels.
pub proof fn lemma_compact(screen: ScreenView, x: int, y: int, code: u32, color: u8, scale: int)
    ensures
        screen.wf() ==> compact_drawn(screen, x, y, code, color, scale).wf(),
        compact_drawn(screen, x, y, code, color, scale).console == screen.console,
        compact_drawn(screen, x, y, code, color, scale).graphics == screen.graphics,
        compact_drawn(screen, x, y, code, color, scale).palette == screen.palette,
        compact_drawn(screen, x, y, code, color, scale).width == screen.width,
        compact_drawn(screen, x, y, code, color, scale).height == screen.height,
{
    reveal(compact_drawn);
    lemma_bitmap(screen, x, y, scale, 5, wide(glyphs::ascii_rows(glyphs::normalized(code as u8))), color);
    lemma_bitmap(screen, x, y, scale, 5, wide(glyphs::ascii_rows(glyphs::normalized(63))), color);
    if let Some(rows) = glyphs::small_rows(code) {
        lemma_bitmap(screen, x, y, scale, 8, wide(rows), color);
    }
}

proof fn lemma_bitmap(
    screen: ScreenView,
    x: int,
    y: int,
    step: int,
    columns: u32,
    rows: Seq<u16>,
    color: u8,
)
    ensures
        screen.wf() ==> bitmap(screen, x, y, step, columns, rows, color).wf(),
        bitmap(screen, x, y, step, columns, rows, color).console == screen.console,
        bitmap(screen, x, y, step, columns, rows, color).graphics == screen.graphics,
        bitmap(screen, x, y, step, columns, rows, color).palette == screen.palette,
        bitmap(screen, x, y, step, columns, rows, color).width == screen.width,
        bitmap(screen, x, y, step, columns, rows, color).height == screen.height,
{
    screen::lemma_painted(
        screen,
        Shape::Cells {
            x: x as i128,
            y: y as i128,
            step: step as i128,
            columns,
            count: rows.len() as usize,
            rows: array_of(rows_of(rows)),
        },
        screen.palette[color as int],
        255,
    );
}

/// No letter is wider than sixteen squares.
pub proof fn lemma_text_size(text: Seq<char>, scale: int)
    requires
        scale > 0,
    ensures
        0 <= text_size(text, scale) <= text.len() * (16 * scale),
{
    reveal(text_size);
    lemma_width(text, scale, 0);
}

} // verus!
