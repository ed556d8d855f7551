//! The bytes of the display: the pixels of the screen as the display wants them, and the
//! pointer over them.
use crate::screen;
use crate::screen::video;
use crate::screen::video::VideoMode;
use crate::screen::{Screen, ScreenView};
use vstd::prelude::*;

verus! {

/// A part of a colour in so many bits.
pub open spec fn scaled(value: int, bits: u8) -> u32 {
    if bits == 0 {
        value as u32
    } else {
        let most = if bits < 24 {
            bits as u32
        } else {
            24u32
        };
        ((value * ((1u32 << most) - 1) + 127) / 255) as u32
    }
}

pub fn scale_channel(value: u8, bits: u8) -> (part: u32)
    ensures
        part == scaled(value as int, bits),
{
    if bits == 0 {
        return value as u32;
    }
    let most: u32 = if bits < 24 {
        bits as u32
    } else {
        24
    };
    assert(1 <= (1u32 << most) <= 0x100_0000) by (bit_vector)
        requires
            most <= 24,
    ;
    let largest: u32 = (1u32 << most) - 1;
    assert(0 <= value * largest <= 255 * 0xff_ffff) by (nonlinear_arith)
        requires
            0 <= value <= 255,
            0 <= largest <= 0xff_ffff,
    ;
    (value as u32 * largest + 127) / 255
}

/// A colour as the display wants it.
pub open spec fn native(mode: VideoMode, rgb: u32) -> u32 {
    (scaled(screen::red_of(rgb), mode.red.size) << (mode.red.shift as u32)) | (scaled(
        screen::green_of(rgb),
        mode.green.size,
    ) << (mode.green.shift as u32)) | (scaled(screen::blue_of(rgb), mode.blue.size) << (
    mode.blue.shift as u32))
}

/// Whether the parts of a colour lie in a pixel.
pub open spec fn channels_fit(mode: VideoMode) -> bool {
    mode.red.shift < 32 && mode.green.shift < 32 && mode.blue.shift < 32
}

pub fn pack_native_pixel(mode: &VideoMode, rgb: u32) -> (pixel: u32)
    requires
        channels_fit(*mode),
    ensures
        pixel == native(*mode, rgb),
{
    let (red, green, blue) = screen::unpack_rgb(rgb);
    let red_part: u32 = scale_channel(red, mode.red.size) << (mode.red.shift as u32);
    let green_part: u32 = scale_channel(green, mode.green.size) << (mode.green.shift as u32);
    let blue_part: u32 = scale_channel(blue, mode.blue.size) << (mode.blue.shift as u32);
    red_part | green_part | blue_part
}

/// How far a colour of the palette lies from another, squared.
pub open spec fn distance(color: u32, rgb: u32) -> int {
    let dr = screen::red_of(color) - screen::red_of(rgb);
    let dg = screen::green_of(color) - screen::green_of(rgb);
    let db = screen::blue_of(color) - screen::blue_of(rgb);
    dr * dr + dg * dg + db * db
}

/// The first of the nearest among the first `count` colours of a palette.
pub open spec fn nearest_of(palette: Seq<u32>, rgb: u32, count: nat) -> int
    decreases count,
{
    if count <= 1 {
        0
    } else {
        let best = nearest_of(palette, rgb, (count - 1) as nat);
        if distance(palette[count - 1], rgb) < distance(palette[best], rgb) {
            count - 1
        } else {
            best
        }
    }
}

/// The nearest colour of a palette is as near as any, and nearer than all before it.
pub proof fn law_nearest_is_nearest(palette: Seq<u32>, rgb: u32, count: nat)
    requires
        1 <= count <= palette.len(),
    ensures
        0 <= nearest_of(palette, rgb, count) < count,
        forall|i: int|
            0 <= i < count ==> distance(palette[nearest_of(palette, rgb, count)], rgb) <= distance(
                #[trigger] palette[i],
                rgb,
            ),
        forall|i: int|
            0 <= i < nearest_of(palette, rgb, count) ==> distance(
                palette[nearest_of(palette, rgb, count)],
                rgb,
            ) < distance(#[trigger] palette[i], rgb),
    decreases count,
{
    if count > 1 {
        law_nearest_is_nearest(palette, rgb, (count - 1) as nat);
    }
}

fn squared(first: u8, second: u8) -> (square: u32)
    ensures
        square == (first - second) * (first - second),
        square <= 65025,
{
    let gap: u32 = if first >= second {
        (first - second) as u32
    } else {
        (second - first) as u32
    };
    assert(gap * gap <= 65025 && gap * gap == (first - second) * (first - second))
        by (nonlinear_arith)
        requires
            0 <= gap <= 255,
            gap == first - second || gap == second - first,
    ;
    gap * gap
}

fn color_distance(color: u32, rgb: u32) -> (apart: u32)
    ensures
        apart == distance(color, rgb),
{
    let (red, green, blue) = screen::unpack_rgb(color);
    let (other_red, other_green, other_blue) = screen::unpack_rgb(rgb);
    squared(red, other_red) + squared(green, other_green) + squared(blue, other_blue)
}

/// The bytes of a pixel of the screen on the display; none where the display has another
/// depth.
pub open spec fn pixel_data(mode: VideoMode, palette: Seq<u32>, rgb: u32) -> Seq<u8> {
    let value = native(mode, rgb);
    if mode.bpp == 8 {
        seq![nearest_of(palette, rgb, 256) as u8]
    } else if mode.bpp == 24 {
        seq![
            (value % 0x100) as u8,
            (value / 0x100 % 0x100) as u8,
            (value / 0x1_0000 % 0x100) as u8,
        ]
    } else if mode.bpp == 32 {
        seq![
            (value % 0x100) as u8,
            (value / 0x100 % 0x100) as u8,
            (value / 0x1_0000 % 0x100) as u8,
            (value / 0x100_0000) as u8,
        ]
    } else {
        Seq::empty()
    }
}

/// The bytes of a colour of the palette on the display.
pub open spec fn color_data(mode: VideoMode, palette: Seq<u32>, color: u8) -> Seq<u8> {
    if mode.bpp == 8 {
        seq![color]
    } else {
        pixel_data(mode, palette, palette[color as int])
    }
}

/// The bytes of the display with those of one pixel put in.
pub open spec fn pixel_put(frame: Seq<u8>, mode: VideoMode, x: int, y: int, data: Seq<u8>) -> Seq<u8> {
    let at = y * mode.pitch + x * video::pixel_bytes(mode.bpp);
    if 0 <= x < mode.width && 0 <= y < mode.height {
        Seq::new(
            frame.len(),
            |i: int|
                if at <= i < at + data.len() {
                    data[i - at]
                } else {
                    frame[i]
                },
        )
    } else {
        frame
    }
}

/// The bytes of the display with those of `count` pixels of a row put in.
pub open spec fn row_put(
    frame: Seq<u8>,
    mode: VideoMode,
    x: int,
    y: int,
    count: nat,
    data: spec_fn(int, int) -> Seq<u8>,
) -> Seq<u8>
    decreases count,
{
    if count == 0 {
        frame
    } else {
        let at = x + count - 1;
        pixel_put(row_put(frame, mode, x, y, (count - 1) as nat, data), mode, at, y, data(at, y))
    }
}

/// The bytes of the display with those of a rectangle of pixels put in.
pub open spec fn area_put(
    frame: Seq<u8>,
    mode: VideoMode,
    x: int,
    y: int,
    columns: nat,
    rows: nat,
    data: spec_fn(int, int) -> Seq<u8>,
) -> Seq<u8>
    decreases rows,
{
    if rows == 0 {
        frame
    } else {
        row_put(
            area_put(frame, mode, x, y, columns, (rows - 1) as nat, data),
            mode,
            x,
            y + rows - 1,
            columns,
            data,
        )
    }
}

/// What the pixels of a screen are on the display.
pub open spec fn screen_data(screen: ScreenView, mode: VideoMode) -> spec_fn(int, int) -> Seq<u8> {
    |x: int, y: int| pixel_data(mode, screen.palette, screen.pixels[y * screen.width + x])
}

/// What one colour is on the display.
pub open spec fn constant_data(screen: ScreenView, mode: VideoMode, color: u8) -> spec_fn(
    int,
    int,
) -> Seq<u8> {
    |x: int, y: int| color_data(mode, screen.palette, color)
}

/// The display with the screen on it.
pub open spec fn presented(frame: Seq<u8>, mode: VideoMode, screen: ScreenView) -> Seq<u8> {
    if !screen.graphics {
        frame
    } else {
        area_put(
            frame,
            mode,
            0,
            0,
            screen.width as nat,
            screen.height as nat,
            screen_data(screen, mode),
        )
    }
}

/// The display with a part of the screen on it.
pub open spec fn part_presented(
    frame: Seq<u8>,
    mode: VideoMode,
    screen: ScreenView,
    x: int,
    y: int,
    w: int,
    h: int,
) -> Seq<u8> {
    let left = screen::nearest(x, 0, screen.width);
    let right = screen::nearest(x + w, 0, screen.width);
    let top = screen::nearest(y, 0, screen.height);
    let bottom = screen::nearest(y + h, 0, screen.height);
    area_put(
        frame,
        mode,
        left,
        top,
        (right - left) as nat,
        (bottom - top) as nat,
        screen_data(screen, mode),
    )
}

/// The display with a rectangle of one colour on it.
pub open spec fn filled(
    frame: Seq<u8>,
    mode: VideoMode,
    screen: ScreenView,
    x: int,
    y: int,
    w: nat,
    h: nat,
    color: u8,
) -> Seq<u8> {
    area_put(frame, mode, x, y, w, h, constant_data(screen, mode, color))
}

/// The display with the pointer on it.
#[verifier::opaque]
pub open spec fn pointer_drawn(
    frame: Seq<u8>,
    mode: VideoMode,
    screen: ScreenView,
    x: int,
    y: int,
    outline: u8,
    fill: u8,
) -> Seq<u8> {
    let f1 = filled(frame, mode, screen, x, y, 1, 14, outline);
    let f2 = filled(f1, mode, screen, x, y, 10, 1, outline);
    let f3 = filled(f2, mode, screen, x + 1, y + 1, 1, 12, fill);
    let f4 = filled(f3, mode, screen, x + 1, y + 1, 8, 1, fill);
    let f5 = filled(f4, mode, screen, x + 2, y + 2, 1, 10, fill);
    let f6 = filled(f5, mode, screen, x + 3, y + 3, 1, 8, fill);
    let f7 = filled(f6, mode, screen, x + 4, y + 4, 1, 6, fill);
    filled(f7, mode, screen, x + 5, y + 5, 1, 4, fill)
}

/// The display with the pointer moved: what lay under it comes from the screen.
#[verifier::opaque]
pub open spec fn pointer_moved(
    frame: Seq<u8>,
    mode: VideoMode,
    screen: ScreenView,
    old_x: int,
    old_y: int,
    new_x: int,
    new_y: int,
    outline: u8,
    fill: u8,
) -> Seq<u8> {
    if !screen.graphics {
        frame
    } else {
        let clean = if old_x >= 0 && old_y >= 0 {
            part_presented(frame, mode, screen, old_x, old_y, 10, 14)
        } else {
            frame
        };
        pointer_drawn(clean, mode, screen, new_x, new_y, outline, fill)
    }
}

/// The display: its mode and its bytes.
pub struct Display {
    pub mode: VideoMode,
    pub frame: Vec<u8>,
}

impl Display {
    /// The display is as large as its mode says, and as the screen.
    pub open spec fn wf(&self, screen: ScreenView) -> bool {
        &&& self.mode.wf()
        &&& channels_fit(self.mode)
        &&& self.frame@.len() == self.mode.pitch * self.mode.height
        &&& self.mode.width == screen.width
        &&& self.mode.height == screen.height
        &&& screen.wf()
    }

    fn put_pixel(&mut self, x: i64, y: i64, data: &[u8])
        requires
            old(self).mode.wf(),
            old(self).frame@.len() == old(self).mode.pitch * old(self).mode.height,
            data@.len() <= video::pixel_bytes(old(self).mode.bpp),
        ensures
            final(self).mode == old(self).mode,
            final(self).frame@.len() == old(self).frame@.len(),
            final(self).frame@ == pixel_put(
                old(self).frame@,
                old(self).mode,
                x as int,
                y as int,
                data@,
            ),
    {
        if x < 0 || y < 0 || x >= self.mode.width as i64 || y >= self.mode.height as i64 {
            return;
        }
        let count: usize = match self.mode.bpp {
            24 => 3,
            32 => 4,
            _ => 1,
        };
        let length: usize = self.frame.len();
        let column: usize = x as usize;
        let row: usize = y as usize;
        let pitch: usize = self.mode.pitch;
        proof {
            lemma_inside(
                row as int,
                column as int,
                pitch as int,
                self.mode.width as int,
                self.mode.height as int,
                count as int,
            );
        }
        let at: usize = row * pitch + column * count;
        let mut index: usize = 0;
        while index < data.len()
            invariant
                index <= data@.len() <= count,
                at + count <= length,
                length == self.frame@.len(),
                self.mode == old(self).mode,
                self.frame@.len() == old(self).frame@.len(),
                forall|i: int|
                    0 <= i < length ==> #[trigger] self.frame@[i] == (if at <= i < at + index {
                        data@[i - at]
                    } else {
                        old(self).frame@[i]
                    }),
            decreases data@.len() - index,
        {
            self.frame.set(at + index, data[index]);
            index += 1;
        }
        assert(self.frame@ =~= pixel_put(old(self).frame@, self.mode, x as int, y as int, data@));
    }

    /// The bytes of a colour.
    fn encode(&self, screen: &Screen, rgb: u32) -> (data: Vec<u8>)
        requires
            self.wf(screen@),
        ensures
            data@ == pixel_data(self.mode, screen@.palette, rgb),
            data@.len() <= video::pixel_bytes(self.mode.bpp),
    {
        if self.mode.bpp == 8 {
            let index: u8 = screen.nearest_palette_index(rgb);
            let data: Vec<u8> = vec![index];
            assert(data@ =~= pixel_data(self.mode, screen@.palette, rgb));
            return data;
        }
        let value: u32 = pack_native_pixel(&self.mode, rgb);
        let data: Vec<u8> = if self.mode.bpp == 24 {
            vec![
                (value % 0x100) as u8,
                (value / 0x100 % 0x100) as u8,
                (value / 0x1_0000 % 0x100) as u8,
            ]
        } else if self.mode.bpp == 32 {
            vec![
                (value % 0x100) as u8,
                (value / 0x100 % 0x100) as u8,
                (value / 0x1_0000 % 0x100) as u8,
                (value / 0x100_0000) as u8,
            ]
        } else {
            Vec::new()
        };
        assert(data@ =~= pixel_data(self.mode, screen@.palette, rgb));
        data
    }

    /// Puts a part of the screen on the display.
    fn put_area(&mut self, screen: &Screen, left: usize, top: usize, columns: usize, rows: usize)
        requires
            old(self).wf(screen@),
            left + columns <= screen@.width,
            top + rows <= screen@.height,
        ensures
            final(self).wf(screen@),
            final(self).mode == old(self).mode,
            final(self).frame@ == area_put(
                old(self).frame@,
                old(self).mode,
                left as int,
                top as int,
                columns as nat,
                rows as nat,
                screen_data(screen@, old(self).mode),
            ),
    {
        let mut row: usize = 0;
        let ghost mode = self.mode;
        let ghost data = screen_data(screen@, mode);
        while row < rows
            invariant
                row <= rows,
                self.wf(screen@),
                self.mode == mode,
                mode == old(self).mode,
                data == screen_data(screen@, mode),
                left + columns <= screen@.width,
                top + rows <= screen@.height,
                self.frame@ == area_put(
                    old(self).frame@,
                    mode,
                    left as int,
                    top as int,
                    columns as nat,
                    row as nat,
                    data,
                ),
            decreases rows - row,
        {
            let ghost before = self.frame@;
            let mut column: usize = 0;
            while column < columns
                invariant
                    column <= columns,
                    row < rows,
                    self.wf(screen@),
                    self.mode == mode,
                    data == screen_data(screen@, mode),
                    left + columns <= screen@.width,
                    top + rows <= screen@.height,
                    self.frame@ == row_put(
                        before,
                        mode,
                        left as int,
                        top + row,
                        column as nat,
                        data,
                    ),
                decreases columns - column,
            {
                let rgb: u32 = screen.pixel(left + column, top + row);
                let bytes = self.encode(screen, rgb);
                assert(bytes@ == data(left + column, top + row));
                self.put_pixel((left + column) as i64, (top + row) as i64, bytes.as_slice());
                column += 1;
            }
            row += 1;
        }
    }

    /// Puts the screen on the display.
    pub fn gfx_present(&mut self, screen: &Screen)
        requires
            old(self).wf(screen@),
        ensures
            final(self).wf(screen@),
            final(self).mode == old(self).mode,
            final(self).frame@ == presented(old(self).frame@, old(self).mode, screen@),
    {
        if !screen.graphics_mode_enabled() {
            return;
        }
        self.put_area(screen, 0, 0, screen.screen_width() as usize, screen.screen_height() as usize);
    }

    fn gfx_present_rect(&mut self, screen: &Screen, x: i32, y: i32, width: i32, height: i32)
        requires
            old(self).wf(screen@),
            0 <= width,
            0 <= height,
        ensures
            final(self).wf(screen@),
            final(self).mode == old(self).mode,
            final(self).frame@ == part_presented(
                old(self).frame@,
                old(self).mode,
                screen@,
                x as int,
                y as int,
                width as int,
                height as int,
            ),
    {
        let left: usize = clamp(x as i64, screen.screen_width());
        let right: usize = clamp(x as i64 + width as i64, screen.screen_width());
        let top: usize = clamp(y as i64, screen.screen_height());
        let bottom: usize = clamp(y as i64 + height as i64, screen.screen_height());
        self.put_area(screen, left, top, right - left, bottom - top);
    }

    fn framebuffer_fill_palette(
        &mut self,
        screen: &Screen,
        x: i64,
        y: i64,
        width: u32,
        height: u32,
        color: u8,
    )
        requires
            old(self).wf(screen@),
            -0x1_0000_0000 <= x <= 0x1_0000_0000,
            -0x1_0000_0000 <= y <= 0x1_0000_0000,
        ensures
            final(self).wf(screen@),
            final(self).mode == old(self).mode,
            final(self).frame@ == filled(
                old(self).frame@,
                old(self).mode,
                screen@,
                x as int,
                y as int,
                width as nat,
                height as nat,
                color,
            ),
    {
        let ghost mode = self.mode;
        let ghost data = constant_data(screen@, mode, color);
        let bytes: Vec<u8> = if self.mode.bpp == 8 {
            let one: Vec<u8> = vec![color];
            assert(one@ =~= seq![color]);
            one
        } else {
            self.encode(screen, screen.palette_color_u32(color))
        };
        let mut row: u32 = 0;
        while row < height
            invariant
                row <= height,
                self.wf(screen@),
                self.mode == mode,
                mode == old(self).mode,
                data == constant_data(screen@, mode, color),
                bytes@ == color_data(mode, screen@.palette, color),
                bytes@.len() <= video::pixel_bytes(mode.bpp),
                -0x1_0000_0000 <= x <= 0x1_0000_0000,
                -0x1_0000_0000 <= y <= 0x1_0000_0000,
                self.frame@ == area_put(
                    old(self).frame@,
                    mode,
                    x as int,
                    y as int,
                    width as nat,
                    row as nat,
                    data,
                ),
            decreases height - row,
        {
            let ghost before = self.frame@;
            let mut column: u32 = 0;
            while column < width
                invariant
                    column <= width,
                    row < height,
                    self.wf(screen@),
                    self.mode == mode,
                    data == constant_data(screen@, mode, color),
                    bytes@ == color_data(mode, screen@.palette, color),
                    bytes@.len() <= video::pixel_bytes(mode.bpp),
                    -0x1_0000_0000 <= x <= 0x1_0000_0000,
                    -0x1_0000_0000 <= y <= 0x1_0000_0000,
                    self.frame@ == row_put(before, mode, x as int, y + row, column as nat, data),
                decreases width - column,
            {
                assert(bytes@ == data(x + column, y + row));
                self.put_pixel(x + column as i64, y + row as i64, bytes.as_slice());
                column += 1;
            }
            row += 1;
        }
    }

    /// Moves the pointer; an old place left of or above the screen means that there was
    /// none.
    pub fn gfx_move_cursor(
        &mut self,
        screen: &Screen,
        old_x: i32,
        old_y: i32,
        new_x: i32,
        new_y: i32,
        outline: u8,
        fill: u8,
    )
        requires
            old(self).wf(screen@),
        ensures
            final(self).wf(screen@),
            final(self).mode == old(self).mode,
            final(self).frame@ == pointer_moved(
                old(self).frame@,
                old(self).mode,
                screen@,
                old_x as int,
                old_y as int,
                new_x as int,
                new_y as int,
                outline,
                fill,
            ),
    {
        reveal(pointer_moved);
        reveal(pointer_drawn);
        if !screen.graphics_mode_enabled() {
            return;
        }
        if old_x >= 0 && old_y >= 0 {
            self.gfx_present_rect(screen, old_x, old_y, 10, 14);
        }
        let x: i64 = new_x as i64;
        let y: i64 = new_y as i64;
        self.framebuffer_fill_palette(screen, x, y, 1, 14, outline);
        self.framebuffer_fill_palette(screen, x, y, 10, 1, outline);
        self.framebuffer_fill_palette(screen, x + 1, y + 1, 1, 12, fill);
        self.framebuffer_fill_palette(screen, x + 1, y + 1, 8, 1, fill);
        self.framebuffer_fill_palette(screen, x + 2, y + 2, 1, 10, fill);
        self.framebuffer_fill_palette(screen, x + 3, y + 3, 1, 8, fill);
        self.framebuffer_fill_palette(screen, x + 4, y + 4, 1, 6, fill);
        self.framebuffer_fill_palette(screen, x + 5, y + 5, 1, 4, fill);
    }
}

fn clamp(value: i64, limit: i32) -> (clamped: usize)
    requires
        limit >= 0,
    ensures
        clamped == screen::nearest(value as int, 0, limit as int),
{
    if value < 0 {
        0
    } else if value > limit as i64 {
        limit as usize
    } else {
        value as usize
    }
}

proof fn lemma_inside(row: int, column: int, pitch: int, width: int, height: int, count: int)
    requires
        0 <= row < height,
        height <= 480,
        0 <= column < width,
        width <= 640,
        1 <= count <= 4,
        width * count <= pitch,
        pitch <= 0xffff_ffff,
    ensures
        0 <= row * pitch,
        row * pitch <= pitch * height,
        0 <= column * count <= 2560,
        row * pitch + column * count + count <= pitch * height,
{
    assert(0 <= row * pitch && row * pitch + pitch <= pitch * height) by (nonlinear_arith)
        requires
            0 <= row < height,
            0 <= pitch,
    ;
    assert(column * count + count <= width * count && 0 <= column * count && width * count <= 2560)
        by (nonlinear_arith)
        requires
            0 <= column < width,
            width <= 640,
            1 <= count <= 4,
    ;
}

impl Screen {
    /// The first of the nearest colours of the palette.
    pub fn nearest_palette_index(&self, rgb: u32) -> (index: u8)
        requires
            self@.wf(),
        ensures
            index == nearest_of(self@.palette, rgb, 256),
    {
        let mut best: usize = 0;
        let mut best_distance: u32 = color_distance(self.palette_color_u32(0), rgb);
        let mut index: usize = 1;
        while index < 256
            invariant
                1 <= index <= 256,
                best < 256,
                self@.wf(),
                best == nearest_of(self@.palette, rgb, index as nat),
                best_distance == distance(self@.palette[best as int], rgb),
            decreases 256 - index,
        {
            let apart: u32 = color_distance(self.palette_color_u32(index as u8), rgb);
            if apart < best_distance {
                best_distance = apart;
                best = index;
            }
            index += 1;
        }
        best as u8
    }
}

} // verus!
