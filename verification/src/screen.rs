//! The screen: a buffer of pixels with a palette, shapes and letters drawn to it, and the
//! console that shows its lines there.
use vstd::prelude::*;

pub mod console;
pub mod glyphs;
pub mod letters;
pub mod output;
pub mod video;

verus! {

pub const MAX_FB_WIDTH: usize = 640;

pub const MAX_FB_HEIGHT: usize = 480;

/// A region of the plane.
#[derive(Clone, Copy, Debug, PartialEq, Eq)]
pub enum Shape {
    /// A rectangle by its upper left corner and its size.
    Rect { x: i128, y: i128, w: i128, h: i128 },
    /// A disk by its centre and its radius.
    Disk { x: i128, y: i128, radius: i128 },
    /// A rectangle with round corners.
    Round { x: i128, y: i128, w: i128, h: i128, radius: i128 },
    /// The set bits of a bitmap, the upper left at a place, each as a square.
    Cells { x: i128, y: i128, step: i128, columns: u32, count: usize, rows: [u16; 16] },
}

/// The coordinate that lies nearest to another in a range.
pub open spec fn nearest(value: int, low: int, high: int) -> int {
    if value < low {
        low
    } else if value > high {
        high
    } else {
        value
    }
}

/// The radius that the corners of a rectangle can have.
pub open spec fn corner_radius(w: int, h: int, radius: int) -> int {
    let first = if radius < w / 2 {
        radius
    } else {
        w / 2
    };
    let second = if first < h / 2 {
        first
    } else {
        h / 2
    };
    if second < 0 {
        0
    } else {
        second
    }
}

/// Whether a rectangle with round corners holds one of its points.
pub open spec fn round_holds(x: int, y: int, w: int, h: int, radius: int, px: int, py: int) -> bool {
    let r = corner_radius(w, h, radius);
    let left = x + r;
    let right = x + w - r - 1;
    let top = y + r;
    let bottom = y + h - r - 1;
    let near_x = if left <= right {
        nearest(px, left, right)
    } else {
        x + w / 2
    };
    let near_y = if top <= bottom {
        nearest(py, top, bottom)
    } else {
        y + h / 2
    };
    ||| left <= px <= right
    ||| top <= py <= bottom
    ||| (px - near_x) * (px - near_x) + (py - near_y) * (py - near_y) <= r * r
}

impl Shape {
    /// The coordinates are small enough to be computed with.
    pub open spec fn wf(self) -> bool {
        let limit = 0x100_0000_0000_0000_0000_0000_0000int;
        match self {
            Shape::Rect { x, y, w, h } => -limit <= x <= limit && -limit <= y <= limit && -limit
                <= w <= limit && -limit <= h <= limit,
            Shape::Disk { x, y, radius } => -0x8000_0000 <= x <= 0x7fff_ffff && -0x8000_0000 <= y
                <= 0x7fff_ffff && -0x8000_0000 <= radius <= 0x7fff_ffff,
            Shape::Round { x, y, w, h, radius } => -0x8000_0000 <= x <= 0x7fff_ffff && -0x8000_0000
                <= y <= 0x7fff_ffff && -0x8000_0000 <= w <= 0x7fff_ffff && -0x8000_0000 <= h
                <= 0x7fff_ffff && -0x8000_0000 <= radius <= 0x7fff_ffff,
            Shape::Cells { x, y, step, columns, count, rows } => -limit <= x <= limit && -limit <= y
                <= limit && 0 < step <= 0xffff_ffff && columns <= 16 && count <= 16,
        }
    }

    /// Whether the shape covers a point.
    pub open spec fn covers(self, px: int, py: int) -> bool {
        match self {
            Shape::Rect { x, y, w, h } => x <= px < x + w && y <= py < y + h,
            Shape::Disk { x, y, radius } => radius > 0 && (px - x) * (px - x) + (py - y) * (py - y)
                <= radius * radius,
            Shape::Round { x, y, w, h, radius } => x <= px < x + w && y <= py < y + h
                && round_holds(x as int, y as int, w as int, h as int, radius as int, px, py),
            Shape::Cells { x, y, step, columns, count, rows } => {
                let column = (px - x) / step as int;
                let row = (py - y) / step as int;
                &&& px >= x
                &&& py >= y
                &&& column < columns
                &&& row < count
                &&& (rows@[row] >> ((columns - 1 - column) as u16)) & 1u16 == 1u16
            },
        }
    }

    /// Whether the shape covers a point of a screen.
    fn is_covering(&self, px: usize, py: usize) -> (covering: bool)
        requires
            self.wf(),
            px < 0x1_0000,
            py < 0x1_0000,
        ensures
            covering == self.covers(px as int, py as int),
    {
        let px: i128 = px as i128;
        let py: i128 = py as i128;
        match *self {
            Shape::Rect { x, y, w, h } => px >= x && py >= y && px - x < w && py - y < h,
            Shape::Disk { x, y, radius } => {
                let dx: i128 = px - x;
                let dy: i128 = py - y;
                assert(0 <= dx * dx <= 0x1_0000_ffff * 0x1_0000_ffff && 0 <= dy * dy <= 0x1_0000_ffff
                    * 0x1_0000_ffff && 0 <= radius * radius <= 0x1_0000_ffff * 0x1_0000_ffff)
                    by (nonlinear_arith)
                    requires
                        -0x1_0000_ffff <= dx <= 0x1_0000_ffff,
                        -0x1_0000_ffff <= dy <= 0x1_0000_ffff,
                        -0x1_0000_ffff <= radius <= 0x1_0000_ffff,
                ;
                radius > 0 && dx * dx + dy * dy <= radius * radius
            },
            Shape::Round { x, y, w, h, radius } => {
                px >= x && py >= y && px - x < w && py - y < h && round_covers(
                    x,
                    y,
                    w,
                    h,
                    radius,
                    px,
                    py,
                )
            },
            Shape::Cells { x, y, step, columns, count, rows } => {
                if px < x || py < y {
                    return false;
                }
                let column: u128 = (px - x) as u128 / step as u128;
                let row: u128 = (py - y) as u128 / step as u128;
                if column >= columns as u128 || row >= count as u128 {
                    return false;
                }
                let shift: u16 = (columns - 1 - column as u32) as u16;
                (rows[row as usize] >> shift) & 1u16 == 1u16
            },
        }
    }

    /// A part of the screen that holds what the shape covers of it: the first and the end
    /// of its columns, and of its rows.
    fn bounds(&self, width: usize, height: usize) -> (bounds: (usize, usize, usize, usize))
        requires
            self.wf(),
            width < 0x1_0000,
            height < 0x1_0000,
        ensures
            bounds.0 <= bounds.1 <= width,
            bounds.2 <= bounds.3 <= height,
            forall|px: int, py: int|
                0 <= px < width && 0 <= py < height && #[trigger] self.covers(px, py) ==> bounds.0
                    <= px < bounds.1 && bounds.2 <= py < bounds.3,
    {
        let (x0, x1, y0, y1) = match *self {
            Shape::Rect { x, y, w, h } => (x, x + w, y, y + h),
            Shape::Disk { x, y, radius } => {
                proof {
                    assert forall|px: int, py: int| #[trigger] self.covers(px, py) implies x - radius
                        <= px <= x + radius && y - radius <= py <= y + radius by {
                        lemma_disk(px - x, py - y, radius as int);
                    }
                }
                (x - radius, x + radius + 1, y - radius, y + radius + 1)
            },
            Shape::Round { x, y, w, h, radius } => (x, x + w, y, y + h),
            Shape::Cells { x, y, step, columns, count, rows } => {
                assert(columns * step <= 16 * 0xffff_ffff && count * step <= 16 * 0xffff_ffff)
                    by (nonlinear_arith)
                    requires
                        columns <= 16,
                        count <= 16,
                        0 < step <= 0xffff_ffff,
                ;
                assert(columns * step >= 0 && count * step >= 0) by (nonlinear_arith)
                    requires
                        columns >= 0,
                        count >= 0,
                        step > 0,
                ;
                proof {
                    assert forall|px: int, py: int| #[trigger] self.covers(px, py) implies px < x
                        + columns * step && py < y + count * step by {
                        lemma_below(px - x, step as int, columns as int);
                        lemma_below(py - y, step as int, count as int);
                    }
                }
                (x, x + columns as i128 * step, y, y + count as i128 * step)
            },
        };
        let left: usize = clamp_to(x0, width);
        let right: usize = clamp_to(x1, width);
        let top: usize = clamp_to(y0, height);
        let bottom: usize = clamp_to(y1, height);
        let right: usize = if right < left { left } else { right };
        let bottom: usize = if bottom < top { top } else { bottom };
        (left, right, top, bottom)
    }
}

proof fn lemma_disk(dx: int, dy: int, radius: int)
    requires
        radius > 0,
        dx * dx + dy * dy <= radius * radius,
    ensures
        -radius <= dx <= radius,
        -radius <= dy <= radius,
{
    assert(-radius <= dx <= radius && -radius <= dy <= radius) by (nonlinear_arith)
        requires
            radius > 0,
            dx * dx + dy * dy <= radius * radius,
    ;
}

proof fn lemma_below(value: int, step: int, count: int)
    requires
        step > 0,
        value >= 0,
        value / step < count,
    ensures
        value < count * step,
{
    assert(value < count * step) by (nonlinear_arith)
        requires
            step > 0,
            value >= 0,
            value / step < count,
    ;
}

/// A coordinate in the range from zero to a limit.
fn clamp_to(value: i128, limit: usize) -> (clamped: usize)
    ensures
        clamped == nearest(value as int, 0, limit as int),
{
    if value < 0 {
        0
    } else if value > limit as i128 {
        limit
    } else {
        value as usize
    }
}

/// Whether a rectangle with round corners holds one of its points.
fn round_covers(x: i128, y: i128, w: i128, h: i128, radius: i128, px: i128, py: i128) -> (holds:
    bool)
    requires
        -0x8000_0000 <= x <= 0x7fff_ffff,
        -0x8000_0000 <= y <= 0x7fff_ffff,
        0 < w <= 0x7fff_ffff,
        0 < h <= 0x7fff_ffff,
        -0x8000_0000 <= radius <= 0x7fff_ffff,
        0 <= px < 0x1_0000,
        0 <= py < 0x1_0000,
    ensures
        holds == round_holds(
            x as int,
            y as int,
            w as int,
            h as int,
            radius as int,
            px as int,
            py as int,
        ),
{
    let half_w: i128 = (w as u128 / 2) as i128;
    let half_h: i128 = (h as u128 / 2) as i128;
    let first: i128 = if radius < half_w {
        radius
    } else {
        half_w
    };
    let second: i128 = if first < half_h {
        first
    } else {
        half_h
    };
    let r: i128 = if second < 0 {
        0
    } else {
        second
    };
    let left: i128 = x + r;
    let right: i128 = x + w - r - 1;
    let top: i128 = y + r;
    let bottom: i128 = y + h - r - 1;
    if px >= left && px <= right {
        return true;
    }
    if py >= top && py <= bottom {
        return true;
    }
    let near_x: i128 = if left <= right {
        if px < left {
            left
        } else {
            right
        }
    } else {
        x + half_w
    };
    let near_y: i128 = if top <= bottom {
        if py < top {
            top
        } else {
            bottom
        }
    } else {
        y + half_h
    };
    let dx: i128 = px - near_x;
    let dy: i128 = py - near_y;
    assert(0 <= dx * dx <= 0x4_0000_0000 * 0x4_0000_0000 && 0 <= dy * dy <= 0x4_0000_0000
        * 0x4_0000_0000 && 0 <= r * r <= 0x4_0000_0000 * 0x4_0000_0000) by (nonlinear_arith)
        requires
            -0x4_0000_0000 <= dx <= 0x4_0000_0000,
            -0x4_0000_0000 <= dy <= 0x4_0000_0000,
            0 <= r <= 0x4_0000_0000,
    ;
    dx * dx + dy * dy <= r * r
}

/// The three parts of a colour in one number: red, green, blue.
pub open spec fn packed(red: int, green: int, blue: int) -> u32 {
    (red * 0x1_0000 + green * 0x100 + blue) as u32
}

pub open spec fn red_of(value: u32) -> int {
    value as int / 0x1_0000 % 0x100
}

pub open spec fn green_of(value: u32) -> int {
    value as int / 0x100 % 0x100
}

pub open spec fn blue_of(value: u32) -> int {
    value as int % 0x100
}

pub fn pack_rgb(red: u8, green: u8, blue: u8) -> (value: u32)
    ensures
        value == packed(red as int, green as int, blue as int),
{
    red as u32 * 0x1_0000 + green as u32 * 0x100 + blue as u32
}

pub fn unpack_rgb(value: u32) -> (parts: (u8, u8, u8))
    ensures
        parts.0 == red_of(value),
        parts.1 == green_of(value),
        parts.2 == blue_of(value),
{
    (
        (value / 0x1_0000 % 0x100) as u8,
        (value / 0x100 % 0x100) as u8,
        (value % 0x100) as u8,
    )
}

/// One part of a colour over another, as opaque as `alpha` of 255 says.
pub open spec fn mixed_part(under: int, over: int, alpha: int) -> int {
    (under * (255 - alpha) + over * alpha + 127) / 255
}

pub fn blend_component(under: u8, over: u8, alpha: u8) -> (mixed: u8)
    ensures
        mixed == mixed_part(under as int, over as int, alpha as int),
{
    let under: u32 = under as u32;
    let over: u32 = over as u32;
    let alpha: u32 = alpha as u32;
    assert(under * (255 - alpha) + over * alpha <= 255 * 255 && under * (255 - alpha) >= 0 && over
        * alpha >= 0 && under * (255 - alpha) <= 255 * 255 && over * alpha <= 255 * 255)
        by (nonlinear_arith)
        requires
            under <= 255,
            over <= 255,
            alpha <= 255,
    ;
    ((under * (255 - alpha) + over * alpha + 127) / 255) as u8
}

/// A colour over another.
pub open spec fn mixed(under: u32, over: u32, alpha: u8) -> u32 {
    if alpha == 255 {
        over
    } else {
        packed(
            mixed_part(red_of(under), red_of(over), alpha as int),
            mixed_part(green_of(under), green_of(over), alpha as int),
            mixed_part(blue_of(under), blue_of(over), alpha as int),
        )
    }
}

fn mix(under: u32, over: u32, alpha: u8) -> (result: u32)
    ensures
        result == mixed(under, over, alpha),
{
    if alpha == 255 {
        return over;
    }
    let (under_red, under_green, under_blue) = unpack_rgb(under);
    let (over_red, over_green, over_blue) = unpack_rgb(over);
    pack_rgb(
        blend_component(under_red, over_red, alpha),
        blend_component(under_green, over_green, alpha),
        blend_component(under_blue, over_blue, alpha),
    )
}

/// The part of a colour that six bits say, in eight bits.
pub open spec fn widened(value: u8) -> int {
    value as int % 64 * 255 / 63
}

pub fn expand_6bit(value: u8) -> (wide: u8)
    ensures
        wide == widened(value),
{
    (value as u32 % 64 * 255 / 63) as u8
}

/// The console on the screen: where it writes next, where it lies, and what its cells hold.
#[verifier::ext_equal]
pub struct ConsoleView {
    pub row: int,
    pub column: int,
    pub x: int,
    pub y: int,
    pub visible: bool,
    pub cells: Seq<u16>,
}

/// A screen.
#[verifier::ext_equal]
pub struct ScreenView {
    pub graphics: bool,
    pub width: int,
    pub height: int,
    pub pixels: Seq<u32>,
    pub palette: Seq<u32>,
    pub console: ConsoleView,
}

/// A screen with a shape drawn on it.
#[verifier::opaque]
pub open spec fn painted(screen: ScreenView, shape: Shape, color: u32, alpha: u8) -> ScreenView {
    if !screen.graphics {
        screen
    } else {
        ScreenView {
            pixels: Seq::new(
                screen.pixels.len(),
                |i: int|
                    if shape.covers(i % screen.width, i / screen.width) {
                        mixed(screen.pixels[i], color, alpha)
                    } else {
                        screen.pixels[i]
                    },
            ),
            ..screen
        }
    }
}

/// A rectangle in a colour of the palette.
pub open spec fn rect(screen: ScreenView, x: int, y: int, w: int, h: int, color: u8) -> ScreenView {
    rect_alpha(screen, x, y, w, h, color, 255)
}

/// A rectangle that lets some of what lies under it through.
pub open spec fn rect_alpha(
    screen: ScreenView,
    x: int,
    y: int,
    w: int,
    h: int,
    color: u8,
    alpha: u8,
) -> ScreenView {
    if alpha == 0 {
        screen
    } else {
        painted(
            screen,
            Shape::Rect { x: x as i128, y: y as i128, w: w as i128, h: h as i128 },
            screen.palette[color as int],
            alpha,
        )
    }
}

/// A disk.
pub open spec fn disk(screen: ScreenView, x: int, y: int, radius: int, color: u8) -> ScreenView {
    disk_alpha(screen, x, y, radius, color, 255)
}

/// A disk that lets some of what lies under it through.
pub open spec fn disk_alpha(
    screen: ScreenView,
    x: int,
    y: int,
    radius: int,
    color: u8,
    alpha: u8,
) -> ScreenView {
    if alpha == 0 {
        screen
    } else {
        painted(
            screen,
            Shape::Disk { x: x as i128, y: y as i128, radius: radius as i128 },
            screen.palette[color as int],
            alpha,
        )
    }
}

/// A rectangle with round corners.
pub open spec fn round(
    screen: ScreenView,
    x: int,
    y: int,
    w: int,
    h: int,
    radius: int,
    color: u8,
) -> ScreenView {
    round_alpha(screen, x, y, w, h, radius, color, 255)
}

/// A rectangle with round corners that lets some of what lies under it through.
pub open spec fn round_alpha(
    screen: ScreenView,
    x: int,
    y: int,
    w: int,
    h: int,
    radius: int,
    color: u8,
    alpha: u8,
) -> ScreenView {
    if alpha == 0 {
        screen
    } else {
        painted(
            screen,
            Shape::Round {
                x: x as i128,
                y: y as i128,
                w: w as i128,
                h: h as i128,
                radius: radius as i128,
            },
            screen.palette[color as int],
            alpha,
        )
    }
}

/// Whether two screens are of one size, both with graphics or both without.
pub open spec fn same_frame(first: ScreenView, second: ScreenView) -> bool {
    first.graphics == second.graphics && first.width == second.width && first.height
        == second.height
}

/// A screen: its pixels, its palette and its console.
pub struct Screen {
    graphics: bool,
    width: usize,
    height: usize,
    pixels: Vec<u32>,
    palette: Vec<u32>,
    console_row: usize,
    console_column: usize,
    console_x: i32,
    console_y: i32,
    console_visible: bool,
    cells: Vec<u16>,
}

impl View for Screen {
    type V = ScreenView;

    closed spec fn view(&self) -> ScreenView {
        ScreenView {
            graphics: self.graphics,
            width: self.width as int,
            height: self.height as int,
            pixels: self.pixels@,
            palette: self.palette@,
            console: ConsoleView {
                row: self.console_row as int,
                column: self.console_column as int,
                x: self.console_x as int,
                y: self.console_y as int,
                visible: self.console_visible,
                cells: self.cells@,
            },
        }
    }
}

impl ScreenView {
    /// The parts of the screen fit together.
    pub open spec fn wf(self) -> bool {
        &&& 1 <= self.width <= 640
        &&& 1 <= self.height <= 480
        &&& self.pixels.len() == self.width * self.height
        &&& self.palette.len() == 256
        &&& self.console.cells.len() == 760
        &&& 0 <= self.console.row < 19
        &&& 0 <= self.console.column <= 40
        &&& -0x8000_0000 <= self.console.x <= 0x7fff_ffff
        &&& -0x8000_0000 <= self.console.y <= 0x7fff_ffff
    }
}

/// Row and column of a pixel.
proof fn lemma_pixel(i: int, y: int, width: int)
    requires
        width > 0,
        y >= 0,
        y * width <= i < y * width + width,
    ensures
        i / width == y,
        i % width == i - y * width,
{
    vstd::arithmetic::div_mod::lemma_fundamental_div_mod_converse(i, width, y, i - y * width);
}

/// Drawing a shape keeps the parts of the screen fitting together.
pub proof fn lemma_painted(screen: ScreenView, shape: Shape, color: u32, alpha: u8)
    ensures
        screen.wf() ==> painted(screen, shape, color, alpha).wf(),
        painted(screen, shape, color, alpha).graphics == screen.graphics,
        painted(screen, shape, color, alpha).width == screen.width,
        painted(screen, shape, color, alpha).height == screen.height,
        painted(screen, shape, color, alpha).palette == screen.palette,
        painted(screen, shape, color, alpha).console == screen.console,
        painted(screen, shape, color, alpha).pixels.len() == screen.pixels.len(),
{
    reveal(painted);
}

impl Screen {
    /// A black screen of a size, with a black palette and an empty console.
    pub fn new(graphics: bool, width: usize, height: usize) -> (screen: Self)
        requires
            1 <= width <= 640,
            1 <= height <= 480,
        ensures
            screen@.wf(),
            screen@ == (ScreenView {
                graphics,
                width: width as int,
                height: height as int,
                pixels: Seq::new((width * height) as nat, |i: int| 0u32),
                palette: Seq::new(256, |i: int| 0u32),
                console: ConsoleView {
                    row: 0,
                    column: 0,
                    x: 66,
                    y: 112,
                    visible: true,
                    cells: Seq::new(760, |i: int| 0u16),
                },
            }),
    {
        assert(0 <= width * height <= 640 * 480) by (nonlinear_arith)
            requires
                1 <= width <= 640,
                1 <= height <= 480,
        ;
        let size: usize = width * height;
        let mut pixels: Vec<u32> = Vec::new();
        let mut index: usize = 0;
        while index < size
            invariant
                index <= size,
                pixels@ == Seq::new(index as nat, |i: int| 0u32),
            decreases size - index,
        {
            pixels.push(0);
            index += 1;
            assert(pixels@ =~= Seq::new(index as nat, |i: int| 0u32));
        }
        let mut palette: Vec<u32> = Vec::new();
        let mut entry: usize = 0;
        while entry < 256
            invariant
                entry <= 256,
                palette@ == Seq::new(entry as nat, |i: int| 0u32),
            decreases 256 - entry,
        {
            palette.push(0);
            entry += 1;
            assert(palette@ =~= Seq::new(entry as nat, |i: int| 0u32));
        }
        let mut cells: Vec<u16> = Vec::new();
        let mut cell: usize = 0;
        while cell < 760
            invariant
                cell <= 760,
                cells@ == Seq::new(cell as nat, |i: int| 0u16),
            decreases 760 - cell,
        {
            cells.push(0);
            cell += 1;
            assert(cells@ =~= Seq::new(cell as nat, |i: int| 0u16));
        }
        Screen {
            graphics,
            width,
            height,
            pixels,
            palette,
            console_row: 0,
            console_column: 0,
            console_x: 66,
            console_y: 112,
            console_visible: true,
            cells,
        }
    }

    pub fn graphics_mode_enabled(&self) -> (enabled: bool)
        ensures
            enabled == self@.graphics,
    {
        self.graphics
    }

    pub fn screen_width(&self) -> (width: i32)
        requires
            self@.wf(),
        ensures
            width == self@.width,
    {
        self.width as i32
    }

    pub fn screen_height(&self) -> (height: i32)
        requires
            self@.wf(),
        ensures
            height == self@.height,
    {
        self.height as i32
    }

    /// The colour of a pixel.
    pub fn pixel(&self, x: usize, y: usize) -> (color: u32)
        requires
            self@.wf(),
            x < self@.width,
            y < self@.height,
        ensures
            color == self@.pixels[y * self@.width + x],
    {
        assert(0 <= y * self.width + x < self.width * self.height && 0 <= y * self.width <= 640
            * 480) by (nonlinear_arith)
            requires
                0 <= x < self.width,
                0 <= y < self.height,
                self.width <= 640,
                self.height <= 480,
        ;
        self.pixels[y * self.width + x]
    }

    /// Draws the part of a row of a shape that lies between two columns.
    fn paint_row(
        &mut self,
        shape: &Shape,
        color: u32,
        alpha: u8,
        y: usize,
        left: usize,
        right: usize,
    )
        requires
            old(self)@.wf(),
            shape.wf(),
            y < old(self)@.height,
            left <= right <= old(self)@.width,
            forall|px: int|
                0 <= px < old(self)@.width && #[trigger] shape.covers(px, y as int) ==> left <= px
                    < right,
        ensures
            final(self)@ == (ScreenView { pixels: final(self)@.pixels, ..old(self)@ }),
            final(self)@.pixels.len() == old(self)@.pixels.len(),
            forall|i: int|
                0 <= i < old(self)@.pixels.len() ==> #[trigger] final(self)@.pixels[i] == (if y
                    * old(self)@.width <= i < y * old(self)@.width + old(self)@.width
                    && shape.covers(i - y * old(self)@.width, y as int) {
                    mixed(old(self)@.pixels[i], color, alpha)
                } else {
                    old(self)@.pixels[i]
                }),
    {
        let width: usize = self.width;
        let height: usize = self.height;
        assert(0 <= y * width && y * width + width <= width * height && y * width <= 640 * 480)
            by (nonlinear_arith)
            requires
                0 <= y < height,
                0 < width <= 640,
                height <= 480,
        ;
        let base: usize = y * width;
        let mut x: usize = left;
        while x < right
            invariant
                left <= x <= right <= width,
                shape.wf(),
                y < height <= 480,
                0 < width <= 640,
                base == y * width,
                base <= 640 * 480,
                base + width <= width * height,
                self.pixels@.len() == width * height,
                old(self).pixels@.len() == width * height,
                self@ == (ScreenView { pixels: self.pixels@, ..old(self)@ }),
                forall|i: int|
                    0 <= i < width * height ==> #[trigger] self.pixels@[i] == (if base + left <= i
                        < base + x && shape.covers(i - base, y as int) {
                        mixed(old(self).pixels@[i], color, alpha)
                    } else {
                        old(self).pixels@[i]
                    }),
            decreases right - x,
        {
            if shape.is_covering(x, y) {
                let at: usize = base + x;
                let value: u32 = mix(self.pixels[at], color, alpha);
                self.pixels.set(at, value);
            }
            x += 1;
        }
        proof {
            assert forall|i: int| 0 <= i < old(self)@.pixels.len() implies #[trigger] self@.pixels[i]
                == (if y * old(self)@.width <= i < y * old(self)@.width + old(self)@.width
                && shape.covers(i - y * old(self)@.width, y as int) {
                mixed(old(self)@.pixels[i], color, alpha)
            } else {
                old(self)@.pixels[i]
            }) by {
                assert(self.pixels@[i] == self@.pixels[i]);
                if base <= i < base + width {
                    assert(shape.covers(i - base, y as int) ==> left <= i - base < right);
                }
            }
        }
    }

    /// Draws a shape.
    pub(crate) fn paint(&mut self, shape: Shape, color: u32, alpha: u8)
        requires
            old(self)@.wf(),
            shape.wf(),
        ensures
            final(self)@.wf(),
            same_frame(old(self)@, final(self)@),
            final(self)@ == painted(old(self)@, shape, color, alpha),
    {
        proof {
            lemma_painted(self@, shape, color, alpha);
            reveal(painted);
        }
        if !self.graphics {
            return;
        }
        let ghost target = painted(self@, shape, color, alpha).pixels;
        let ghost before = self@;
        let ghost width = self@.width;
        let (left, right, top, bottom) = shape.bounds(self.width, self.height);
        let mut y: usize = top;
        proof {
            assert forall|i: int| 0 <= i < before.pixels.len() && i < top * width implies target[i]
                == before.pixels[i] by {
                lemma_row_of(i, width, top as int, before.height);
            }
        }
        while y < bottom
            invariant
                top <= y <= bottom <= before.height,
                before == old(self)@,
                before.wf(),
                width == before.width,
                shape.wf(),
                left <= right <= width,
                target == painted(before, shape, color, alpha).pixels,
                target.len() == before.pixels.len(),
                before.graphics,
                forall|px: int, py: int|
                    0 <= px < width && 0 <= py < before.height && #[trigger] shape.covers(px, py)
                        ==> left <= px < right && top <= py < bottom,
                self@ == (ScreenView { pixels: self@.pixels, ..before }),
                self@.pixels.len() == before.pixels.len(),
                forall|i: int|
                    0 <= i < before.pixels.len() ==> #[trigger] self@.pixels[i] == (if i < y
                        * width {
                        target[i]
                    } else {
                        before.pixels[i]
                    }),
            decreases bottom - y,
        {
            let ghost middle = self@;
            self.paint_row(&shape, color, alpha, y, left, right);
            proof {
                assert forall|i: int| 0 <= i < before.pixels.len() implies #[trigger] self@.pixels[i]
                    == (if i < (y + 1) * width {
                    target[i]
                } else {
                    before.pixels[i]
                }) by {
                    assert((y + 1) * width == y * width + width) by (nonlinear_arith);
                    if y * width <= i < y * width + width {
                        lemma_pixel(i, y as int, width);
                        reveal(painted);
                    }
                    assert(self@.pixels[i] == (if y * width <= i < y * width + width
                        && shape.covers(i - y * width, y as int) {
                        mixed(middle.pixels[i], color, alpha)
                    } else {
                        middle.pixels[i]
                    }));
                }
            }
            y += 1;
        }
        proof {
            assert forall|i: int| 0 <= i < before.pixels.len() implies self@.pixels[i] == target[i] by {
                if i >= bottom * width {
                    lemma_row_after(i, width, bottom as int, before.height);
                }
            }
            assert(self@.pixels =~= target);
        }
    }

    pub fn gfx_clear(&mut self, color: u8)
        requires
            old(self)@.wf(),
        ensures
            final(self)@.wf(),
            same_frame(old(self)@, final(self)@),
            final(self)@ == (if old(self)@.graphics {
                ScreenView {
                    pixels: Seq::new(
                        old(self)@.pixels.len(),
                        |i: int| old(self)@.palette[color as int],
                    ),
                    ..old(self)@
                }
            } else {
                old(self)@
            }),
    {
        let width: i128 = self.width as i128;
        let height: i128 = self.height as i128;
        let value: u32 = self.palette[color as usize];
        self.paint(Shape::Rect { x: 0, y: 0, w: width, h: height }, value, 255);
        proof {
            reveal(painted);
            if old(self)@.graphics {
                let before = old(self)@;
                assert forall|i: int| 0 <= i < before.pixels.len() implies self@.pixels[i]
                    == before.palette[color as int] by {
                    vstd::arithmetic::mul::lemma_mul_is_commutative(before.width, before.height);
                    lemma_row_of(i, before.width, before.height, before.height);
                }
                assert(self@.pixels =~= Seq::new(
                    before.pixels.len(),
                    |i: int| before.palette[color as int],
                ));
            }
        }
    }

    pub fn gfx_fill_rect(&mut self, x: i32, y: i32, width: i32, height: i32, color: u8)
        requires
            old(self)@.wf(),
        ensures
            final(self)@.wf(),
            same_frame(old(self)@, final(self)@),
            final(self)@ == rect(
                old(self)@,
                x as int,
                y as int,
                width as int,
                height as int,
                color,
            ),
    {
        self.gfx_fill_rect_alpha(x, y, width, height, color, 255);
    }

    pub fn gfx_fill_rect_alpha(
        &mut self,
        x: i32,
        y: i32,
        width: i32,
        height: i32,
        color: u8,
        alpha: u8,
    )
        requires
            old(self)@.wf(),
        ensures
            final(self)@.wf(),
            same_frame(old(self)@, final(self)@),
            final(self)@ == rect_alpha(
                old(self)@,
                x as int,
                y as int,
                width as int,
                height as int,
                color,
                alpha,
            ),
    {
        if alpha == 0 {
            return;
        }
        let value: u32 = self.palette[color as usize];
        self.paint(
            Shape::Rect { x: x as i128, y: y as i128, w: width as i128, h: height as i128 },
            value,
            alpha,
        );
    }

    pub fn gfx_fill_circle(&mut self, cx: i32, cy: i32, radius: i32, color: u8)
        requires
            old(self)@.wf(),
        ensures
            final(self)@.wf(),
            same_frame(old(self)@, final(self)@),
            final(self)@ == disk(old(self)@, cx as int, cy as int, radius as int, color),
    {
        self.gfx_fill_circle_alpha(cx, cy, radius, color, 255);
    }

    pub fn gfx_fill_circle_alpha(&mut self, cx: i32, cy: i32, radius: i32, color: u8, alpha: u8)
        requires
            old(self)@.wf(),
        ensures
            final(self)@.wf(),
            same_frame(old(self)@, final(self)@),
            final(self)@ == disk_alpha(
                old(self)@,
                cx as int,
                cy as int,
                radius as int,
                color,
                alpha,
            ),
    {
        if alpha == 0 {
            return;
        }
        let value: u32 = self.palette[color as usize];
        self.paint(
            Shape::Disk { x: cx as i128, y: cy as i128, radius: radius as i128 },
            value,
            alpha,
        );
    }

    pub fn gfx_fill_round_rect(
        &mut self,
        x: i32,
        y: i32,
        width: i32,
        height: i32,
        radius: i32,
        color: u8,
    )
        requires
            old(self)@.wf(),
        ensures
            final(self)@.wf(),
            same_frame(old(self)@, final(self)@),
            final(self)@ == round(
                old(self)@,
                x as int,
                y as int,
                width as int,
                height as int,
                radius as int,
                color,
            ),
    {
        self.gfx_fill_round_rect_alpha(x, y, width, height, radius, color, 255);
    }

    pub fn gfx_fill_round_rect_alpha(
        &mut self,
        x: i32,
        y: i32,
        width: i32,
        height: i32,
        radius: i32,
        color: u8,
        alpha: u8,
    )
        requires
            old(self)@.wf(),
        ensures
            final(self)@.wf(),
            same_frame(old(self)@, final(self)@),
            final(self)@ == round_alpha(
                old(self)@,
                x as int,
                y as int,
                width as int,
                height as int,
                radius as int,
                color,
                alpha,
            ),
    {
        if alpha == 0 {
            return;
        }
        let value: u32 = self.palette[color as usize];
        self.paint(
            Shape::Round {
                x: x as i128,
                y: y as i128,
                w: width as i128,
                h: height as i128,
                radius: radius as i128,
            },
            value,
            alpha,
        );
    }

    /// Sets a colour of the palette, and gives the three bytes for the colour registers.
    pub fn set_palette_entry(&mut self, index: u8, red: u8, green: u8, blue: u8) -> (registers: (
        u8,
        u8,
        u8,
    ))
        requires
            old(self)@.wf(),
        ensures
            final(self)@.wf(),
            same_frame(old(self)@, final(self)@),
            final(self)@ == (ScreenView {
                palette: old(self)@.palette.update(
                    index as int,
                    packed(widened(red), widened(green), widened(blue)),
                ),
                ..old(self)@
            }),
            registers == ((red % 64) as u8, (green % 64) as u8, (blue % 64) as u8),
    {
        let value: u32 = pack_rgb(expand_6bit(red), expand_6bit(green), expand_6bit(blue));
        self.palette.set(index as usize, value);
        (red % 64, green % 64, blue % 64)
    }

    /// Puts a picture of palette colours on the screen, row by row, as far as it reaches.
    pub fn gfx_blit_fullscreen(&mut self, pixels: &[u8])
        requires
            old(self)@.wf(),
        ensures
            final(self)@.wf(),
            same_frame(old(self)@, final(self)@),
            final(self)@ == blitted(old(self)@, pixels@),
    {
        proof {
            assert(self@.width * self@.height <= 640 * 480) by (nonlinear_arith)
                requires
                    1 <= self@.width <= 640,
                    1 <= self@.height <= 480,
            ;
        }
        if !self.graphics {
            return;
        }
        let size: usize = self.pixels.len();
        let mut index: usize = 0;
        while index < size && index < pixels.len()
            invariant
                index <= size,
                index <= pixels@.len(),
                size == self.pixels@.len(),
                old(self)@.wf(),
                self@ == (ScreenView { pixels: self.pixels@, ..old(self)@ }),
                self.pixels@.len() == old(self)@.pixels.len(),
                forall|i: int|
                    0 <= i < size ==> #[trigger] self.pixels@[i] == (if i < index {
                        old(self)@.palette[pixels@[i] as int]
                    } else {
                        old(self)@.pixels[i]
                    }),
            decreases size - index,
        {
            assert(self.palette@ == self@.palette);
            let value: u32 = self.palette[pixels[index] as usize];
            self.pixels.set(index, value);
            index += 1;
        }
        assert(self@.pixels =~= blitted(old(self)@, pixels@).pixels);
    }
}

/// A screen with a picture on it.
pub open spec fn blitted(screen: ScreenView, picture: Seq<u8>) -> ScreenView {
    if !screen.graphics {
        screen
    } else {
        ScreenView {
            pixels: Seq::new(
                screen.pixels.len(),
                |i: int|
                    if i < picture.len() {
                        screen.palette[picture[i] as int]
                    } else {
                        screen.pixels[i]
                    },
            ),
            ..screen
        }
    }
}

proof fn lemma_row_of(i: int, width: int, top: int, height: int)
    requires
        width > 0,
        0 <= i < top * width,
        top <= height,
    ensures
        0 <= i / width < top,
        0 <= i % width < width,
{
    assert(0 <= i / width < top && 0 <= i % width < width) by (nonlinear_arith)
        requires
            width > 0,
            0 <= i < top * width,
    ;
}

proof fn lemma_row_after(i: int, width: int, bottom: int, height: int)
    requires
        width > 0,
        0 <= bottom,
        bottom * width <= i < width * height,
    ensures
        bottom <= i / width < height,
        0 <= i % width < width,
{
    assert(bottom <= i / width < height && 0 <= i % width < width) by (nonlinear_arith)
        requires
            width > 0,
            0 <= bottom,
            bottom * width <= i < width * height,
    ;
}

} // verus!
