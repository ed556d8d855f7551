//! The shapes of letters: bitmaps for ASCII, and bitmaps and strokes for the Chinese
//! characters that the desktop shows.
use vstd::prelude::*;

verus! {

/// A stroke of a character on a grid of fourteen columns, one grid unit thick.
#[derive(Clone, Copy, Debug, PartialEq, Eq, Structural)]
pub enum Stroke {
    Horizontal { left: i32, right: i32, top: i32 },
    Vertical { column: i32, top: i32, bottom: i32 },
    Diagonal { x0: i32, y0: i32, x1: i32, y1: i32 },
    Dot { column: i32, row: i32 },
}

impl Stroke {
    /// The stroke lies near the grid.
    pub open spec fn wf(self) -> bool {
        match self {
            Stroke::Horizontal { left, right, top } => -16 <= left <= 16 && -16 <= right <= 16
                && -16 <= top <= 16,
            Stroke::Vertical { column, top, bottom } => -16 <= column <= 16 && -16 <= top <= 16
                && -16 <= bottom <= 16,
            Stroke::Diagonal { x0, y0, x1, y1 } => -16 <= x0 <= 16 && -16 <= y0 <= 16 && -16
                <= x1 <= 16 && -16 <= y1 <= 16,
            Stroke::Dot { column, row } => -16 <= column <= 16 && -16 <= row <= 16,
        }
    }
}

pub open spec fn across(left: i32, right: i32, top: i32) -> Stroke {
    Stroke::Horizontal { left, right, top }
}

pub open spec fn down(column: i32, top: i32, bottom: i32) -> Stroke {
    Stroke::Vertical { column, top, bottom }
}

pub open spec fn slant(x0: i32, y0: i32, x1: i32, y1: i32) -> Stroke {
    Stroke::Diagonal { x0, y0, x1, y1 }
}

pub open spec fn dot(column: i32, row: i32) -> Stroke {
    Stroke::Dot { column, row }
}

fn stroke_h(left: i32, right: i32, top: i32) -> (stroke: Stroke)
    ensures
        stroke == across(left, right, top),
{
    Stroke::Horizontal { left, right, top }
}

fn stroke_v(column: i32, top: i32, bottom: i32) -> (stroke: Stroke)
    ensures
        stroke == down(column, top, bottom),
{
    Stroke::Vertical { column, top, bottom }
}

fn stroke_diag(x0: i32, y0: i32, x1: i32, y1: i32) -> (stroke: Stroke)
    ensures
        stroke == slant(x0, y0, x1, y1),
{
    Stroke::Diagonal { x0, y0, x1, y1 }
}

fn stroke_dot(column: i32, row: i32) -> (stroke: Stroke)
    ensures
        stroke == dot(column, row),
{
    Stroke::Dot { column, row }
}

/// The letter that is shown for an ASCII byte: small letters look like large ones.
pub open spec fn normalized(ch: u8) -> u8 {
    if 97 <= ch <= 122 {
        (ch - 32) as u8
    } else {
        ch
    }
}

pub fn normalize_glyph(ch: u8) -> (shown: u8)
    ensures
        shown == normalized(ch),
{
    if ch >= 97 && ch <= 122 {
        ch - 32
    } else {
        ch
    }
}

/// The rows of the bitmap of an ASCII letter, five columns wide.
#[verifier::opaque]
pub open spec fn ascii_rows(ch: u8) -> Seq<u8> {
    match ch {
        48 => seq![0x0eu8, 0x11, 0x13, 0x15, 0x19, 0x11, 0x0e],
        49 => seq![0x04u8, 0x0c, 0x04, 0x04, 0x04, 0x04, 0x0e],
        50 => seq![0x0eu8, 0x11, 0x01, 0x02, 0x04, 0x08, 0x1f],
        51 => seq![0x1eu8, 0x01, 0x01, 0x06, 0x01, 0x01, 0x1e],
        52 => seq![0x02u8, 0x06, 0x0a, 0x12, 0x1f, 0x02, 0x02],
        53 => seq![0x1fu8, 0x10, 0x10, 0x1e, 0x01, 0x01, 0x1e],
        54 => seq![0x0eu8, 0x10, 0x10, 0x1e, 0x11, 0x11, 0x0e],
        55 => seq![0x1fu8, 0x01, 0x02, 0x04, 0x08, 0x08, 0x08],
        56 => seq![0x0eu8, 0x11, 0x11, 0x0e, 0x11, 0x11, 0x0e],
        57 => seq![0x0eu8, 0x11, 0x11, 0x0f, 0x01, 0x01, 0x0e],
        65 => seq![0x0eu8, 0x11, 0x11, 0x1f, 0x11, 0x11, 0x11],
        66 => seq![0x1eu8, 0x11, 0x11, 0x1e, 0x11, 0x11, 0x1e],
        67 => seq![0x0fu8, 0x10, 0x10, 0x10, 0x10, 0x10, 0x0f],
        68 => seq![0x1eu8, 0x11, 0x11, 0x11, 0x11, 0x11, 0x1e],
        69 => seq![0x1fu8, 0x10, 0x10, 0x1e, 0x10, 0x10, 0x1f],
        70 => seq![0x1fu8, 0x10, 0x10, 0x1e, 0x10, 0x10, 0x10],
        71 => seq![0x0fu8, 0x10, 0x10, 0x17, 0x11, 0x11, 0x0f],
        72 => seq![0x11u8, 0x11, 0x11, 0x1f, 0x11, 0x11, 0x11],
        73 => seq![0x1fu8, 0x04, 0x04, 0x04, 0x04, 0x04, 0x1f],
        74 => seq![0x01u8, 0x01, 0x01, 0x01, 0x11, 0x11, 0x0e],
        75 => seq![0x11u8, 0x12, 0x14, 0x18, 0x14, 0x12, 0x11],
        76 => seq![0x10u8, 0x10, 0x10, 0x10, 0x10, 0x10, 0x1f],
        77 => seq![0x11u8, 0x1b, 0x15, 0x15, 0x11, 0x11, 0x11],
        78 => seq![0x11u8, 0x19, 0x15, 0x13, 0x11, 0x11, 0x11],
        79 => seq![0x0eu8, 0x11, 0x11, 0x11, 0x11, 0x11, 0x0e],
        80 => seq![0x1eu8, 0x11, 0x11, 0x1e, 0x10, 0x10, 0x10],
        81 => seq![0x0eu8, 0x11, 0x11, 0x11, 0x15, 0x12, 0x0d],
        82 => seq![0x1eu8, 0x11, 0x11, 0x1e, 0x14, 0x12, 0x11],
        83 => seq![0x0fu8, 0x10, 0x10, 0x0e, 0x01, 0x01, 0x1e],
        84 => seq![0x1fu8, 0x04, 0x04, 0x04, 0x04, 0x04, 0x04],
        85 => seq![0x11u8, 0x11, 0x11, 0x11, 0x11, 0x11, 0x0e],
        86 => seq![0x11u8, 0x11, 0x11, 0x11, 0x11, 0x0a, 0x04],
        87 => seq![0x11u8, 0x11, 0x11, 0x15, 0x15, 0x15, 0x0a],
        88 => seq![0x11u8, 0x11, 0x0a, 0x04, 0x0a, 0x11, 0x11],
        89 => seq![0x11u8, 0x11, 0x0a, 0x04, 0x04, 0x04, 0x04],
        90 => seq![0x1fu8, 0x01, 0x02, 0x04, 0x08, 0x10, 0x1f],
        33 => seq![0x04u8, 0x04, 0x04, 0x04, 0x04, 0x00, 0x04],
        35 => seq![0x0au8, 0x0a, 0x1f, 0x0a, 0x1f, 0x0a, 0x0a],
        40 => seq![0x02u8, 0x04, 0x08, 0x08, 0x08, 0x04, 0x02],
        41 => seq![0x08u8, 0x04, 0x02, 0x02, 0x02, 0x04, 0x08],
        43 => seq![0x00u8, 0x04, 0x04, 0x1f, 0x04, 0x04, 0x00],
        44 => seq![0x00u8, 0x00, 0x00, 0x00, 0x04, 0x04, 0x08],
        45 => seq![0x00u8, 0x00, 0x00, 0x1f, 0x00, 0x00, 0x00],
        46 => seq![0x00u8, 0x00, 0x00, 0x00, 0x00, 0x0c, 0x0c],
        47 => seq![0x01u8, 0x02, 0x02, 0x04, 0x08, 0x08, 0x10],
        58 => seq![0x00u8, 0x0c, 0x0c, 0x00, 0x0c, 0x0c, 0x00],
        61 => seq![0x00u8, 0x00, 0x1f, 0x00, 0x1f, 0x00, 0x00],
        63 => seq![0x0eu8, 0x11, 0x01, 0x02, 0x04, 0x00, 0x04],
        64 => seq![0x0eu8, 0x11, 0x17, 0x15, 0x17, 0x10, 0x0f],
        96 => seq![0x08u8, 0x04, 0x00, 0x00, 0x00, 0x00, 0x00],
        32 => seq![0x00u8, 0x00, 0x00, 0x00, 0x00, 0x00, 0x00],
        _ => seq![0x00u8, 0x1f, 0x11, 0x05, 0x00, 0x04, 0x00],
    }
}

pub fn glyph_bitmap(ch: u8) -> (rows: [u8; 7])
    ensures
        rows@ == ascii_rows(ch),
{
    reveal(ascii_rows);
    let rows: [u8; 7] = match ch {
        48 => [0x0e, 0x11, 0x13, 0x15, 0x19, 0x11, 0x0e],
        49 => [0x04, 0x0c, 0x04, 0x04, 0x04, 0x04, 0x0e],
        50 => [0x0e, 0x11, 0x01, 0x02, 0x04, 0x08, 0x1f],
        51 => [0x1e, 0x01, 0x01, 0x06, 0x01, 0x01, 0x1e],
        52 => [0x02, 0x06, 0x0a, 0x12, 0x1f, 0x02, 0x02],
        53 => [0x1f, 0x10, 0x10, 0x1e, 0x01, 0x01, 0x1e],
        54 => [0x0e, 0x10, 0x10, 0x1e, 0x11, 0x11, 0x0e],
        55 => [0x1f, 0x01, 0x02, 0x04, 0x08, 0x08, 0x08],
        56 => [0x0e, 0x11, 0x11, 0x0e, 0x11, 0x11, 0x0e],
        57 => [0x0e, 0x11, 0x11, 0x0f, 0x01, 0x01, 0x0e],
        65 => [0x0e, 0x11, 0x11, 0x1f, 0x11, 0x11, 0x11],
        66 => [0x1e, 0x11, 0x11, 0x1e, 0x11, 0x11, 0x1e],
        67 => [0x0f, 0x10, 0x10, 0x10, 0x10, 0x10, 0x0f],
        68 => [0x1e, 0x11, 0x11, 0x11, 0x11, 0x11, 0x1e],
        69 => [0x1f, 0x10, 0x10, 0x1e, 0x10, 0x10, 0x1f],
        70 => [0x1f, 0x10, 0x10, 0x1e, 0x10, 0x10, 0x10],
        71 => [0x0f, 0x10, 0x10, 0x17, 0x11, 0x11, 0x0f],
        72 => [0x11, 0x11, 0x11, 0x1f, 0x11, 0x11, 0x11],
        73 => [0x1f, 0x04, 0x04, 0x04, 0x04, 0x04, 0x1f],
        74 => [0x01, 0x01, 0x01, 0x01, 0x11, 0x11, 0x0e],
        75 => [0x11, 0x12, 0x14, 0x18, 0x14, 0x12, 0x11],
        76 => [0x10, 0x10, 0x10, 0x10, 0x10, 0x10, 0x1f],
        77 => [0x11, 0x1b, 0x15, 0x15, 0x11, 0x11, 0x11],
        78 => [0x11, 0x19, 0x15, 0x13, 0x11, 0x11, 0x11],
        79 => [0x0e, 0x11, 0x11, 0x11, 0x11, 0x11, 0x0e],
        80 => [0x1e, 0x11, 0x11, 0x1e, 0x10, 0x10, 0x10],
        81 => [0x0e, 0x11, 0x11, 0x11, 0x15, 0x12, 0x0d],
        82 => [0x1e, 0x11, 0x11, 0x1e, 0x14, 0x12, 0x11],
        83 => [0x0f, 0x10, 0x10, 0x0e, 0x01, 0x01, 0x1e],
        84 => [0x1f, 0x04, 0x04, 0x04, 0x04, 0x04, 0x04],
        85 => [0x11, 0x11, 0x11, 0x11, 0x11, 0x11, 0x0e],
        86 => [0x11, 0x11, 0x11, 0x11, 0x11, 0x0a, 0x04],
        87 => [0x11, 0x11, 0x11, 0x15, 0x15, 0x15, 0x0a],
        88 => [0x11, 0x11, 0x0a, 0x04, 0x0a, 0x11, 0x11],
        89 => [0x11, 0x11, 0x0a, 0x04, 0x04, 0x04, 0x04],
        90 => [0x1f, 0x01, 0x02, 0x04, 0x08, 0x10, 0x1f],
        33 => [0x04, 0x04, 0x04, 0x04, 0x04, 0x00, 0x04],
        35 => [0x0a, 0x0a, 0x1f, 0x0a, 0x1f, 0x0a, 0x0a],
        40 => [0x02, 0x04, 0x08, 0x08, 0x08, 0x04, 0x02],
        41 => [0x08, 0x04, 0x02, 0x02, 0x02, 0x04, 0x08],
        43 => [0x00, 0x04, 0x04, 0x1f, 0x04, 0x04, 0x00],
        44 => [0x00, 0x00, 0x00, 0x00, 0x04, 0x04, 0x08],
        45 => [0x00, 0x00, 0x00, 0x1f, 0x00, 0x00, 0x00],
        46 => [0x00, 0x00, 0x00, 0x00, 0x00, 0x0c, 0x0c],
        47 => [0x01, 0x02, 0x02, 0x04, 0x08, 0x08, 0x10],
        58 => [0x00, 0x0c, 0x0c, 0x00, 0x0c, 0x0c, 0x00],
        61 => [0x00, 0x00, 0x1f, 0x00, 0x1f, 0x00, 0x00],
        63 => [0x0e, 0x11, 0x01, 0x02, 0x04, 0x00, 0x04],
        64 => [0x0e, 0x11, 0x17, 0x15, 0x17, 0x10, 0x0f],
        96 => [0x08, 0x04, 0x00, 0x00, 0x00, 0x00, 0x00],
        32 => [0x00, 0x00, 0x00, 0x00, 0x00, 0x00, 0x00],
        _ => [0x00, 0x1f, 0x11, 0x05, 0x00, 0x04, 0x00],
    };
    assert(rows@ =~= ascii_rows(ch));
    rows
}

/// The rows of the large bitmap of a character, sixteen columns wide.
#[verifier::opaque]
pub open spec fn large_rows(code: u32) -> Option<Seq<u16>> {
    match code {
        0x6587 => Some(seq![0x0100u16, 0x0180, 0x0080, 0x7ffe, 0x1818, 0x0810, 0x0c30, 0x0420, 0x0660, 0x03c0, 0x0180, 0x03c0, 0x0660, 0x1c38, 0x781e, 0x4002]),
        0x4ef6 => Some(seq![0x0820u16, 0x0960, 0x1b60, 0x1360, 0x33fe, 0x3660, 0x7660, 0xf460, 0x3060, 0x37fe, 0x3060, 0x3060, 0x3060, 0x3060, 0x3060, 0x1020]),
        0x547d => Some(seq![0x0180u16, 0x0180, 0x03c0, 0x0e70, 0x3c3c, 0x7fee, 0x4000, 0x3efc, 0x22c4, 0x22c4, 0x22c4, 0x22c4, 0x3edc, 0x20c0, 0x20c0, 0x0040]),
        0x4ee4 => Some(seq![0x0080u16, 0x0180, 0x03c0, 0x0670, 0x1d38, 0x718e, 0x60c6, 0x0000, 0x3ffc, 0x0018, 0x0030, 0x0660, 0x03c0, 0x01c0, 0x00e0, 0x0060]),
        0x7f16 => Some(seq![0x1020u16, 0x1030, 0x33fe, 0x3306, 0x2f06, 0x6bfe, 0x7b00, 0x33fe, 0x23aa, 0x7faa, 0x73aa, 0x03fe, 0x1faa, 0x77aa, 0x07aa, 0x0486]),
        0x8f91 => Some(seq![0x1000u16, 0x10fc, 0x7e84, 0x30fc, 0x3800, 0x29fe, 0x6884, 0x6884, 0x7efc, 0x0884, 0x08fc, 0x3e84, 0x7884, 0x0bff, 0x0904, 0x0804]),
        0x8bbe => Some(seq![0x0000u16, 0x30f8, 0x1888, 0x0888, 0x0188, 0x018e, 0xf300, 0x1200, 0x13fc, 0x110c, 0x118c, 0x10d8, 0x1c70, 0x18f8, 0x33de, 0x0306]),
        0x7f6e => Some(seq![0x0000u16, 0x3ffe, 0x2666, 0x3ffe, 0x0180, 0x7ffe, 0x0100, 0x1ff8, 0x1008, 0x1ff8, 0x1008, 0x1ff8, 0x1ff8, 0x1008, 0x7ffe, 0x0000]),
        0x89c6 => Some(seq![0x19feu16, 0x1986, 0x7da6, 0x0db6, 0x0db6, 0x19b6, 0x19a6, 0x3da6, 0x7da6, 0x5470, 0x1070, 0x10f2, 0x10d3, 0x1192, 0x131e, 0x0000]),
        0x9891 => Some(seq![0x0c00u16, 0x2cfe, 0x2f18, 0x2c10, 0x2c7e, 0x2cc6, 0xffd6, 0x0856, 0x2b56, 0x6b56, 0x4a56, 0x4e56, 0x0c38, 0x186c, 0x70c6, 0x6182]),
        0x97f3 => Some(seq![0x0180u16, 0x0180, 0x3ffe, 0x0810, 0x0c30, 0x0c30, 0x7ffe, 0x0000, 0x1ff8, 0x1008, 0x1008, 0x1ff8, 0x1008, 0x1008, 0x1ff8, 0x1008]),
        0x5f00 => Some(seq![0x7ffeu16, 0x0c30, 0x0c30, 0x0c30, 0x0c30, 0x0c30, 0x7ffe, 0x0c30, 0x0c30, 0x0c30, 0x0830, 0x1830, 0x3030, 0x7030, 0x4030, 0x0000]),
        0x59cb => Some(seq![0x1020u16, 0x3060, 0x3060, 0x30c8, 0xfccc, 0x2586, 0x27fe, 0x6d82, 0x6c00, 0x6dfe, 0x3986, 0x1986, 0x1d86, 0x3586, 0x61fe, 0x4186]),
        0x63d0 => Some(seq![0x33fcu16, 0x3304, 0xfffc, 0x3304, 0x33fc, 0x3000, 0x3000, 0x3ffe, 0x7820, 0x7120, 0x333c, 0x3320, 0x36e0, 0x3c7f, 0x7000, 0x0000]),
        0x793a => Some(seq![0x0000u16, 0x3ffc, 0x0000, 0x0000, 0x0000, 0x7ffe, 0x0180, 0x0180, 0x1998, 0x1188, 0x318c, 0x6184, 0x6186, 0x4180, 0x0700, 0x0000]),
        0x7b26 => Some(seq![0x30c0u16, 0x3ffe, 0x6d90, 0x4d18, 0x0808, 0x1808, 0x37fe, 0x3018, 0x7308, 0x5108, 0x1188, 0x1088, 0x1008, 0x1018, 0x1078, 0x0000]),
        0x4eae => Some(seq![0x0100u16, 0x0180, 0x7ffe, 0x0000, 0x1ff8, 0x1818, 0x1ff8, 0x0000, 0x7ffe, 0x6006, 0x67e6, 0x0c20, 0x0c22, 0x1822, 0x703e, 0x0000]),
        0x5ea6 => Some(seq![0x0080u16, 0x00c0, 0x3ffe, 0x2210, 0x2318, 0x3ffe, 0x2318, 0x2318, 0x23f8, 0x2000, 0x2ffc, 0x6618, 0x63b0, 0x61e0, 0x5ffe, 0x5c0e]),
        0x91cf => Some(seq![0x0000u16, 0x1ff8, 0x1ff8, 0x1008, 0x1ff8, 0x7ffe, 0x7ffe, 0x3ffc, 0x318c, 0x3ffc, 0x3ffc, 0x0180, 0x3ffc, 0x0180, 0x7ffe, 0x0000]),
        0x4e3b => Some(seq![0x0200u16, 0x0380, 0x0180, 0x00c0, 0x7ffe, 0x0180, 0x0180, 0x0180, 0x0180, 0x3ffc, 0x0180, 0x0180, 0x0180, 0x0180, 0x7ffe, 0x0000]),
        0x9898 => Some(seq![0x3efeu16, 0x2210, 0x3e30, 0x22fe, 0x3ed6, 0x00d6, 0x7fd6, 0x08d6, 0x28f6, 0x2ffe, 0x286c, 0x78c6, 0x7d82, 0x47fe, 0x0000, 0x0000]),
        0x64ad => Some(seq![0x33f8u16, 0x312c, 0x312c, 0xfde8, 0x37fe, 0x30f8, 0x31ac, 0x7f26, 0xf3fe, 0x3326, 0x3326, 0x33fe, 0x3326, 0x33fe, 0x7304, 0x0000]),
        0x653e => Some(seq![0x1860u16, 0x0860, 0x7f7f, 0x30c4, 0x30c4, 0x3fec, 0x33ec, 0x3228, 0x3238, 0x3238, 0x3230, 0x2238, 0x666c, 0x66ce, 0xdf82, 0x0000]),
        0x5668 => Some(seq![0x0000u16, 0x3e7c, 0x2244, 0x2244, 0x2244, 0x3e7c, 0x0338, 0x7ffe, 0x0c70, 0x1838, 0x781e, 0x7e7e, 0x2244, 0x2244, 0x3e7c, 0x2244]),
        0x7c7b => Some(seq![0x0180u16, 0x1998, 0x0990, 0x0db0, 0x7ffe, 0x03e0, 0x0db8, 0x798e, 0x6182, 0x0180, 0x7ffe, 0x03c0, 0x0660, 0x0e70, 0x781e, 0x6006]),
        0x578b => Some(seq![0x0004u16, 0x7fa4, 0x1324, 0x1324, 0x7fa4, 0x1324, 0x3324, 0x3304, 0x631c, 0x0180, 0x0180, 0x3ffc, 0x0180, 0x0180, 0x7ffe, 0x0000]),
        0x76ee => Some(seq![0x3ffcu16, 0x300c, 0x300c, 0x300c, 0x3ffc, 0x300c, 0x300c, 0x300c, 0x3ffc, 0x300c, 0x300c, 0x300c, 0x3ffc, 0x300c, 0x1008, 0x0000]),
        0x5f55 => Some(seq![0x0000u16, 0x3ff8, 0x0008, 0x0008, 0x3ff8, 0x0018, 0x0018, 0x7ffe, 0x0180, 0x398c, 0x0df8, 0x03e0, 0x0fb0, 0x799c, 0x618e, 0x0700]),
        0x4fdd => Some(seq![0x0800u16, 0x0bfe, 0x1a06, 0x1206, 0x3206, 0x73fe, 0xf060, 0xd060, 0x1060, 0x17fe, 0x10f0, 0x11f8, 0x116c, 0x1766, 0x1463, 0x1060]),
        0x5b58 => Some(seq![0x0200u16, 0x0200, 0x0600, 0x7ffe, 0x0c00, 0x0c00, 0x19fc, 0x1818, 0x3030, 0x7020, 0x57ff, 0x1060, 0x1020, 0x1020, 0x1060, 0x11e0]),
        0x4e0a => Some(seq![0x0100u16, 0x0100, 0x0100, 0x0100, 0x0100, 0x0100, 0x01fc, 0x0100, 0x0100, 0x0100, 0x0100, 0x0100, 0x0100, 0x0300, 0x7ffe, 0x0000]),
        0x4e0b => Some(seq![0x0000u16, 0x7ffe, 0x0180, 0x0180, 0x0180, 0x01c0, 0x01f0, 0x01bc, 0x018c, 0x0180, 0x0180, 0x0180, 0x0180, 0x0180, 0x0100, 0x0000]),
        _ => None,
    }
}

pub fn cjk_glyph16(code: u32) -> (glyph: Option<[u16; 16]>)
    ensures
        match glyph {
            Some(rows) => large_rows(code) == Some(rows@),
            None => large_rows(code) is None,
        },
{
    reveal(large_rows);
    let rows: [u16; 16] = match code {
        0x6587 => [0x0100, 0x0180, 0x0080, 0x7ffe, 0x1818, 0x0810, 0x0c30, 0x0420, 0x0660, 0x03c0, 0x0180, 0x03c0, 0x0660, 0x1c38, 0x781e, 0x4002],
        0x4ef6 => [0x0820, 0x0960, 0x1b60, 0x1360, 0x33fe, 0x3660, 0x7660, 0xf460, 0x3060, 0x37fe, 0x3060, 0x3060, 0x3060, 0x3060, 0x3060, 0x1020],
        0x547d => [0x0180, 0x0180, 0x03c0, 0x0e70, 0x3c3c, 0x7fee, 0x4000, 0x3efc, 0x22c4, 0x22c4, 0x22c4, 0x22c4, 0x3edc, 0x20c0, 0x20c0, 0x0040],
        0x4ee4 => [0x0080, 0x0180, 0x03c0, 0x0670, 0x1d38, 0x718e, 0x60c6, 0x0000, 0x3ffc, 0x0018, 0x0030, 0x0660, 0x03c0, 0x01c0, 0x00e0, 0x0060],
        0x7f16 => [0x1020, 0x1030, 0x33fe, 0x3306, 0x2f06, 0x6bfe, 0x7b00, 0x33fe, 0x23aa, 0x7faa, 0x73aa, 0x03fe, 0x1faa, 0x77aa, 0x07aa, 0x0486],
        0x8f91 => [0x1000, 0x10fc, 0x7e84, 0x30fc, 0x3800, 0x29fe, 0x6884, 0x6884, 0x7efc, 0x0884, 0x08fc, 0x3e84, 0x7884, 0x0bff, 0x0904, 0x0804],
        0x8bbe => [0x0000, 0x30f8, 0x1888, 0x0888, 0x0188, 0x018e, 0xf300, 0x1200, 0x13fc, 0x110c, 0x118c, 0x10d8, 0x1c70, 0x18f8, 0x33de, 0x0306],
        0x7f6e => [0x0000, 0x3ffe, 0x2666, 0x3ffe, 0x0180, 0x7ffe, 0x0100, 0x1ff8, 0x1008, 0x1ff8, 0x1008, 0x1ff8, 0x1ff8, 0x1008, 0x7ffe, 0x0000],
        0x89c6 => [0x19fe, 0x1986, 0x7da6, 0x0db6, 0x0db6, 0x19b6, 0x19a6, 0x3da6, 0x7da6, 0x5470, 0x1070, 0x10f2, 0x10d3, 0x1192, 0x131e, 0x0000],
        0x9891 => [0x0c00, 0x2cfe, 0x2f18, 0x2c10, 0x2c7e, 0x2cc6, 0xffd6, 0x0856, 0x2b56, 0x6b56, 0x4a56, 0x4e56, 0x0c38, 0x186c, 0x70c6, 0x6182],
        0x97f3 => [0x0180, 0x0180, 0x3ffe, 0x0810, 0x0c30, 0x0c30, 0x7ffe, 0x0000, 0x1ff8, 0x1008, 0x1008, 0x1ff8, 0x1008, 0x1008, 0x1ff8, 0x1008],
        0x5f00 => [0x7ffe, 0x0c30, 0x0c30, 0x0c30, 0x0c30, 0x0c30, 0x7ffe, 0x0c30, 0x0c30, 0x0c30, 0x0830, 0x1830, 0x3030, 0x7030, 0x4030, 0x0000],
        0x59cb => [0x1020, 0x3060, 0x3060, 0x30c8, 0xfccc, 0x2586, 0x27fe, 0x6d82, 0x6c00, 0x6dfe, 0x3986, 0x1986, 0x1d86, 0x3586, 0x61fe, 0x4186],
        0x63d0 => [0x33fc, 0x3304, 0xfffc, 0x3304, 0x33fc, 0x3000, 0x3000, 0x3ffe, 0x7820, 0x7120, 0x333c, 0x3320, 0x36e0, 0x3c7f, 0x7000, 0x0000],
        0x793a => [0x0000, 0x3ffc, 0x0000, 0x0000, 0x0000, 0x7ffe, 0x0180, 0x0180, 0x1998, 0x1188, 0x318c, 0x6184, 0x6186, 0x4180, 0x0700, 0x0000],
        0x7b26 => [0x30c0, 0x3ffe, 0x6d90, 0x4d18, 0x0808, 0x1808, 0x37fe, 0x3018, 0x7308, 0x5108, 0x1188, 0x1088, 0x1008, 0x1018, 0x1078, 0x0000],
        0x4eae => [0x0100, 0x0180, 0x7ffe, 0x0000, 0x1ff8, 0x1818, 0x1ff8, 0x0000, 0x7ffe, 0x6006, 0x67e6, 0x0c20, 0x0c22, 0x1822, 0x703e, 0x0000],
        0x5ea6 => [0x0080, 0x00c0, 0x3ffe, 0x2210, 0x2318, 0x3ffe, 0x2318, 0x2318, 0x23f8, 0x2000, 0x2ffc, 0x6618, 0x63b0, 0x61e0, 0x5ffe, 0x5c0e],
        0x91cf => [0x0000, 0x1ff8, 0x1ff8, 0x1008, 0x1ff8, 0x7ffe, 0x7ffe, 0x3ffc, 0x318c, 0x3ffc, 0x3ffc, 0x0180, 0x3ffc, 0x0180, 0x7ffe, 0x0000],
        0x4e3b => [0x0200, 0x0380, 0x0180, 0x00c0, 0x7ffe, 0x0180, 0x0180, 0x0180, 0x0180, 0x3ffc, 0x0180, 0x0180, 0x0180, 0x0180, 0x7ffe, 0x0000],
        0x9898 => [0x3efe, 0x2210, 0x3e30, 0x22fe, 0x3ed6, 0x00d6, 0x7fd6, 0x08d6, 0x28f6, 0x2ffe, 0x286c, 0x78c6, 0x7d82, 0x47fe, 0x0000, 0x0000],
        0x64ad => [0x33f8, 0x312c, 0x312c, 0xfde8, 0x37fe, 0x30f8, 0x31ac, 0x7f26, 0xf3fe, 0x3326, 0x3326, 0x33fe, 0x3326, 0x33fe, 0x7304, 0x0000],
        0x653e => [0x1860, 0x0860, 0x7f7f, 0x30c4, 0x30c4, 0x3fec, 0x33ec, 0x3228, 0x3238, 0x3238, 0x3230, 0x2238, 0x666c, 0x66ce, 0xdf82, 0x0000],
        0x5668 => [0x0000, 0x3e7c, 0x2244, 0x2244, 0x2244, 0x3e7c, 0x0338, 0x7ffe, 0x0c70, 0x1838, 0x781e, 0x7e7e, 0x2244, 0x2244, 0x3e7c, 0x2244],
        0x7c7b => [0x0180, 0x1998, 0x0990, 0x0db0, 0x7ffe, 0x03e0, 0x0db8, 0x798e, 0x6182, 0x0180, 0x7ffe, 0x03c0, 0x0660, 0x0e70, 0x781e, 0x6006],
        0x578b => [0x0004, 0x7fa4, 0x1324, 0x1324, 0x7fa4, 0x1324, 0x3324, 0x3304, 0x631c, 0x0180, 0x0180, 0x3ffc, 0x0180, 0x0180, 0x7ffe, 0x0000],
        0x76ee => [0x3ffc, 0x300c, 0x300c, 0x300c, 0x3ffc, 0x300c, 0x300c, 0x300c, 0x3ffc, 0x300c, 0x300c, 0x300c, 0x3ffc, 0x300c, 0x1008, 0x0000],
        0x5f55 => [0x0000, 0x3ff8, 0x0008, 0x0008, 0x3ff8, 0x0018, 0x0018, 0x7ffe, 0x0180, 0x398c, 0x0df8, 0x03e0, 0x0fb0, 0x799c, 0x618e, 0x0700],
        0x4fdd => [0x0800, 0x0bfe, 0x1a06, 0x1206, 0x3206, 0x73fe, 0xf060, 0xd060, 0x1060, 0x17fe, 0x10f0, 0x11f8, 0x116c, 0x1766, 0x1463, 0x1060],
        0x5b58 => [0x0200, 0x0200, 0x0600, 0x7ffe, 0x0c00, 0x0c00, 0x19fc, 0x1818, 0x3030, 0x7020, 0x57ff, 0x1060, 0x1020, 0x1020, 0x1060, 0x11e0],
        0x4e0a => [0x0100, 0x0100, 0x0100, 0x0100, 0x0100, 0x0100, 0x01fc, 0x0100, 0x0100, 0x0100, 0x0100, 0x0100, 0x0100, 0x0300, 0x7ffe, 0x0000],
        0x4e0b => [0x0000, 0x7ffe, 0x0180, 0x0180, 0x0180, 0x01c0, 0x01f0, 0x01bc, 0x018c, 0x0180, 0x0180, 0x0180, 0x0180, 0x0180, 0x0100, 0x0000],
        _ => {
            return None;
        },
    };
    assert(rows@ =~= large_rows(code)->Some_0);
    Some(rows)
}

/// The rows of the small bitmap of a character, eight columns wide.
#[verifier::opaque]
pub open spec fn small_rows(code: u32) -> Option<Seq<u8>> {
    match code {
        0x65b0 => Some(seq![0x10u8, 0x7c, 0x54, 0x7c, 0x28, 0x7e, 0x24, 0x44]),
        0x5efa => Some(seq![0x3cu8, 0x04, 0x3c, 0x04, 0x7e, 0x48, 0x34, 0x7e]),
        0x5939 => Some(seq![0x10u8, 0x7c, 0x38, 0xfe, 0x10, 0x28, 0x44, 0x82]),
        0x4e0a => Some(seq![0x10u8, 0x10, 0x10, 0x10, 0x10, 0x7c, 0x00, 0x00]),
        0x4e0b => Some(seq![0x10u8, 0x10, 0x7c, 0x10, 0x10, 0x12, 0x0c, 0x00]),
        0x4e3b => Some(seq![0x10u8, 0x10, 0x7c, 0x10, 0x10, 0x7c, 0x00, 0x00]),
        0x4eae => Some(seq![0x38u8, 0x44, 0x7c, 0x10, 0x7c, 0x44, 0x44, 0x38]),
        0x6587 => Some(seq![0x10u8, 0x10, 0x7c, 0x10, 0x28, 0x44, 0x82, 0x00]),
        0x4ef6 => Some(seq![0x10u8, 0x7c, 0x10, 0xfe, 0x10, 0x10, 0x12, 0x0c]),
        0x547d => Some(seq![0x10u8, 0x28, 0x44, 0xfe, 0x10, 0x7c, 0x44, 0x7c]),
        0x4ee4 => Some(seq![0x10u8, 0x28, 0x44, 0xfe, 0x10, 0x08, 0x10, 0x20]),
        0x4fdd => Some(seq![0x10u8, 0x28, 0x44, 0x7e, 0x48, 0x7c, 0x48, 0x44]),
        0x7f16 => Some(seq![0x24u8, 0x24, 0x7e, 0x10, 0x7c, 0x44, 0x7c, 0x44]),
        0x8f91 => Some(seq![0x42u8, 0x7e, 0x42, 0x7c, 0x44, 0x7c, 0x44, 0x7c]),
        0x8bbe => Some(seq![0x42u8, 0x22, 0x14, 0x08, 0x7e, 0x22, 0x14, 0x08]),
        0x7f6e => Some(seq![0x7eu8, 0x12, 0x7e, 0x12, 0x7e, 0x10, 0x10, 0x7e]),
        0x89c6 => Some(seq![0x42u8, 0x22, 0x14, 0x08, 0x7c, 0x44, 0x44, 0x38]),
        0x9891 => Some(seq![0x42u8, 0x7e, 0x42, 0x3c, 0x20, 0x3e, 0x22, 0x3c]),
        0x97f3 => Some(seq![0x10u8, 0x7c, 0x10, 0xfe, 0x10, 0x7c, 0x44, 0x7c]),
        0x91cf => Some(seq![0x7cu8, 0x44, 0x7c, 0x10, 0x7c, 0x54, 0x54, 0x7c]),
        0x5f00 => Some(seq![0x00u8, 0xfe, 0x20, 0x20, 0x3c, 0x22, 0x22, 0x00]),
        0x59cb => Some(seq![0x44u8, 0x24, 0x1e, 0x44, 0x7c, 0x44, 0x44, 0x38]),
        0x63d0 => Some(seq![0x10u8, 0x7c, 0x10, 0x7c, 0x54, 0x7c, 0x10, 0x0c]),
        0x793a => Some(seq![0x10u8, 0x7c, 0x10, 0xfe, 0x10, 0x28, 0x44, 0x82]),
        0x7b26 => Some(seq![0x10u8, 0x28, 0x44, 0xfe, 0x28, 0x44, 0x7c, 0x10]),
        0x5e2e => Some(seq![0x44u8, 0xfe, 0x44, 0x7c, 0x10, 0xfe, 0x10, 0x10]),
        0x52a9 => Some(seq![0x42u8, 0x7e, 0x42, 0x02, 0x02, 0x12, 0x22, 0x1c]),
        0x5e94 => Some(seq![0x08u8, 0x7e, 0x40, 0x5c, 0x52, 0x52, 0x22, 0x0c]),
        0x7528 => Some(seq![0x7cu8, 0x44, 0x44, 0x7c, 0x44, 0x44, 0x44, 0x44]),
        0x76ee => Some(seq![0x7cu8, 0x44, 0x44, 0x44, 0x44, 0x44, 0x7c, 0x00]),
        0x5f55 => Some(seq![0x10u8, 0x7c, 0x54, 0x7c, 0x10, 0x28, 0x44, 0x82]),
        0x7c7b => Some(seq![0x10u8, 0x54, 0x38, 0x10, 0x10, 0x28, 0x44, 0x82]),
        0x578b => Some(seq![0x44u8, 0x28, 0x10, 0x7c, 0x10, 0x10, 0x12, 0x0c]),
        0x5b58 => Some(seq![0x10u8, 0x28, 0x44, 0xfe, 0x10, 0x7c, 0x44, 0x44]),
        0x8fd0 => Some(seq![0x22u8, 0x12, 0x04, 0x7c, 0x10, 0x28, 0x44, 0x82]),
        0x884c => Some(seq![0x10u8, 0x7c, 0x10, 0xfe, 0x10, 0x10, 0x12, 0x0c]),
        0x64ad => Some(seq![0x10u8, 0x7c, 0x54, 0x7c, 0x10, 0x7c, 0x54, 0x7c]),
        0x653e => Some(seq![0x42u8, 0x22, 0x14, 0x08, 0x24, 0x52, 0x52, 0x8c]),
        0x5668 => Some(seq![0x7cu8, 0x44, 0x7c, 0x10, 0x7c, 0x44, 0x7c, 0x00]),
        0x5173 => Some(seq![0x10u8, 0x28, 0x44, 0xfe, 0x10, 0x10, 0x28, 0x44]),
        0x673a => Some(seq![0x44u8, 0x28, 0x10, 0x7c, 0x44, 0x54, 0x64, 0x44]),
        0x9898 => Some(seq![0x20u8, 0x3e, 0x2a, 0x3e, 0x20, 0x3e, 0x22, 0x3c]),
        _ => None,
    }
}

pub fn cjk_glyph(code: u32) -> (glyph: Option<[u8; 8]>)
    ensures
        match glyph {
            Some(rows) => small_rows(code) == Some(rows@),
            None => small_rows(code) is None,
        },
{
    reveal(small_rows);
    let rows: [u8; 8] = match code {
        0x65b0 => [0x10, 0x7c, 0x54, 0x7c, 0x28, 0x7e, 0x24, 0x44],
        0x5efa => [0x3c, 0x04, 0x3c, 0x04, 0x7e, 0x48, 0x34, 0x7e],
        0x5939 => [0x10, 0x7c, 0x38, 0xfe, 0x10, 0x28, 0x44, 0x82],
        0x4e0a => [0x10, 0x10, 0x10, 0x10, 0x10, 0x7c, 0x00, 0x00],
        0x4e0b => [0x10, 0x10, 0x7c, 0x10, 0x10, 0x12, 0x0c, 0x00],
        0x4e3b => [0x10, 0x10, 0x7c, 0x10, 0x10, 0x7c, 0x00, 0x00],
        0x4eae => [0x38, 0x44, 0x7c, 0x10, 0x7c, 0x44, 0x44, 0x38],
        0x6587 => [0x10, 0x10, 0x7c, 0x10, 0x28, 0x44, 0x82, 0x00],
        0x4ef6 => [0x10, 0x7c, 0x10, 0xfe, 0x10, 0x10, 0x12, 0x0c],
        0x547d => [0x10, 0x28, 0x44, 0xfe, 0x10, 0x7c, 0x44, 0x7c],
        0x4ee4 => [0x10, 0x28, 0x44, 0xfe, 0x10, 0x08, 0x10, 0x20],
        0x4fdd => [0x10, 0x28, 0x44, 0x7e, 0x48, 0x7c, 0x48, 0x44],
        0x7f16 => [0x24, 0x24, 0x7e, 0x10, 0x7c, 0x44, 0x7c, 0x44],
        0x8f91 => [0x42, 0x7e, 0x42, 0x7c, 0x44, 0x7c, 0x44, 0x7c],
        0x8bbe => [0x42, 0x22, 0x14, 0x08, 0x7e, 0x22, 0x14, 0x08],
        0x7f6e => [0x7e, 0x12, 0x7e, 0x12, 0x7e, 0x10, 0x10, 0x7e],
        0x89c6 => [0x42, 0x22, 0x14, 0x08, 0x7c, 0x44, 0x44, 0x38],
        0x9891 => [0x42, 0x7e, 0x42, 0x3c, 0x20, 0x3e, 0x22, 0x3c],
        0x97f3 => [0x10, 0x7c, 0x10, 0xfe, 0x10, 0x7c, 0x44, 0x7c],
        0x91cf => [0x7c, 0x44, 0x7c, 0x10, 0x7c, 0x54, 0x54, 0x7c],
        0x5f00 => [0x00, 0xfe, 0x20, 0x20, 0x3c, 0x22, 0x22, 0x00],
        0x59cb => [0x44, 0x24, 0x1e, 0x44, 0x7c, 0x44, 0x44, 0x38],
        0x63d0 => [0x10, 0x7c, 0x10, 0x7c, 0x54, 0x7c, 0x10, 0x0c],
        0x793a => [0x10, 0x7c, 0x10, 0xfe, 0x10, 0x28, 0x44, 0x82],
        0x7b26 => [0x10, 0x28, 0x44, 0xfe, 0x28, 0x44, 0x7c, 0x10],
        0x5e2e => [0x44, 0xfe, 0x44, 0x7c, 0x10, 0xfe, 0x10, 0x10],
        0x52a9 => [0x42, 0x7e, 0x42, 0x02, 0x02, 0x12, 0x22, 0x1c],
        0x5e94 => [0x08, 0x7e, 0x40, 0x5c, 0x52, 0x52, 0x22, 0x0c],
        0x7528 => [0x7c, 0x44, 0x44, 0x7c, 0x44, 0x44, 0x44, 0x44],
        0x76ee => [0x7c, 0x44, 0x44, 0x44, 0x44, 0x44, 0x7c, 0x00],
        0x5f55 => [0x10, 0x7c, 0x54, 0x7c, 0x10, 0x28, 0x44, 0x82],
        0x7c7b => [0x10, 0x54, 0x38, 0x10, 0x10, 0x28, 0x44, 0x82],
        0x578b => [0x44, 0x28, 0x10, 0x7c, 0x10, 0x10, 0x12, 0x0c],
        0x5b58 => [0x10, 0x28, 0x44, 0xfe, 0x10, 0x7c, 0x44, 0x44],
        0x8fd0 => [0x22, 0x12, 0x04, 0x7c, 0x10, 0x28, 0x44, 0x82],
        0x884c => [0x10, 0x7c, 0x10, 0xfe, 0x10, 0x10, 0x12, 0x0c],
        0x64ad => [0x10, 0x7c, 0x54, 0x7c, 0x10, 0x7c, 0x54, 0x7c],
        0x653e => [0x42, 0x22, 0x14, 0x08, 0x24, 0x52, 0x52, 0x8c],
        0x5668 => [0x7c, 0x44, 0x7c, 0x10, 0x7c, 0x44, 0x7c, 0x00],
        0x5173 => [0x10, 0x28, 0x44, 0xfe, 0x10, 0x10, 0x28, 0x44],
        0x673a => [0x44, 0x28, 0x10, 0x7c, 0x44, 0x54, 0x64, 0x44],
        0x9898 => [0x20, 0x3e, 0x2a, 0x3e, 0x20, 0x3e, 0x22, 0x3c],
        _ => {
            return None;
        },
    };
    assert(rows@ =~= small_rows(code)->Some_0);
    Some(rows)
}

/// The strokes of a character.
#[verifier::opaque]
pub open spec fn strokes_of(code: u32) -> Option<Seq<Stroke>> {
    match code {
        0x4e0a => Some(
            seq![
                down(6, 2, 11),
                across(1, 12, 11),
            ],
        ),
        0x4e0b => Some(
            seq![
                across(1, 12, 3),
                down(6, 3, 11),
                slant(7, 11, 4, 13),
            ],
        ),
        0x4e3b => Some(
            seq![
                across(5, 8, 1),
                down(6, 1, 12),
                across(1, 12, 6),
                across(1, 12, 12),
            ],
        ),
        0x4eae => Some(
            seq![
                across(1, 12, 1),
                across(2, 11, 4),
                across(3, 10, 6),
                across(3, 10, 8),
                down(3, 6, 9),
                down(9, 6, 9),
                across(2, 11, 12),
                down(3, 12, 14),
                down(9, 12, 14),
            ],
        ),
        0x6587 => Some(
            seq![
                across(3, 10, 1),
                down(6, 2, 4),
                slant(6, 5, 2, 13),
                slant(7, 5, 11, 13),
            ],
        ),
        0x4ef6 => Some(
            seq![
                slant(3, 1, 1, 5),
                down(2, 5, 13),
                across(6, 12, 2),
                across(5, 12, 6),
                down(8, 1, 13),
                across(6, 12, 10),
            ],
        ),
        0x547d => Some(
            seq![
                slant(6, 1, 3, 4),
                slant(7, 1, 10, 4),
                across(3, 10, 5),
                across(3, 10, 7),
                across(3, 10, 9),
                down(3, 7, 10),
                down(9, 7, 10),
                down(6, 10, 14),
            ],
        ),
        0x4ee4 => Some(
            seq![
                slant(6, 1, 3, 4),
                slant(7, 1, 10, 4),
                across(3, 10, 5),
                down(6, 5, 8),
                slant(6, 9, 4, 13),
                slant(6, 9, 9, 13),
            ],
        ),
        0x4fdd => Some(
            seq![
                slant(3, 1, 1, 5),
                down(2, 5, 13),
                across(6, 11, 2),
                across(6, 11, 4),
                down(6, 2, 5),
                down(10, 2, 5),
                across(6, 11, 7),
                across(6, 11, 9),
                down(6, 7, 10),
                down(10, 7, 10),
                down(8, 10, 13),
            ],
        ),
        0x7f16 => Some(
            seq![
                across(1, 4, 2),
                across(1, 4, 6),
                across(1, 4, 10),
                down(2, 2, 12),
                across(6, 12, 2),
                across(6, 12, 4),
                down(6, 2, 5),
                down(11, 2, 5),
                across(6, 12, 8),
                across(6, 12, 11),
                down(6, 8, 12),
                down(11, 8, 12),
                down(8, 2, 12),
            ],
        ),
        0x8f91 => Some(
            seq![
                across(1, 5, 2),
                across(1, 5, 7),
                across(1, 5, 12),
                down(2, 1, 13),
                across(8, 12, 2),
                across(8, 12, 7),
                across(8, 12, 10),
                down(8, 7, 11),
                down(11, 7, 11),
                down(9, 2, 13),
            ],
        ),
        0x8bbe => Some(
            seq![
                dot(1, 2),
                dot(2, 5),
                slant(2, 8, 1, 13),
                across(7, 12, 2),
                slant(7, 3, 10, 7),
                slant(10, 7, 7, 13),
                slant(10, 7, 12, 13),
            ],
        ),
        0x7f6e => Some(
            seq![
                across(2, 11, 1),
                across(2, 11, 4),
                down(2, 1, 5),
                down(10, 1, 5),
                across(2, 11, 8),
                down(6, 5, 13),
                across(1, 12, 12),
            ],
        ),
        0x89c6 => Some(
            seq![
                dot(1, 2),
                down(2, 5, 12),
                across(1, 5, 7),
                across(7, 12, 2),
                across(7, 12, 5),
                down(7, 2, 6),
                down(11, 2, 6),
                down(8, 6, 12),
                slant(8, 9, 5, 13),
                slant(9, 9, 12, 13),
            ],
        ),
        0x9891 => Some(
            seq![
                across(1, 4, 2),
                down(2, 2, 9),
                across(1, 4, 9),
                dot(4, 12),
                across(7, 12, 2),
                across(7, 12, 6),
                down(7, 2, 7),
                down(11, 2, 7),
                across(7, 11, 10),
                slant(8, 10, 6, 13),
                slant(9, 10, 12, 13),
            ],
        ),
        0x97f3 => Some(
            seq![
                across(2, 11, 1),
                across(3, 10, 4),
                down(6, 1, 4),
                across(2, 11, 7),
                across(2, 11, 12),
                down(2, 7, 13),
                down(10, 7, 13),
            ],
        ),
        0x91cf => Some(
            seq![
                across(2, 11, 1),
                across(2, 11, 4),
                down(2, 1, 5),
                down(10, 1, 5),
                across(1, 12, 7),
                down(2, 7, 13),
                down(6, 7, 13),
                down(10, 7, 13),
                across(1, 12, 12),
            ],
        ),
        0x5f00 => Some(
            seq![
                down(3, 1, 13),
                down(9, 1, 13),
                across(1, 12, 6),
            ],
        ),
        0x59cb => Some(
            seq![
                slant(3, 2, 1, 6),
                across(1, 5, 7),
                down(3, 5, 13),
                across(7, 12, 3),
                across(7, 12, 6),
                down(7, 3, 7),
                down(11, 3, 7),
                down(8, 7, 13),
                across(7, 12, 12),
            ],
        ),
        0x63d0 => Some(
            seq![
                across(1, 5, 3),
                across(1, 5, 7),
                down(2, 1, 13),
                across(7, 12, 2),
                across(7, 12, 5),
                across(7, 12, 8),
                down(7, 5, 9),
                down(11, 5, 9),
                down(8, 9, 13),
                across(7, 12, 12),
            ],
        ),
        0x793a => Some(
            seq![
                across(2, 11, 2),
                across(1, 12, 5),
                down(6, 2, 9),
                slant(6, 9, 3, 13),
                slant(7, 9, 10, 13),
            ],
        ),
        0x7b26 => Some(
            seq![
                slant(3, 1, 1, 4),
                slant(6, 1, 8, 4),
                slant(8, 1, 6, 4),
                slant(11, 1, 13, 4),
                down(6, 6, 13),
                across(7, 12, 6),
                slant(8, 8, 12, 13),
            ],
        ),
        0x76ee => Some(
            seq![
                across(2, 11, 1),
                across(2, 11, 12),
                down(2, 1, 13),
                down(10, 1, 13),
                across(3, 10, 5),
                across(3, 10, 9),
            ],
        ),
        0x5f55 => Some(
            seq![
                across(2, 11, 1),
                slant(2, 3, 6, 7),
                slant(11, 3, 7, 7),
                down(6, 7, 10),
                slant(6, 10, 3, 13),
                slant(7, 10, 10, 13),
            ],
        ),
        0x7c7b => Some(
            seq![
                down(6, 1, 8),
                across(2, 10, 4),
                slant(3, 1, 6, 4),
                slant(9, 1, 6, 4),
                slant(6, 8, 2, 13),
                slant(7, 8, 11, 13),
            ],
        ),
        0x578b => Some(
            seq![
                down(2, 1, 8),
                across(1, 4, 4),
                down(8, 1, 8),
                across(7, 10, 4),
                across(1, 12, 10),
                down(6, 10, 13),
                across(1, 12, 12),
            ],
        ),
        0x5b58 => Some(
            seq![
                across(1, 12, 2),
                slant(3, 2, 1, 6),
                down(6, 2, 13),
                across(3, 9, 7),
                slant(6, 7, 10, 13),
            ],
        ),
        0x64ad => Some(
            seq![
                across(1, 5, 3),
                across(1, 5, 7),
                down(2, 1, 13),
                across(7, 12, 2),
                across(7, 12, 6),
                across(7, 12, 9),
                across(7, 12, 12),
                down(8, 2, 13),
            ],
        ),
        0x653e => Some(
            seq![
                across(1, 5, 2),
                down(2, 2, 13),
                slant(3, 7, 5, 10),
                slant(5, 10, 3, 13),
                slant(8, 2, 7, 8),
                slant(8, 2, 12, 8),
                down(9, 8, 13),
            ],
        ),
        0x5668 => Some(
            seq![
                across(1, 4, 1),
                across(1, 4, 3),
                down(1, 1, 4),
                down(3, 1, 4),
                across(9, 12, 1),
                across(9, 12, 3),
                down(9, 1, 4),
                down(11, 1, 4),
                across(1, 4, 8),
                across(1, 4, 10),
                down(1, 8, 11),
                down(3, 8, 11),
                across(9, 12, 8),
                across(9, 12, 10),
                down(9, 8, 11),
                down(11, 8, 11),
                down(6, 4, 8),
                across(4, 9, 12),
            ],
        ),
        0x9898 => Some(
            seq![
                across(1, 5, 1),
                across(1, 5, 4),
                down(1, 1, 5),
                down(4, 1, 5),
                across(1, 5, 7),
                down(2, 7, 13),
                across(8, 12, 1),
                across(8, 12, 5),
                down(8, 1, 6),
                down(11, 1, 6),
                across(8, 12, 9),
                slant(9, 9, 7, 13),
                slant(10, 9, 12, 13),
            ],
        ),
        0x5ea6 => Some(
            seq![
                across(1, 12, 1),
                down(2, 1, 10),
                across(4, 10, 4),
                across(4, 10, 7),
                slant(7, 7, 3, 13),
                slant(8, 7, 11, 13),
            ],
        ),
        _ => None,
    }
}

/// The strokes of a character.
pub fn strokes(code: u32) -> (glyph: Option<Vec<Stroke>>)
    ensures
        match glyph {
            Some(list) => strokes_of(code) == Some(list@),
            None => strokes_of(code) is None,
        },
        glyph matches Some(list) ==> forall|i: int| 0 <= i < list@.len() ==> (#[trigger] list@[i]).wf(),
{
    reveal(strokes_of);
    let list: Vec<Stroke> = match code {
        0x4e0a => {
            vec![
                stroke_v(6, 2, 11),
                stroke_h(1, 12, 11),
            ]
        },
        0x4e0b => {
            vec![
                stroke_h(1, 12, 3),
                stroke_v(6, 3, 11),
                stroke_diag(7, 11, 4, 13),
            ]
        },
        0x4e3b => {
            vec![
                stroke_h(5, 8, 1),
                stroke_v(6, 1, 12),
                stroke_h(1, 12, 6),
                stroke_h(1, 12, 12),
            ]
        },
        0x4eae => {
            vec![
                stroke_h(1, 12, 1),
                stroke_h(2, 11, 4),
                stroke_h(3, 10, 6),
                stroke_h(3, 10, 8),
                stroke_v(3, 6, 9),
                stroke_v(9, 6, 9),
                stroke_h(2, 11, 12),
                stroke_v(3, 12, 14),
                stroke_v(9, 12, 14),
            ]
        },
        0x6587 => {
            vec![
                stroke_h(3, 10, 1),
                stroke_v(6, 2, 4),
                stroke_diag(6, 5, 2, 13),
                stroke_diag(7, 5, 11, 13),
            ]
        },
        0x4ef6 => {
            vec![
                stroke_diag(3, 1, 1, 5),
                stroke_v(2, 5, 13),
                stroke_h(6, 12, 2),
                stroke_h(5, 12, 6),
                stroke_v(8, 1, 13),
                stroke_h(6, 12, 10),
            ]
        },
        0x547d => {
            vec![
                stroke_diag(6, 1, 3, 4),
                stroke_diag(7, 1, 10, 4),
                stroke_h(3, 10, 5),
                stroke_h(3, 10, 7),
                stroke_h(3, 10, 9),
                stroke_v(3, 7, 10),
                stroke_v(9, 7, 10),
                stroke_v(6, 10, 14),
            ]
        },
        0x4ee4 => {
            vec![
                stroke_diag(6, 1, 3, 4),
                stroke_diag(7, 1, 10, 4),
                stroke_h(3, 10, 5),
                stroke_v(6, 5, 8),
                stroke_diag(6, 9, 4, 13),
                stroke_diag(6, 9, 9, 13),
            ]
        },
        0x4fdd => {
            vec![
                stroke_diag(3, 1, 1, 5),
                stroke_v(2, 5, 13),
                stroke_h(6, 11, 2),
                stroke_h(6, 11, 4),
                stroke_v(6, 2, 5),
                stroke_v(10, 2, 5),
                stroke_h(6, 11, 7),
                stroke_h(6, 11, 9),
                stroke_v(6, 7, 10),
                stroke_v(10, 7, 10),
                stroke_v(8, 10, 13),
            ]
        },
        0x7f16 => {
            vec![
                stroke_h(1, 4, 2),
                stroke_h(1, 4, 6),
                stroke_h(1, 4, 10),
                stroke_v(2, 2, 12),
                stroke_h(6, 12, 2),
                stroke_h(6, 12, 4),
                stroke_v(6, 2, 5),
                stroke_v(11, 2, 5),
                stroke_h(6, 12, 8),
                stroke_h(6, 12, 11),
                stroke_v(6, 8, 12),
                stroke_v(11, 8, 12),
                stroke_v(8, 2, 12),
            ]
        },
        0x8f91 => {
            vec![
                stroke_h(1, 5, 2),
                stroke_h(1, 5, 7),
                stroke_h(1, 5, 12),
                stroke_v(2, 1, 13),
                stroke_h(8, 12, 2),
                stroke_h(8, 12, 7),
                stroke_h(8, 12, 10),
                stroke_v(8, 7, 11),
                stroke_v(11, 7, 11),
                stroke_v(9, 2, 13),
            ]
        },
        0x8bbe => {
            vec![
                stroke_dot(1, 2),
                stroke_dot(2, 5),
                stroke_diag(2, 8, 1, 13),
                stroke_h(7, 12, 2),
                stroke_diag(7, 3, 10, 7),
                stroke_diag(10, 7, 7, 13),
                stroke_diag(10, 7, 12, 13),
            ]
        },
        0x7f6e => {
            vec![
                stroke_h(2, 11, 1),
                stroke_h(2, 11, 4),
                stroke_v(2, 1, 5),
                stroke_v(10, 1, 5),
                stroke_h(2, 11, 8),
                stroke_v(6, 5, 13),
                stroke_h(1, 12, 12),
            ]
        },
        0x89c6 => {
            vec![
                stroke_dot(1, 2),
                stroke_v(2, 5, 12),
                stroke_h(1, 5, 7),
                stroke_h(7, 12, 2),
                stroke_h(7, 12, 5),
                stroke_v(7, 2, 6),
                stroke_v(11, 2, 6),
                stroke_v(8, 6, 12),
                stroke_diag(8, 9, 5, 13),
                stroke_diag(9, 9, 12, 13),
            ]
        },
        0x9891 => {
            vec![
                stroke_h(1, 4, 2),
                stroke_v(2, 2, 9),
                stroke_h(1, 4, 9),
                stroke_dot(4, 12),
                stroke_h(7, 12, 2),
                stroke_h(7, 12, 6),
                stroke_v(7, 2, 7),
                stroke_v(11, 2, 7),
                stroke_h(7, 11, 10),
                stroke_diag(8, 10, 6, 13),
                stroke_diag(9, 10, 12, 13),
            ]
        },
        0x97f3 => {
            vec![
                stroke_h(2, 11, 1),
                stroke_h(3, 10, 4),
                stroke_v(6, 1, 4),
                stroke_h(2, 11, 7),
                stroke_h(2, 11, 12),
                stroke_v(2, 7, 13),
                stroke_v(10, 7, 13),
            ]
        },
        0x91cf => {
            vec![
                stroke_h(2, 11, 1),
                stroke_h(2, 11, 4),
                stroke_v(2, 1, 5),
                stroke_v(10, 1, 5),
                stroke_h(1, 12, 7),
                stroke_v(2, 7, 13),
                stroke_v(6, 7, 13),
                stroke_v(10, 7, 13),
                stroke_h(1, 12, 12),
            ]
        },
        0x5f00 => {
            vec![
                stroke_v(3, 1, 13),
                stroke_v(9, 1, 13),
                stroke_h(1, 12, 6),
            ]
        },
        0x59cb => {
            vec![
                stroke_diag(3, 2, 1, 6),
                stroke_h(1, 5, 7),
                stroke_v(3, 5, 13),
                stroke_h(7, 12, 3),
                stroke_h(7, 12, 6),
                stroke_v(7, 3, 7),
                stroke_v(11, 3, 7),
                stroke_v(8, 7, 13),
                stroke_h(7, 12, 12),
            ]
        },
        0x63d0 => {
            vec![
                stroke_h(1, 5, 3),
                stroke_h(1, 5, 7),
                stroke_v(2, 1, 13),
                stroke_h(7, 12, 2),
                stroke_h(7, 12, 5),
                stroke_h(7, 12, 8),
                stroke_v(7, 5, 9),
                stroke_v(11, 5, 9),
                stroke_v(8, 9, 13),
                stroke_h(7, 12, 12),
            ]
        },
        0x793a => {
            vec![
                stroke_h(2, 11, 2),
                stroke_h(1, 12, 5),
                stroke_v(6, 2, 9),
                stroke_diag(6, 9, 3, 13),
                stroke_diag(7, 9, 10, 13),
            ]
        },
        0x7b26 => {
            vec![
                stroke_diag(3, 1, 1, 4),
                stroke_diag(6, 1, 8, 4),
                stroke_diag(8, 1, 6, 4),
                stroke_diag(11, 1, 13, 4),
                stroke_v(6, 6, 13),
                stroke_h(7, 12, 6),
                stroke_diag(8, 8, 12, 13),
            ]
        },
        0x76ee => {
            vec![
                stroke_h(2, 11, 1),
                stroke_h(2, 11, 12),
                stroke_v(2, 1, 13),
                stroke_v(10, 1, 13),
                stroke_h(3, 10, 5),
                stroke_h(3, 10, 9),
            ]
        },
        0x5f55 => {
            vec![
                stroke_h(2, 11, 1),
                stroke_diag(2, 3, 6, 7),
                stroke_diag(11, 3, 7, 7),
                stroke_v(6, 7, 10),
                stroke_diag(6, 10, 3, 13),
                stroke_diag(7, 10, 10, 13),
            ]
        },
        0x7c7b => {
            vec![
                stroke_v(6, 1, 8),
                stroke_h(2, 10, 4),
                stroke_diag(3, 1, 6, 4),
                stroke_diag(9, 1, 6, 4),
                stroke_diag(6, 8, 2, 13),
                stroke_diag(7, 8, 11, 13),
            ]
        },
        0x578b => {
            vec![
                stroke_v(2, 1, 8),
                stroke_h(1, 4, 4),
                stroke_v(8, 1, 8),
                stroke_h(7, 10, 4),
                stroke_h(1, 12, 10),
                stroke_v(6, 10, 13),
                stroke_h(1, 12, 12),
            ]
        },
        0x5b58 => {
            vec![
                stroke_h(1, 12, 2),
                stroke_diag(3, 2, 1, 6),
                stroke_v(6, 2, 13),
                stroke_h(3, 9, 7),
                stroke_diag(6, 7, 10, 13),
            ]
        },
        0x64ad => {
            vec![
                stroke_h(1, 5, 3),
                stroke_h(1, 5, 7),
                stroke_v(2, 1, 13),
                stroke_h(7, 12, 2),
                stroke_h(7, 12, 6),
                stroke_h(7, 12, 9),
                stroke_h(7, 12, 12),
                stroke_v(8, 2, 13),
            ]
        },
        0x653e => {
            vec![
                stroke_h(1, 5, 2),
                stroke_v(2, 2, 13),
                stroke_diag(3, 7, 5, 10),
                stroke_diag(5, 10, 3, 13),
                stroke_diag(8, 2, 7, 8),
                stroke_diag(8, 2, 12, 8),
                stroke_v(9, 8, 13),
            ]
        },
        0x5668 => {
            vec![
                stroke_h(1, 4, 1),
                stroke_h(1, 4, 3),
                stroke_v(1, 1, 4),
                stroke_v(3, 1, 4),
                stroke_h(9, 12, 1),
                stroke_h(9, 12, 3),
                stroke_v(9, 1, 4),
                stroke_v(11, 1, 4),
                stroke_h(1, 4, 8),
                stroke_h(1, 4, 10),
                stroke_v(1, 8, 11),
                stroke_v(3, 8, 11),
                stroke_h(9, 12, 8),
                stroke_h(9, 12, 10),
                stroke_v(9, 8, 11),
                stroke_v(11, 8, 11),
                stroke_v(6, 4, 8),
                stroke_h(4, 9, 12),
            ]
        },
        0x9898 => {
            vec![
                stroke_h(1, 5, 1),
                stroke_h(1, 5, 4),
                stroke_v(1, 1, 5),
                stroke_v(4, 1, 5),
                stroke_h(1, 5, 7),
                stroke_v(2, 7, 13),
                stroke_h(8, 12, 1),
                stroke_h(8, 12, 5),
                stroke_v(8, 1, 6),
                stroke_v(11, 1, 6),
                stroke_h(8, 12, 9),
                stroke_diag(9, 9, 7, 13),
                stroke_diag(10, 9, 12, 13),
            ]
        },
        0x5ea6 => {
            vec![
                stroke_h(1, 12, 1),
                stroke_v(2, 1, 10),
                stroke_h(4, 10, 4),
                stroke_h(4, 10, 7),
                stroke_diag(7, 7, 3, 13),
                stroke_diag(8, 7, 11, 13),
            ]
        },
        _ => {
            return None;
        },
    };
    assert(list@ =~= strokes_of(code)->Some_0);
    Some(list)
}

/// Whether a character has strokes.
pub fn has_stroke_glyph(code: u32) -> (has: bool)
    ensures
        has == strokes_of(code) is Some,
{
    strokes(code).is_some()
}

} // verus!
