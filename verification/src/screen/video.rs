//! The mode of the display that the machine was started with.
use crate::bytes;
use vstd::prelude::*;

verus! {

pub const BOOT_VIDEO_INFO_MAGIC: u32 = 0x5256_4944;

pub const MULTIBOOT2_BOOTLOADER_MAGIC: u64 = 0x36d7_6289;

pub const MULTIBOOT2_FRAMEBUFFER_TAG: u32 = 8;

pub const MULTIBOOT2_FRAMEBUFFER_RGB: u8 = 1;

pub const MAX_MULTIBOOT_INFO_SIZE: u32 = 0x10_0000;

/// Where the size and the place of one part of a colour are in a pixel.
#[derive(Clone, Copy, Debug, PartialEq, Eq, Structural)]
pub struct Channel {
    pub size: u8,
    pub shift: u8,
}

/// What found the mode.
#[derive(Clone, Copy, Debug, PartialEq, Eq, Structural)]
pub enum VideoSource {
    Unknown,
    Bios,
    Multiboot2,
}

/// A mode of the display. The address is a physical one.
#[derive(Clone, Copy, Debug, PartialEq, Eq, Structural)]
pub struct VideoMode {
    pub address: u64,
    pub width: usize,
    pub height: usize,
    pub pitch: usize,
    pub bpp: u8,
    pub red: Channel,
    pub green: Channel,
    pub blue: Channel,
    pub source: VideoSource,
}

/// What the first stage of the start leaves behind on the display.
#[derive(Clone, Copy, Debug, PartialEq, Eq, Structural)]
pub struct BootVideoInfo {
    pub magic: u32,
    pub framebuffer_addr: u32,
    pub width: u16,
    pub height: u16,
    pub pitch: u16,
    pub bpp: u8,
    pub red_mask_size: u8,
    pub red_field_position: u8,
    pub green_mask_size: u8,
    pub green_field_position: u8,
    pub blue_mask_size: u8,
    pub blue_field_position: u8,
}

/// How many bytes a pixel takes.
pub open spec fn pixel_bytes(bpp: u8) -> int {
    if bpp == 24 {
        3
    } else if bpp == 32 {
        4
    } else {
        1
    }
}

impl VideoMode {
    /// The sizes fit together: a row of pixels fits in a row of the display.
    pub open spec fn wf(self) -> bool {
        &&& 1 <= self.width <= 640
        &&& 1 <= self.height <= 480
        &&& self.width * pixel_bytes(self.bpp) <= self.pitch
        &&& self.pitch <= 0xffff_ffff
    }

    /// The mode of a display that nothing is known of.
    pub open spec fn standard() -> Self {
        VideoMode {
            address: 0xa_0000,
            width: 320,
            height: 200,
            pitch: 320,
            bpp: 8,
            red: Channel { size: 0, shift: 16 },
            green: Channel { size: 0, shift: 8 },
            blue: Channel { size: 0, shift: 0 },
            source: VideoSource::Unknown,
        }
    }
}

/// The mode of a display that nothing is known of.
pub fn default_video_mode() -> (mode: VideoMode)
    ensures
        mode == VideoMode::standard(),
        mode.wf(),
{
    VideoMode {
        address: 0xa_0000,
        width: 320,
        height: 200,
        pitch: 320,
        bpp: 8,
        red: Channel { size: 0, shift: 16 },
        green: Channel { size: 0, shift: 8 },
        blue: Channel { size: 0, shift: 0 },
        source: VideoSource::Unknown,
    }
}

/// A size within its limits; a size of 31 bits or more counts as none.
pub open spec fn limited(value: int, limit: int) -> int {
    if value >= 0x8000_0000 || value < 1 {
        1
    } else if value > limit {
        limit
    } else {
        value
    }
}

fn limit_size(value: u32, limit: u32) -> (size: usize)
    requires
        limit >= 1,
    ensures
        size == limited(value as int, limit as int),
        1 <= size <= limit,
{
    if value >= 0x8000_0000 || value < 1 {
        1
    } else if value > limit {
        limit as usize
    } else {
        value as usize
    }
}

/// The mode that the first stage of the start leaves behind, if it is one.
pub open spec fn bios_mode(info: BootVideoInfo) -> Option<VideoMode> {
    let width = limited(info.width as int, 640);
    let row = width * pixel_bytes(info.bpp);
    if info.magic != BOOT_VIDEO_INFO_MAGIC || !(info.bpp == 8 || info.bpp == 24 || info.bpp == 32) {
        None
    } else {
        Some(
            VideoMode {
                address: info.framebuffer_addr as u64,
                width: width as usize,
                height: limited(info.height as int, 480) as usize,
                pitch: (if info.pitch > row {
                    info.pitch as int
                } else {
                    row
                }) as usize,
                bpp: info.bpp,
                red: Channel { size: info.red_mask_size, shift: info.red_field_position },
                green: Channel { size: info.green_mask_size, shift: info.green_field_position },
                blue: Channel { size: info.blue_mask_size, shift: info.blue_field_position },
                source: VideoSource::Bios,
            },
        )
    }
}

/// The mode that a framebuffer tag describes, if it is one that can be used: colours of
/// three or four bytes, rows that fit, and an end below four gigabytes. An end that does
/// not fit in 64 bits counts as below.
pub open spec fn tag_mode(image: Seq<u8>, at: int) -> Option<VideoMode> {
    let address = bytes::le64(image, at + 8);
    let pitch = bytes::le32(image, at + 16);
    let width = bytes::le32(image, at + 20);
    let height = bytes::le32(image, at + 24);
    let bpp = image[at + 28];
    let row = width * (bpp / 8);
    let end = address + pitch * height;
    if image[at + 29] == MULTIBOOT2_FRAMEBUFFER_RGB && (bpp == 24 || bpp == 32) && width != 0
        && height != 0 && (pitch >= row || pitch == u32::MAX) && (end <= 0x1_0000_0000 || end
        > u64::MAX) {
        Some(
            VideoMode {
                address,
                width: limited(width as int, 640) as usize,
                height: limited(height as int, 480) as usize,
                pitch: pitch as usize,
                bpp,
                red: Channel { size: image[at + 33], shift: image[at + 32] },
                green: Channel { size: image[at + 35], shift: image[at + 34] },
                blue: Channel { size: image[at + 37], shift: image[at + 36] },
                source: VideoSource::Multiboot2,
            },
        )
    } else {
        None
    }
}

/// The mode that the tags of a start describe, from an offset on.
pub open spec fn tags_mode(image: Seq<u8>, total: int, offset: int) -> Option<VideoMode>
    decreases total - offset + 8,
{
    let kind = bytes::le32(image, offset);
    let size = bytes::le32(image, offset + 4);
    let next = (offset + size + 7) / 8 * 8;
    if offset < 0 || offset + 8 > total || size < 8 || offset + size > total || kind == 0 {
        None
    } else if kind == MULTIBOOT2_FRAMEBUFFER_TAG && size >= 38 && tag_mode(image, offset) is Some {
        tag_mode(image, offset)
    } else if next <= offset {
        None
    } else {
        tags_mode(image, total, next)
    }
}

/// The mode that the information of a start at an address describes.
pub open spec fn multiboot2_mode(information: u64, image: Seq<u8>) -> Option<VideoMode> {
    let total = bytes::le32(image, 0);
    if information == 0 || information % 8 != 0 || total < 16 || total > MAX_MULTIBOOT_INFO_SIZE {
        None
    } else {
        tags_mode(image, total as int, 8)
    }
}

/// The mode that the first stage of the start leaves behind, if it is one.
fn read_boot_info(info: BootVideoInfo) -> (mode: Option<VideoMode>)
    ensures
        mode == bios_mode(info),
        mode matches Some(found) ==> found.wf(),
{
    if info.magic != BOOT_VIDEO_INFO_MAGIC || !(info.bpp == 8 || info.bpp == 24 || info.bpp == 32) {
        return None;
    }
    let width: usize = limit_size(info.width as u32, 640);
    let count: usize = if info.bpp == 24 {
        3
    } else if info.bpp == 32 {
        4
    } else {
        1
    };
    let row: usize = width * count;
    let given: usize = info.pitch as usize;
    let pitch: usize = if given > row {
        given
    } else {
        row
    };
    Some(
        VideoMode {
            address: info.framebuffer_addr as u64,
            width,
            height: limit_size(info.height as u32, 480),
            pitch,
            bpp: info.bpp,
            red: Channel { size: info.red_mask_size, shift: info.red_field_position },
            green: Channel { size: info.green_mask_size, shift: info.green_field_position },
            blue: Channel { size: info.blue_mask_size, shift: info.blue_field_position },
            source: VideoSource::Bios,
        },
    )
}

/// The mode that a framebuffer tag describes, if it can be used.
fn read_tag(image: &[u8], at: usize) -> (mode: Option<VideoMode>)
    requires
        at + 38 <= image@.len(),
    ensures
        mode == tag_mode(image@, at as int),
        mode matches Some(found) ==> found.wf(),
{
    let length: usize = image.len();
    assert(at + 38 <= length);
    let address: u64 = bytes::read_le64(image, at + 8);
    let pitch: u32 = bytes::read_le32(image, at + 16);
    let width: u32 = bytes::read_le32(image, at + 20);
    let height: u32 = bytes::read_le32(image, at + 24);
    let bpp: u8 = image[at + 28];
    let kind: u8 = image[at + 29];
    assert(0 <= pitch * height <= 0xffff_ffff * 0xffff_ffff) by (nonlinear_arith)
        requires
            0 <= pitch <= 0xffff_ffff,
            0 <= height <= 0xffff_ffff,
    ;
    let size: u64 = pitch as u64 * height as u64;
    let below = match address.checked_add(size) {
        Some(end) => end <= 0x1_0000_0000,
        None => true,
    };
    if kind != MULTIBOOT2_FRAMEBUFFER_RGB || !(bpp == 24 || bpp == 32) || width == 0 || height == 0
        || !below {
        return None;
    }
    let row: u64 = if bpp == 24 {
        width as u64 * 3
    } else {
        width as u64 * 4
    };
    if (pitch as u64) < row && pitch != u32::MAX {
        return None;
    }
    Some(
        VideoMode {
            address,
            width: limit_size(width, 640),
            height: limit_size(height, 480),
            pitch: pitch as usize,
            bpp,
            red: Channel { size: image[at + 33], shift: image[at + 32] },
            green: Channel { size: image[at + 35], shift: image[at + 34] },
            blue: Channel { size: image[at + 37], shift: image[at + 36] },
            source: VideoSource::Multiboot2,
        },
    )
}

/// The mode that the information of a start at an address describes; the bytes there must
/// be as many as the first four of them say.
pub fn load_multiboot2_video_info(information: u64, image: &[u8]) -> (mode: Option<VideoMode>)
    requires
        image@.len() >= 4,
        bytes::le32(image@, 0) <= image@.len(),
    ensures
        mode == multiboot2_mode(information, image@),
        mode matches Some(found) ==> found.wf(),
{
    if information == 0 || information % 8 != 0 {
        return None;
    }
    let total: usize = bytes::read_le32(image, 0) as usize;
    if total < 16 || total > MAX_MULTIBOOT_INFO_SIZE as usize {
        return None;
    }
    let mut offset: usize = 8;
    while offset + 8 <= total
        invariant
            8 <= offset <= total + 8,
            information != 0 && information % 8 == 0,
            16 <= total,
            total == bytes::le32(image@, 0),
            total <= 0x10_0000,
            total <= image@.len(),
            tags_mode(image@, total as int, offset as int) == tags_mode(image@, total as int, 8),
        decreases total + 8 - offset,
    {
        let kind: u32 = bytes::read_le32(image, offset);
        let size: usize = bytes::read_le32(image, offset + 4) as usize;
        if size < 8 || size > total - offset || kind == 0 {
            return None;
        }
        if kind == MULTIBOOT2_FRAMEBUFFER_TAG && size >= 38 {
            let mode = read_tag(image, offset);
            if mode.is_some() {
                return mode;
            }
        }
        offset = (offset + size + 7) / 8 * 8;
    }
    None
}

/// The mode of the display and whether it has graphics.
pub open spec fn boot_mode(protocol: u64, information: u64, image: Seq<u8>, info: BootVideoInfo) -> (
    VideoMode,
    bool,
) {
    let found = if protocol == MULTIBOOT2_BOOTLOADER_MAGIC {
        multiboot2_mode(information, image)
    } else {
        bios_mode(info)
    };
    match found {
        Some(mode) => (mode, true),
        None => (VideoMode::standard(), false),
    }
}

/// The mode of the display that the machine was started with, and whether it has graphics.
pub fn load_boot_video_info(protocol: u64, information: u64, image: &[u8], info: BootVideoInfo) -> (
    loaded: (VideoMode, bool))
    requires
        protocol == MULTIBOOT2_BOOTLOADER_MAGIC ==> image@.len() >= 4 && bytes::le32(image@, 0)
            <= image@.len(),
    ensures
        loaded == boot_mode(protocol, information, image@, info),
        loaded.0.wf(),
{
    let found = if protocol == MULTIBOOT2_BOOTLOADER_MAGIC {
        load_multiboot2_video_info(information, image)
    } else {
        read_boot_info(info)
    };
    match found {
        Some(mode) => (mode, true),
        None => (default_video_mode(), false),
    }
}

/// The name of what found the mode.
pub open spec fn source_name(source: VideoSource) -> &'static str {
    match source {
        VideoSource::Bios => "BIOS/VBE",
        VideoSource::Multiboot2 => "Multiboot2",
        VideoSource::Unknown => "none",
    }
}

pub fn video_source(mode: VideoMode) -> (name: &'static str)
    ensures
        name == source_name(mode.source),
{
    match mode.source {
        VideoSource::Bios => "BIOS/VBE",
        VideoSource::Multiboot2 => "Multiboot2",
        VideoSource::Unknown => "none",
    }
}

pub fn screen_bpp(mode: VideoMode) -> (bpp: u8)
    ensures
        bpp == mode.bpp,
{
    mode.bpp
}

} // verus!
