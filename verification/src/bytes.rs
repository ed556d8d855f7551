//! Integers in byte images, little and big endian.
use vstd::prelude::*;

verus! {

/// The little-endian 16-bit integer at `at`.
pub open spec fn le16(image: Seq<u8>, at: int) -> u16 {
    (image[at] + image[at + 1] * 0x100) as u16
}

/// The little-endian 32-bit integer at `at`.
pub open spec fn le32(image: Seq<u8>, at: int) -> u32 {
    (image[at] + image[at + 1] * 0x100 + image[at + 2] * 0x1_0000 + image[at + 3]
        * 0x100_0000) as u32
}

/// The little-endian 64-bit integer at `at`.
pub open spec fn le64(image: Seq<u8>, at: int) -> u64 {
    (le32(image, at) + le32(image, at + 4) * 0x1_0000_0000) as u64
}

/// The big-endian 32-bit integer at `at`.
pub open spec fn be32(image: Seq<u8>, at: int) -> u32 {
    (image[at] * 0x100_0000 + image[at + 1] * 0x1_0000 + image[at + 2] * 0x100 + image[at
        + 3]) as u32
}

/// The big-endian 64-bit integer at `at`.
pub open spec fn be64(image: Seq<u8>, at: int) -> u64 {
    (be32(image, at) * 0x1_0000_0000 + be32(image, at + 4)) as u64
}

pub fn read_le16(image: &[u8], at: usize) -> (value: u16)
    requires
        at + 2 <= image@.len(),
    ensures
        value == le16(image@, at as int),
{
    image[at] as u16 + image[at + 1] as u16 * 0x100
}

pub fn read_le32(image: &[u8], at: usize) -> (value: u32)
    requires
        at + 4 <= image@.len(),
    ensures
        value == le32(image@, at as int),
{
    image[at] as u32 + image[at + 1] as u32 * 0x100 + image[at + 2] as u32 * 0x1_0000 + image[at
        + 3] as u32 * 0x100_0000
}

pub fn read_le64(image: &[u8], at: usize) -> (value: u64)
    requires
        at + 8 <= image@.len(),
    ensures
        value == le64(image@, at as int),
{
    assert(at + 8 <= image.len());
    read_le32(image, at) as u64 + read_le32(image, at + 4) as u64 * 0x1_0000_0000
}

pub fn read_be32(image: &[u8], at: usize) -> (value: u32)
    requires
        at + 4 <= image@.len(),
    ensures
        value == be32(image@, at as int),
{
    image[at] as u32 * 0x100_0000 + image[at + 1] as u32 * 0x1_0000 + image[at + 2] as u32 * 0x100
        + image[at + 3] as u32
}

pub fn read_be64(image: &[u8], at: usize) -> (value: u64)
    requires
        at + 8 <= image@.len(),
    ensures
        value == be64(image@, at as int),
{
    assert(at + 8 <= image.len());
    read_be32(image, at) as u64 * 0x1_0000_0000 + read_be32(image, at + 4) as u64
}

} // verus!
