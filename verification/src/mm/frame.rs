//! The allocator of physical page frames: a bitmap, divided among memory nodes.
use super::address::{PhysicalAddress, PAGE_SIZE};
use crate::arch::Platform;
use crate::bits;
use crate::boot::memory_map;
use crate::boot::memory_map::{MemoryMap, MemoryRegion, MemoryRegionKind};
use crate::counting;
use vstd::prelude::*;
use vstd::std_specs::bits::*;

verus! {

/// The frames of the machine that has the most of them.
pub const FRAME_COUNT: usize = 0x40_0000;

pub const BITMAP_WORDS: usize = 0x1_0000;

pub const MAX_NUMA_NODES: usize = 8;

pub const MAX_NUMA_CPUS: usize = 64;

pub const LOW_MEMORY_END: u64 = 0x10_0000;

pub const EARLY_STACK_START: u64 = 0xff_0000;

pub const EARLY_STACK_END: u64 = 0x100_1000;

#[derive(Clone, Copy, Debug, PartialEq, Eq, Structural)]
pub enum FrameError {
    NotInitialized,
    OutOfMemory,
    InvalidFrame,
    DoubleFree,
    InvalidTopology,
}

#[derive(Clone, Copy, Debug, PartialEq, Eq, Structural)]
pub struct FrameStats {
    pub free_frames: usize,
    pub numa_nodes: usize,
    pub local_allocations: u64,
    pub fallback_allocations: u64,
}

#[derive(Clone, Copy, Debug, PartialEq, Eq, Structural)]
pub struct NumaRange {
    pub node: usize,
    pub start: u64,
    pub end: u64,
}

/// A memory node: its frames, the word of the bitmap where its next search starts,
/// and how many of its frames are free.
#[derive(Clone, Copy, Debug, PartialEq, Eq, Structural)]
pub struct NumaNode {
    pub online: bool,
    pub start_frame: usize,
    pub end_frame: usize,
    pub next_word: usize,
    pub free_frames: usize,
}

impl NumaNode {
    pub open spec fn spec_empty() -> Self {
        NumaNode { online: false, start_frame: 0, end_frame: 0, next_word: 0, free_frames: 0 }
    }

    pub fn empty() -> (node: Self)
        ensures
            node == Self::spec_empty(),
    {
        NumaNode { online: false, start_frame: 0, end_frame: 0, next_word: 0, free_frames: 0 }
    }

    pub open spec fn contains(self, frame: int) -> bool {
        self.online && self.start_frame <= frame < self.end_frame
    }

    pub open spec fn first_word(self) -> int {
        self.start_frame as int / 64
    }

    pub open spec fn last_word(self) -> int {
        (self.end_frame + 63) / 64
    }

    /// The word where the next search starts.
    pub open spec fn cursor(self) -> int {
        if self.next_word < self.first_word() {
            self.first_word()
        } else if self.next_word >= self.last_word() {
            self.last_word() - 1
        } else {
            self.next_word as int
        }
    }

    /// When a search comes to `word`: from the cursor up, then from the start.
    pub open spec fn turn(self, word: int) -> int {
        if word >= self.cursor() {
            word - self.cursor()
        } else {
            word - self.cursor() + self.last_word() - self.first_word()
        }
    }
}

/// How many frames a machine can use.
pub open spec fn frame_limit(platform: Platform) -> int {
    platform.spec_memory_limit() as int / 4096
}

/// The state of the allocator: which frames are free and which are allocated. A
/// frame that is neither is reserved.
#[verifier::ext_equal]
pub struct FrameView {
    pub platform: Platform,
    pub initialized: bool,
    pub free: Set<int>,
    pub allocated: Set<int>,
    pub nodes: Seq<NumaNode>,
    pub local_allocations: u64,
    pub fallback_allocations: u64,
}

/// The free frames of the first `count` nodes.
pub open spec fn node_free(nodes: Seq<NumaNode>, count: nat) -> nat
    decreases count,
{
    if count == 0 {
        0
    } else {
        node_free(nodes, (count - 1) as nat) + nodes[count - 1].free_frames as nat
    }
}

/// How many of the first `count` nodes are online.
pub open spec fn online_count(nodes: Seq<NumaNode>, count: nat) -> nat
    decreases count,
{
    if count == 0 {
        0
    } else {
        online_count(nodes, (count - 1) as nat) + (if nodes[count - 1].online {
            1nat
        } else {
            0nat
        })
    }
}

/// A value that grows by one up to the limit of its type.
pub open spec fn counted(value: u64) -> u64 {
    if value == u64::MAX {
        value
    } else {
        (value + 1) as u64
    }
}

impl FrameView {
    /// How many frames are free.
    pub open spec fn free_count(self) -> nat {
        counting::count_in(self.free, 0, FRAME_COUNT as int)
    }

    /// Nodes keep their books right: their ranges lie in memory and do not overlap,
    /// each counts its free frames, all free frames belong to nodes, and so does
    /// every allocated frame.
    pub open spec fn nodes_consistent(self) -> bool {
        &&& self.nodes.len() == 8
        &&& forall|n: int|
            0 <= n < 8 && (#[trigger] self.nodes[n]).online ==> self.nodes[n].start_frame
                < self.nodes[n].end_frame <= FRAME_COUNT && self.nodes[n].free_frames
                == counting::count_in(
                self.free,
                self.nodes[n].start_frame as int,
                self.nodes[n].end_frame as int,
            )
        &&& forall|n: int|
            0 <= n < 8 && !(#[trigger] self.nodes[n]).online ==> self.nodes[n].free_frames == 0
        &&& forall|m: int, n: int|
            0 <= m < n < 8 && (#[trigger] self.nodes[m]).online && (#[trigger] self.nodes[n]).online
                ==> self.nodes[m].end_frame <= self.nodes[n].start_frame || self.nodes[n].end_frame
                <= self.nodes[m].start_frame
        &&& self.initialized ==> node_free(self.nodes, 8) == self.free_count()
        &&& forall|f: int| #[trigger]
            self.allocated.contains(f) ==> exists|n: int|
                0 <= n < 8 && (#[trigger] self.nodes[n]).contains(f)
    }

    /// A frame is never both free and allocated, frames exist, and none of low memory, and
    /// none that the machine cannot use, is given out.
    pub open spec fn frames_consistent(self) -> bool {
        &&& forall|f: int| #[trigger]
            self.allocated.contains(f) ==> 0 <= f < FRAME_COUNT && !self.free.contains(f)
        &&& forall|f: int| #[trigger] self.free.contains(f) ==> 0 <= f < FRAME_COUNT
        &&& self.initialized ==> forall|f: int| #[trigger]
            self.free.contains(f) ==> f * 4096 >= LOW_MEMORY_END && f < frame_limit(self.platform)
        &&& self.initialized ==> forall|f: int| #[trigger]
            self.allocated.contains(f) ==> f * 4096 >= LOW_MEMORY_END && f < frame_limit(
                self.platform,
            )
    }

    pub open spec fn consistent(self) -> bool {
        self.nodes_consistent() && self.frames_consistent()
    }

    /// `frame` is the one that a search of node `node` finds first.
    pub open spec fn is_first_free(self, node: int, frame: int) -> bool {
        let n = self.nodes[node];
        &&& n.contains(frame)
        &&& self.free.contains(frame)
        &&& forall|other: int| #[trigger]
            self.free.contains(other) && n.contains(other) ==> n.turn(frame / 64) < n.turn(
                other / 64,
            ) || (frame / 64 == other / 64 && frame <= other)
    }

    /// `node` is the first node from `preferred` on, in a round, that has a free
    /// frame.
    pub open spec fn serves(self, preferred: int, node: int) -> bool {
        &&& 0 <= node < 8
        &&& self.nodes[node].online
        &&& self.nodes[node].free_frames > 0
        &&& forall|d: int|
            0 <= d < (node - preferred) % 8 ==> (#[trigger] self.nodes[(preferred + d)
                % 8]).free_frames == 0
    }

    /// After `frame` of node `node` was allocated.
    pub open spec fn taken(self, node: int, frame: int, local: bool) -> Self {
        let n = self.nodes[node];
        FrameView {
            platform: self.platform,
            initialized: self.initialized,
            free: self.free.remove(frame),
            allocated: self.allocated.insert(frame),
            nodes: self.nodes.update(
                node,
                NumaNode {
                    next_word: (frame / 64) as usize,
                    free_frames: (n.free_frames - 1) as usize,
                    ..n
                },
            ),
            local_allocations: if local {
                counted(self.local_allocations)
            } else {
                self.local_allocations
            },
            fallback_allocations: if local {
                self.fallback_allocations
            } else {
                counted(self.fallback_allocations)
            },
        }
    }

    /// After `frame` of node `node` was given back.
    pub open spec fn given_back(self, node: int, frame: int) -> Self {
        let n = self.nodes[node];
        FrameView {
            free: self.free.insert(frame),
            allocated: self.allocated.remove(frame),
            nodes: self.nodes.update(
                node,
                NumaNode {
                    next_word: if n.next_word <= frame / 64 {
                        n.next_word
                    } else {
                        (frame / 64) as usize
                    },
                    free_frames: (n.free_frames + 1) as usize,
                    ..n
                },
            ),
            ..self
        }
    }
}

/// The nodes of a machine without memory nodes of its own: one holds all frames.
pub open spec fn single_node(platform: Platform, free_frames: nat) -> Seq<NumaNode> {
    Seq::new(
        8,
        |n: int|
            if n == 0 {
                NumaNode {
                    online: true,
                    start_frame: 0,
                    end_frame: frame_limit(platform) as usize,
                    next_word: 0,
                    free_frames: free_frames as usize,
                }
            } else {
                NumaNode::spec_empty()
            },
    )
}

/// Whether a range of addresses touches a frame.
pub open spec fn touches(start: u64, end: u64, frame: int) -> bool {
    start as int / 4096 <= frame < (end + 4095) / 4096
}

/// Whether a range of addresses holds a frame whole.
pub open spec fn holds_whole(start: u64, end: u64, frame: int) -> bool {
    (start + 4095) / 4096 <= frame < end as int / 4096
}

pub open spec fn is_memory(kind: MemoryRegionKind) -> bool {
    kind == MemoryRegionKind::Usable || kind == MemoryRegionKind::Bootloader
}

/// One of the first `count` regions is memory and holds `frame` whole.
pub open spec fn offered(regions: Seq<MemoryRegion>, count: int, frame: int) -> bool {
    exists|i: int|
        0 <= i < count && is_memory((#[trigger] regions[i]).kind) && holds_whole(
            regions[i].start,
            regions[i].end,
            frame,
        )
}

/// One of the first `count` regions is no memory and touches `frame`.
pub open spec fn withheld(regions: Seq<MemoryRegion>, count: int, frame: int) -> bool {
    exists|i: int|
        0 <= i < count && !is_memory((#[trigger] regions[i]).kind) && touches(
            regions[i].start,
            regions[i].end,
            frame,
        )
}

/// Whether `frame` can be allocated on a machine with this map, whose kernel lies
/// from `kernel_start` to `kernel_end`: memory holds it whole, and nothing that is
/// no memory, low, kernel or boot data touches it, nor the early stack where there is one.
pub open spec fn available(
    map: memory_map::MemoryMapView,
    kernel_start: u64,
    kernel_end: u64,
    frame: int,
) -> bool {
    &&& 0 <= frame < frame_limit(map.platform)
    &&& offered(map.regions, map.regions.len() as int, frame)
    &&& !withheld(map.regions, map.regions.len() as int, frame)
    &&& !touches(0, LOW_MEMORY_END, frame)
    &&& !touches(kernel_start, kernel_end, frame)
    &&& map.platform is X86_64 ==> !touches(EARLY_STACK_START, EARLY_STACK_END, frame)
    &&& (map.boot_data matches Some(range) ==> !touches(range.0, range.1, frame))
}

/// The state after initialization.
pub open spec fn initialized_view(
    map: memory_map::MemoryMapView,
    kernel_start: u64,
    kernel_end: u64,
) -> FrameView {
    let free = Set::new(|f: int| available(map, kernel_start, kernel_end, f));
    FrameView {
        platform: map.platform,
        initialized: true,
        free,
        allocated: Set::empty(),
        nodes: single_node(map.platform, counting::count_in(free, 0, FRAME_COUNT as int)),
        local_allocations: 0,
        fallback_allocations: 0,
    }
}

pub struct BitmapFrameAllocator {
    // A set bit means unavailable; zero means allocatable.
    bitmap: Vec<u64>,
    allocated: Vec<u64>,
    platform: Platform,
    free_frames: usize,
    initialized: bool,
    nodes: [NumaNode; 8],
    local_allocations: u64,
    fallback_allocations: u64,
}

/// Whether the bit of `frame` is set.
pub open spec fn marked(words: Seq<u64>, frame: int) -> bool {
    0 <= frame < FRAME_COUNT && bits::bit64(words[frame / 64], frame % 64)
}

/// The frames whose bit is set.
pub open spec fn marked_set(words: Seq<u64>) -> Set<int> {
    Set::new(|f: int| marked(words, f))
}

/// The frames whose bit is clear.
pub open spec fn clear_set(words: Seq<u64>) -> Set<int> {
    Set::new(|f: int| 0 <= f < FRAME_COUNT && !marked(words, f))
}

proof fn lemma_mask_raw(shift: u64, width: u64, j: u64)
    by (bit_vector)
    requires
        width < 64,
        shift < 64,
        shift + width <= 64,
        j < 64,
    ensures
        width > 0 ==> (((((((1u64 << width) - 1) as u64) << shift) >> j) & 1 == 1) <==> (shift <= j
            && j < shift + width)),
        1u64 << width >= 1,
{
}

/// The mask of `width` bits from `shift` on.
proof fn lemma_mask(shift: u64, width: u64)
    requires
        0 < width < 64,
        shift + width <= 64,
    ensures
        1u64 << width >= 1,
        forall|j: int|
            0 <= j < 64 ==> (#[trigger] bits::bit64(
                (((1u64 << width) - 1) as u64) << shift,
                j,
            ) <==> shift <= j < shift + width),
{
    lemma_mask_raw(shift, width, 0);
    assert forall|j: int| 0 <= j < 64 implies (#[trigger] bits::bit64(
        (((1u64 << width) - 1) as u64) << shift,
        j,
    ) <==> shift <= j < shift + width) by {
        lemma_mask_raw(shift, width, j as u64);
    }
}

proof fn lemma_masked_raw(x: u64, mask: u64, j: u64)
    by (bit_vector)
    requires
        j < 64,
    ensures
        (((x | mask) >> j) & 1 == 1) <==> ((x >> j) & 1 == 1 || (mask >> j) & 1 == 1),
        (((x & !mask) >> j) & 1 == 1) <==> ((x >> j) & 1 == 1 && !((mask >> j) & 1 == 1)),
        (((!x & mask) >> j) & 1 == 1) <==> (!((x >> j) & 1 == 1) && (mask >> j) & 1 == 1),
        (((x & mask) >> j) & 1 == 1) <==> ((x >> j) & 1 == 1 && (mask >> j) & 1 == 1),
        (0u64 >> j) & 1 == 0,
        (0xffff_ffff_ffff_ffffu64 >> j) & 1 == 1,
{
}

proof fn lemma_masked(x: u64, mask: u64, j: int)
    requires
        0 <= j < 64,
    ensures
        bits::bit64(x | mask, j) <==> (bits::bit64(x, j) || bits::bit64(mask, j)),
        bits::bit64(x & !mask, j) <==> (bits::bit64(x, j) && !bits::bit64(mask, j)),
        bits::bit64(!x & mask, j) <==> (!bits::bit64(x, j) && bits::bit64(mask, j)),
        bits::bit64(x & mask, j) <==> (bits::bit64(x, j) && bits::bit64(mask, j)),
        !bits::bit64(0, j),
        bits::bit64(u64::MAX, j),
{
    lemma_masked_raw(x, mask, j as u64);
}

proof fn lemma_range_raw(first: u64, last: u64, j: u64)
    by (bit_vector)
    requires
        first < 64,
        last < 64,
        j < 64,
    ensures
        (((0xffff_ffff_ffff_ffffu64 << first) >> j) & 1 == 1) <==> first <= j,
        (((((1u64 << last) - 1) as u64) >> j) & 1 == 1) <==> j < last,
        1u64 << last >= 1,
{
}

/// The mask of the frames of a word that lie from `start_frame` up to `end_frame`.
fn frame_word_mask(word: usize, start_frame: usize, end_frame: usize) -> (mask: u64)
    requires
        word < BITMAP_WORDS,
        start_frame <= FRAME_COUNT,
        end_frame <= FRAME_COUNT,
    ensures
        forall|j: int|
            0 <= j < 64 ==> (#[trigger] bits::bit64(mask, j) <==> start_frame <= word * 64 + j
                < end_frame),
{
    let word_start: usize = word * 64;
    let first: usize = if start_frame <= word_start {
        0
    } else if start_frame - word_start >= 64 {
        64
    } else {
        start_frame - word_start
    };
    let last: usize = if end_frame <= word_start {
        0
    } else if end_frame - word_start >= 64 {
        64
    } else {
        end_frame - word_start
    };
    if first >= last {
        assert forall|j: int| 0 <= j < 64 implies !#[trigger] bits::bit64(0, j) by {
            lemma_masked(0, 0, j);
        }
        return 0;
    }
    let low: u64 = if first == 0 {
        u64::MAX
    } else {
        u64::MAX << (first as u64)
    };
    proof {
        lemma_range_raw(first as u64, if last < 64 {
            last as u64
        } else {
            0
        }, 0);
    }
    let high: u64 = if last == 64 {
        u64::MAX
    } else {
        (1u64 << (last as u64)) - 1
    };
    assert forall|j: int| 0 <= j < 64 implies (#[trigger] bits::bit64(low & high, j) <==> start_frame
        <= word * 64 + j < end_frame) by {
        lemma_masked(low, high, j);
        lemma_range_raw(first as u64, if last < 64 {
            last as u64
        } else {
            0
        }, j as u64);
    }
    low & high
}

/// The frames from `start_frame` up to `end_frame` that are clear in the bitmap.
fn count_clear_range(bitmap: &Vec<u64>, start_frame: usize, end_frame: usize) -> (count: usize)
    requires
        bitmap@.len() == BITMAP_WORDS,
        start_frame <= end_frame <= FRAME_COUNT,
    ensures
        count == counting::count_in(clear_set(bitmap@), start_frame as int, end_frame as int),
        count <= FRAME_COUNT,
{
    count_range(bitmap, start_frame, end_frame, false)
}

/// The frames from `start_frame` up to `end_frame` that are set in the bitmap.
fn count_set_range(bitmap: &Vec<u64>, start_frame: usize, end_frame: usize) -> (count: usize)
    requires
        bitmap@.len() == BITMAP_WORDS,
        start_frame <= end_frame <= FRAME_COUNT,
    ensures
        count == counting::count_in(marked_set(bitmap@), start_frame as int, end_frame as int),
        count <= FRAME_COUNT,
{
    count_range(bitmap, start_frame, end_frame, true)
}

/// The frames in a range whose bit is `set`.
fn count_range(bitmap: &Vec<u64>, start_frame: usize, end_frame: usize, set: bool) -> (count: usize)
    requires
        bitmap@.len() == BITMAP_WORDS,
        start_frame <= end_frame <= FRAME_COUNT,
    ensures
        count == counting::count_in(
            if set {
                marked_set(bitmap@)
            } else {
                clear_set(bitmap@)
            },
            start_frame as int,
            end_frame as int,
        ),
        count <= FRAME_COUNT,
{
    let first_word: usize = start_frame / 64;
    let last_word: usize = (end_frame + 63) / 64;
    let ghost all = if set {
        marked_set(bitmap@)
    } else {
        clear_set(bitmap@)
    };
    let ghost inside = Set::new(|f: int| all.contains(f) && start_frame <= f < end_frame);
    let mut count: usize = 0;
    let mut word: usize = first_word;
    while word < last_word
        invariant
            first_word == start_frame / 64,
            last_word == (end_frame + 63) / 64,
            start_frame <= end_frame <= FRAME_COUNT,
            bitmap@.len() == BITMAP_WORDS,
            first_word <= word,
            first_word <= last_word ==> word <= last_word,
            all == (if set {
                marked_set(bitmap@)
            } else {
                clear_set(bitmap@)
            }),
            inside == Set::new(|f: int| all.contains(f) && start_frame <= f < end_frame),
            count == counting::count_in(inside, first_word * 64, word * 64),
            count <= (word - first_word) * 64,
        decreases last_word - word,
    {
        let mask: u64 = frame_word_mask(word, start_frame, end_frame);
        let value: u64 = bitmap[word];
        let chosen: u64 = if set {
            value & mask
        } else {
            !value & mask
        };
        proof {
            assert forall|j: int| 0 <= j < 64 implies (#[trigger] bits::bit64(chosen, j)
                <==> inside.contains(word * 64 + j)) by {
                lemma_masked(value, mask, j);
                let f = word * 64 + j;
                assert(f / 64 == word && f % 64 == j);
            }
            counting::lemma_count_word(chosen, inside, word * 64, 64);
            counting::lemma_count_split(inside, first_word * 64, word * 64, word * 64 + 64);
        }
        count += bits::count_ones(chosen) as usize;
        word += 1;
    }
    proof {
        let lo = first_word * 64;
        let hi = last_word * 64;
        if first_word < last_word {
            counting::lemma_count_split(inside, lo as int, start_frame as int, hi as int);
            counting::lemma_count_split(inside, start_frame as int, end_frame as int, hi as int);
            counting::lemma_count_zero(inside, lo as int, start_frame as int);
            counting::lemma_count_zero(inside, end_frame as int, hi as int);
        }
        counting::lemma_count_same(all, inside, start_frame as int, end_frame as int);
        counting::lemma_count_bound(all, start_frame as int, end_frame as int);
    }
    count
}

/// All the set bits of a bitmap.
fn count_all_set(bitmap: &Vec<u64>) -> (count: usize)
    requires
        bitmap@.len() == BITMAP_WORDS,
    ensures
        count == counting::count_in(marked_set(bitmap@), 0, FRAME_COUNT as int),
        count <= FRAME_COUNT,
{
    count_set_range(bitmap, 0, FRAME_COUNT)
}

/// Sets the bit of a frame.
fn mark(words: &mut Vec<u64>, frame: usize)
    requires
        old(words)@.len() == BITMAP_WORDS,
        frame < FRAME_COUNT,
    ensures
        final(words)@.len() == BITMAP_WORDS,
        marked_set(final(words)@) == marked_set(old(words)@).insert(frame as int),
        clear_set(final(words)@) == clear_set(old(words)@).remove(frame as int),
{
    let word: usize = frame / 64;
    let bit: usize = frame % 64;
    let value: u64 = words[word];
    words.set(word, value | (1u64 << (bit as u64)));
    proof {
        assert forall|f: int| 0 <= f < FRAME_COUNT implies marked(words@, f) == (f == frame || marked(
            old(words)@,
            f,
        )) by {
            bits::lemma_set_clear64(value, bit as int, f % 64);
        }
        assert(marked_set(words@) =~= marked_set(old(words)@).insert(frame as int));
        assert(clear_set(words@) =~= clear_set(old(words)@).remove(frame as int));
    }
}

/// Clears the bit of a frame.
fn unmark(words: &mut Vec<u64>, frame: usize)
    requires
        old(words)@.len() == BITMAP_WORDS,
        frame < FRAME_COUNT,
    ensures
        final(words)@.len() == BITMAP_WORDS,
        marked_set(final(words)@) == marked_set(old(words)@).remove(frame as int),
        clear_set(final(words)@) == clear_set(old(words)@).insert(frame as int),
{
    let word: usize = frame / 64;
    let bit: usize = frame % 64;
    let value: u64 = words[word];
    words.set(word, value & !(1u64 << (bit as u64)));
    proof {
        assert forall|f: int| 0 <= f < FRAME_COUNT implies marked(words@, f) == (f != frame && marked(
            old(words)@,
            f,
        )) by {
            bits::lemma_set_clear64(value, bit as int, f % 64);
        }
        assert(marked_set(words@) =~= marked_set(old(words)@).remove(frame as int));
        assert(clear_set(words@) =~= clear_set(old(words)@).insert(frame as int));
    }
}

/// A bitmap of clear or set bits.
fn filled(value: u64) -> (words: Vec<u64>)
    ensures
        words@.len() == BITMAP_WORDS,
        forall|w: int| 0 <= w < BITMAP_WORDS ==> #[trigger] words@[w] == value,
{
    let mut words: Vec<u64> = Vec::with_capacity(BITMAP_WORDS);
    while words.len() < BITMAP_WORDS
        invariant
            words@.len() <= BITMAP_WORDS,
            forall|w: int| 0 <= w < words@.len() ==> #[trigger] words@[w] == value,
        decreases BITMAP_WORDS - words.len(),
    {
        words.push(value);
    }
    words
}

/// Marks the frames from `first` up to `last` as unavailable, or as available.
fn apply_range(bitmap: &mut Vec<u64>, first: usize, last: usize, unavailable: bool)
    requires
        old(bitmap)@.len() == BITMAP_WORDS,
        first <= last <= FRAME_COUNT,
    ensures
        final(bitmap)@.len() == BITMAP_WORDS,
        forall|f: int|
            0 <= f < FRAME_COUNT ==> #[trigger] marked(final(bitmap)@, f) == (if first <= f < last {
                unavailable
            } else {
                marked(old(bitmap)@, f)
            }),
{
    let mut cursor: usize = first;
    while cursor < last
        invariant
            bitmap@.len() == BITMAP_WORDS,
            first <= cursor <= last <= FRAME_COUNT,
            forall|f: int|
                0 <= f < FRAME_COUNT ==> #[trigger] marked(bitmap@, f) == (if first <= f < cursor {
                    unavailable
                } else {
                    marked(old(bitmap)@, f)
                }),
        decreases last - cursor,
    {
        let word: usize = cursor / 64;
        let next: usize = (word + 1) * 64;
        let word_end: usize = if next <= last {
            next
        } else {
            last
        };
        let width: usize = word_end - cursor;
        let shift: usize = cursor % 64;
        proof {
            if width < 64 {
                lemma_mask(shift as u64, width as u64);
            }
        }
        let mask: u64 = if width == 64 {
            u64::MAX
        } else {
            ((1u64 << (width as u64)) - 1) << (shift as u64)
        };
        let ghost before = bitmap@;
        let current: u64 = bitmap[word];
        let changed: u64 = if unavailable {
            current | mask
        } else {
            current & !mask
        };
        bitmap.set(word, changed);
        proof {
            assert forall|f: int| 0 <= f < FRAME_COUNT implies #[trigger] marked(bitmap@, f) == (if first
                <= f < word_end {
                unavailable
            } else {
                marked(old(bitmap)@, f)
            }) by {
                assert(marked(before, f) == (if first <= f < cursor {
                    unavailable
                } else {
                    marked(old(bitmap)@, f)
                }));
                lemma_masked(current, mask, f % 64);
                if f / 64 == word {
                    assert(bits::bit64(mask, f % 64) <==> cursor <= f < word_end);
                }
            }
        }
        cursor = word_end;
    }
}

impl View for BitmapFrameAllocator {
    type V = FrameView;

    closed spec fn view(&self) -> FrameView {
        FrameView {
            platform: self.platform,
            initialized: self.initialized,
            free: clear_set(self.bitmap@),
            allocated: marked_set(self.allocated@),
            nodes: self.nodes@,
            local_allocations: self.local_allocations,
            fallback_allocations: self.fallback_allocations,
        }
    }
}

proof fn lemma_node_free_update(a: Seq<NumaNode>, b: Seq<NumaNode>, node: int, count: nat)
    requires
        a.len() == 8,
        b.len() == 8,
        0 <= node < 8,
        count <= 8,
        forall|n: int| 0 <= n < 8 && n != node ==> #[trigger] a[n] == b[n],
    ensures
        node < count ==> node_free(b, count) == node_free(a, count) - a[node].free_frames
            + b[node].free_frames,
        node >= count ==> node_free(b, count) == node_free(a, count),
    decreases count,
{
    if count > 0 {
        lemma_node_free_update(a, b, node, (count - 1) as nat);
    }
}

/// Allocating a free frame keeps the books right.
pub proof fn lemma_taken_consistent(view: FrameView, node: int, frame: int, local: bool)
    requires
        view.consistent(),
        view.initialized,
        0 <= node < 8,
        view.nodes[node].contains(frame),
        view.free.contains(frame),
    ensures
        view.taken(node, frame, local).consistent(),
        view.nodes[node].free_frames > 0,
        view.free_count() > 0,
        view.taken(node, frame, local).free_count() == view.free_count() - 1,
{
    let after = view.taken(node, frame, local);
    assert forall|n: int| 0 <= n < 8 && view.nodes[n].online implies counting::count_in(
        view.free,
        #[trigger] view.nodes[n].start_frame as int,
        view.nodes[n].end_frame as int,
    ) == counting::count_in(
        after.free,
        view.nodes[n].start_frame as int,
        view.nodes[n].end_frame as int,
    ) + (if n == node {
        1nat
    } else {
        0nat
    }) by {
        counting::lemma_count_remove(
            view.free,
            frame,
            view.nodes[n].start_frame as int,
            view.nodes[n].end_frame as int,
        );
        if n < node {
            assert(view.nodes[n].online && view.nodes[node].online);
        } else if n > node {
            assert(view.nodes[node].online && view.nodes[n].online);
        }
    }
    counting::lemma_count_remove(view.free, frame, 0, FRAME_COUNT as int);
    assert(view.nodes[node].start_frame as int <= frame);
    lemma_node_free_update(view.nodes, after.nodes, node, 8);
    assert forall|f: int| #[trigger] after.allocated.contains(f) implies exists|n: int|
        0 <= n < 8 && (#[trigger] after.nodes[n]).contains(f) by {
        if f == frame {
            assert(after.nodes[node].contains(f));
        } else {
            assert(view.allocated.contains(f));
            let n = choose|n: int| 0 <= n < 8 && (#[trigger] view.nodes[n]).contains(f);
            assert(after.nodes[n].contains(f));
        }
    }
}

/// Giving back an allocated frame keeps the books right.
pub proof fn lemma_given_back_consistent(view: FrameView, node: int, frame: int)
    requires
        view.consistent(),
        view.initialized,
        0 <= node < 8,
        view.nodes[node].contains(frame),
        view.allocated.contains(frame),
    ensures
        view.given_back(node, frame).consistent(),
        view.nodes[node].free_frames < FRAME_COUNT,
        view.free_count() < FRAME_COUNT,
        view.given_back(node, frame).free_count() == view.free_count() + 1,
{
    let after = view.given_back(node, frame);
    counting::lemma_count_bound(after.free, 0, FRAME_COUNT as int);
    assert forall|n: int| 0 <= n < 8 && view.nodes[n].online implies counting::count_in(
        after.free,
        #[trigger] view.nodes[n].start_frame as int,
        view.nodes[n].end_frame as int,
    ) == counting::count_in(
        view.free,
        view.nodes[n].start_frame as int,
        view.nodes[n].end_frame as int,
    ) + (if n == node {
        1nat
    } else {
        0nat
    }) by {
        counting::lemma_count_insert(
            view.free,
            frame,
            view.nodes[n].start_frame as int,
            view.nodes[n].end_frame as int,
        );
        if n < node {
            assert(view.nodes[n].online && view.nodes[node].online);
        } else if n > node {
            assert(view.nodes[node].online && view.nodes[n].online);
        }
    }
    assert(view.nodes[node].start_frame as int <= frame);
    counting::lemma_count_bound(
        after.free,
        view.nodes[node].start_frame as int,
        view.nodes[node].end_frame as int,
    );
    counting::lemma_count_insert(view.free, frame, 0, FRAME_COUNT as int);
    lemma_node_free_update(view.nodes, after.nodes, node, 8);
    assert forall|f: int| #[trigger] after.allocated.contains(f) implies exists|n: int|
        0 <= n < 8 && (#[trigger] after.nodes[n]).contains(f) by {
        assert(view.allocated.contains(f));
        let n = choose|n: int| 0 <= n < 8 && (#[trigger] view.nodes[n]).contains(f);
        assert(after.nodes[n].contains(f));
    }
}

proof fn lemma_node_free_zero(nodes: Seq<NumaNode>, count: nat)
    requires
        nodes.len() == 8,
        count <= 8,
        forall|n: int| 0 <= n < count ==> (#[trigger] nodes[n]).free_frames == 0,
    ensures
        node_free(nodes, count) == 0,
    decreases count,
{
    if count > 0 {
        lemma_node_free_zero(nodes, (count - 1) as nat);
        assert(nodes[count - 1].free_frames == 0);
    }
}

impl BitmapFrameAllocator {
    pub closed spec fn wf(&self) -> bool {
        &&& self@.consistent()
        &&& self.bitmap@.len() == BITMAP_WORDS
        &&& self.allocated@.len() == BITMAP_WORDS
        &&& self.initialized ==> self.free_frames == self@.free_count()
        &&& !self.initialized ==> self.free_frames == 0
    }

    /// The frames and nodes of an allocator in order agree with each other.
    pub proof fn lemma_consistent(&self)
        requires
            self.wf(),
        ensures
            self@.consistent(),
    {
    }

    pub fn new() -> (allocator: Self)
        ensures
            allocator.wf(),
            !allocator@.initialized,
            allocator@.platform is X86_64,
            allocator@.allocated == Set::<int>::empty(),
            allocator@.nodes == Seq::new(8, |n: int| NumaNode::spec_empty()),
            allocator@.local_allocations == 0,
            allocator@.fallback_allocations == 0,
    {
        let node = NumaNode::empty();
        let allocator = Self {
            bitmap: filled(0),
            allocated: filled(0),
            platform: Platform::X86_64,
            free_frames: 0,
            initialized: false,
            nodes: [node; 8],
            local_allocations: 0,
            fallback_allocations: 0,
        };
        proof {
            assert forall|f: int| 0 <= f < FRAME_COUNT implies !marked(allocator.allocated@, f) by {
                bits::lemma_zero64(0);
            }
            assert(allocator@.allocated =~= Set::<int>::empty());
            assert(allocator@.nodes =~= Seq::new(8, |n: int| NumaNode::spec_empty()));
        }
        allocator
    }

    /// Takes over the memory map. What is not memory wins where a broken map
    /// overlaps.
    pub fn initialize(&mut self, map: &MemoryMap, kernel_start: u64, kernel_end: u64)
        ensures
            final(self).wf(),
            final(self)@ == initialized_view(map@, kernel_start, kernel_end),
    {
        let platform = map.platform();
        let limit: usize = (platform.memory_limit() / PAGE_SIZE) as usize;
        self.platform = platform;
        self.bitmap = filled(u64::MAX);
        self.allocated = filled(0);
        self.local_allocations = 0;
        self.fallback_allocations = 0;
        let regions = map.regions();
        proof {
            bits::lemma_zero64(0);
            assert forall|f: int| 0 <= f < FRAME_COUNT implies #[trigger] marked(self.bitmap@, f) by {
                assert(self.bitmap@[f / 64] == u64::MAX);
            }
            assert forall|f: int| 0 <= f < FRAME_COUNT implies !#[trigger] marked(
                self.allocated@,
                f,
            ) by {
                assert(self.allocated@[f / 64] == 0);
            }
        }
        let mut index: usize = 0;
        while index < regions.len()
            invariant
                index <= regions@.len(),
                self.platform == platform,
                self.bitmap@.len() == BITMAP_WORDS,
                self.allocated@.len() == BITMAP_WORDS,
                forall|f: int| 0 <= f < FRAME_COUNT ==> !#[trigger] marked(self.allocated@, f),
                forall|f: int|
                    0 <= f < FRAME_COUNT ==> (#[trigger] marked(self.bitmap@, f) <==> !offered(
                        regions@,
                        index as int,
                        f,
                    )),
                self.local_allocations == 0,
                self.fallback_allocations == 0,
            decreases regions@.len() - index,
        {
            let region: MemoryRegion = regions[index];
            let ghost before = self.bitmap@;
            let memory = match region.kind {
                MemoryRegionKind::Usable => true,
                MemoryRegionKind::Bootloader => true,
                _ => false,
            };
            if memory {
                self.mark_range(region.start, region.end, false);
            }
            proof {
                assert forall|f: int| 0 <= f < FRAME_COUNT implies (#[trigger] marked(
                    self.bitmap@,
                    f,
                ) <==> !offered(regions@, index + 1, f)) by {
                    assert(marked(before, f) <==> !offered(regions@, index as int, f));
                    if offered(regions@, index as int, f) {
                        let i = choose|i: int|
                            0 <= i < index && is_memory((#[trigger] regions@[i]).kind)
                                && holds_whole(regions@[i].start, regions@[i].end, f);
                        assert(0 <= i < index + 1 && is_memory(regions@[i].kind));
                    }
                    if memory && holds_whole(region.start, region.end, f) {
                        assert(regions@[index as int] == region);
                    }
                    if offered(regions@, index + 1, f) && !offered(regions@, index as int, f) {
                        let i = choose|i: int|
                            0 <= i < index + 1 && is_memory((#[trigger] regions@[i]).kind)
                                && holds_whole(regions@[i].start, regions@[i].end, f);
                        assert(i == index);
                    }
                }
            }
            index += 1;
        }
        let ghost offer = self.bitmap@;
        let mut index: usize = 0;
        proof {
            assert forall|f: int| 0 <= f < FRAME_COUNT implies (#[trigger] marked(self.bitmap@, f)
                <==> !offered(regions@, regions@.len() as int, f) || withheld(regions@, 0, f)) by {
                assert(!withheld(regions@, 0, f));
            }
        }
        while index < regions.len()
            invariant
                index <= regions@.len(),
                self.platform == platform,
                self.bitmap@.len() == BITMAP_WORDS,
                self.allocated@.len() == BITMAP_WORDS,
                forall|f: int| 0 <= f < FRAME_COUNT ==> !#[trigger] marked(self.allocated@, f),
                forall|f: int|
                    0 <= f < FRAME_COUNT ==> (#[trigger] marked(self.bitmap@, f) <==> !offered(
                        regions@,
                        regions@.len() as int,
                        f,
                    ) || withheld(regions@, index as int, f)),
                self.local_allocations == 0,
                self.fallback_allocations == 0,
            decreases regions@.len() - index,
        {
            let region: MemoryRegion = regions[index];
            let ghost before = self.bitmap@;
            let memory = match region.kind {
                MemoryRegionKind::Usable => true,
                MemoryRegionKind::Bootloader => true,
                _ => false,
            };
            if !memory {
                self.mark_range(region.start, region.end, true);
            }
            proof {
                assert forall|f: int| 0 <= f < FRAME_COUNT implies (#[trigger] marked(
                    self.bitmap@,
                    f,
                ) <==> !offered(regions@, regions@.len() as int, f) || withheld(
                    regions@,
                    index + 1,
                    f,
                )) by {
                    assert(marked(before, f) <==> !offered(regions@, regions@.len() as int, f)
                        || withheld(regions@, index as int, f));
                    if withheld(regions@, index as int, f) {
                        let i = choose|i: int|
                            0 <= i < index && !is_memory((#[trigger] regions@[i]).kind) && touches(
                                regions@[i].start,
                                regions@[i].end,
                                f,
                            );
                        assert(0 <= i < index + 1 && !is_memory(regions@[i].kind));
                    }
                    if !memory && touches(region.start, region.end, f) {
                        assert(regions@[index as int] == region);
                    }
                    if withheld(regions@, index + 1, f) && !withheld(regions@, index as int, f) {
                        let i = choose|i: int|
                            0 <= i < index + 1 && !is_memory((#[trigger] regions@[i]).kind)
                                && touches(regions@[i].start, regions@[i].end, f);
                        assert(i == index);
                    }
                }
            }
            index += 1;
        }
        self.mark_range(0, LOW_MEMORY_END, true);
        self.mark_range(kernel_start, kernel_end, true);
        if platform == Platform::X86_64 {
            self.mark_range(EARLY_STACK_START, EARLY_STACK_END, true);
        }
        if let Some((start, end)) = map.boot_data_range() {
            self.mark_range(start, end, true);
        }
        let free_frames: usize = count_clear_range(&self.bitmap, 0, FRAME_COUNT);
        self.free_frames = free_frames;
        let empty = NumaNode::empty();
        self.nodes = [empty; 8];
        self.nodes[0] =
        NumaNode {
            online: true,
            start_frame: 0,
            end_frame: limit,
            next_word: 0,
            free_frames,
        };
        self.initialized = true;
        proof {
            let goal = initialized_view(map@, kernel_start, kernel_end);
            assert forall|f: int| self@.free.contains(f) <==> goal.free.contains(f) by {
                if 0 <= f < FRAME_COUNT {
                    assert(self@.free.contains(f) <==> !marked(self.bitmap@, f));
                    if offered(regions@, regions@.len() as int, f) {
                        let i = choose|i: int|
                            0 <= i < regions@.len() && is_memory((#[trigger] regions@[i]).kind)
                                && holds_whole(regions@[i].start, regions@[i].end, f);
                        assert(regions@[i].end <= platform.spec_memory_limit());
                        assert(f < limit);
                    }
                }
            }
            assert(self@.free =~= goal.free);
            assert(self@.allocated =~= goal.allocated);
            assert(self@.nodes =~= goal.nodes);
            reveal_with_fuel(node_free, 9);
            counting::lemma_count_split(self@.free, 0, limit as int, FRAME_COUNT as int);
            counting::lemma_count_zero(self@.free, limit as int, FRAME_COUNT as int);
        }
    }

    /// Marks the frames that a range touches as unavailable, or those that it holds
    /// whole as available.
    fn mark_range(&mut self, start: u64, end: u64, unavailable: bool)
        requires
            old(self).bitmap@.len() == BITMAP_WORDS,
        ensures
            forall|f: int|
                0 <= f < FRAME_COUNT ==> #[trigger] marked(final(self).bitmap@, f) == (if unavailable {
                    touches(start, end, f) || marked(old(self).bitmap@, f)
                } else {
                    !holds_whole(start, end, f) && marked(old(self).bitmap@, f)
                }),
            final(self).bitmap@.len() == BITMAP_WORDS,
            final(self).platform == old(self).platform,
            final(self).allocated == old(self).allocated,
            final(self).local_allocations == old(self).local_allocations,
            final(self).fallback_allocations == old(self).fallback_allocations,
    {
        let first: u64 = if unavailable {
            start / PAGE_SIZE
        } else {
            start.saturating_add(PAGE_SIZE - 1) / PAGE_SIZE
        };
        let last: u64 = if unavailable {
            end.saturating_add(PAGE_SIZE - 1) / PAGE_SIZE
        } else {
            end / PAGE_SIZE
        };
        let first: usize = if first <= FRAME_COUNT as u64 {
            first as usize
        } else {
            FRAME_COUNT
        };
        let last: usize = if last <= FRAME_COUNT as u64 {
            last as usize
        } else {
            FRAME_COUNT
        };
        if first >= last {
            return ;
        }
        apply_range(&mut self.bitmap, first, last, unavailable);
    }

    /// Takes the frame of node `node` that a search finds first.
    fn allocate_from_node(&mut self, node: usize, local: bool) -> (frame: usize)
        requires
            old(self).wf(),
            old(self)@.initialized,
            node < 8,
            old(self)@.nodes[node as int].online,
            old(self)@.nodes[node as int].free_frames > 0,
        ensures
            final(self).wf(),
            frame < FRAME_COUNT,
            old(self)@.is_first_free(node as int, frame as int),
            final(self)@ == (FrameView {
                local_allocations: old(self)@.local_allocations,
                fallback_allocations: old(self)@.fallback_allocations,
                ..old(self)@.taken(node as int, frame as int, local)
            }),
    {
        let topology: NumaNode = self.nodes[node];
        let ghost view = self@;
        assert(view.nodes[node as int] == topology);
        let first_word: usize = topology.start_frame / 64;
        let last_word: usize = (topology.end_frame + 63) / 64;
        let word_count: usize = last_word - first_word;
        let cursor: usize = if topology.next_word < first_word {
            first_word
        } else if topology.next_word >= last_word {
            last_word - 1
        } else {
            topology.next_word
        };
        assert(cursor == topology.cursor());
        let mut step: usize = 0;
        while step < word_count
            invariant
                *self == *old(self),
                self.wf(),
                view == self@,
                view.initialized,
                node < 8,
                topology == view.nodes[node as int],
                topology.online,
                topology.start_frame < topology.end_frame <= FRAME_COUNT,
                first_word == topology.first_word(),
                last_word == topology.last_word(),
                cursor == topology.cursor(),
                first_word <= cursor < last_word,
                word_count == last_word - first_word,
                step <= word_count,
                forall|f: int| #[trigger]
                    view.free.contains(f) && topology.contains(f) ==> topology.turn(f / 64) >= step,
            decreases word_count - step,
        {
            let ahead: usize = cursor - first_word + step;
            let word: usize = if ahead < word_count {
                first_word + ahead
            } else {
                first_word + (ahead - word_count)
            };
            assert(topology.turn(word as int) == step);
            let allowed: u64 = frame_word_mask(word, topology.start_frame, topology.end_frame);
            let value: u64 = self.bitmap[word];
            let available: u64 = !value & allowed;
            proof {
                assert forall|j: int| 0 <= j < 64 implies (#[trigger] bits::bit64(available, j)
                    <==> view.free.contains(word * 64 + j) && topology.contains(word * 64 + j)) by {
                    lemma_masked(value, allowed, j);
                    let f = word * 64 + j;
                    assert(f / 64 == word && f % 64 == j);
                }
                bits::lemma_zero64(available);
            }
            if available != 0 {
                let bit: usize = available.trailing_zeros() as usize;
                proof {
                    axiom_u64_trailing_zeros(available);
                    assert(bits::bit64(available, bit as int));
                }
                let frame: usize = word * 64 + bit;
                proof {
                    assert(frame / 64 == word);
                    assert forall|other: int| #[trigger]
                        view.free.contains(other) && topology.contains(other) implies topology.turn(
                        frame as int / 64,
                    ) < topology.turn(other / 64) || (frame as int / 64 == other / 64 && frame
                        <= other) by {
                        assert(topology.turn(other / 64) >= step);
                        if topology.turn(other / 64) == step {
                            assert(other / 64 == word);
                            let j = other % 64;
                            assert(other == word * 64 + j);
                            assert(bits::bit64(available, j));
                            let k = j as u64;
                            if j < bit {
                                assert((available >> k) & 1u64 == 0u64);
                            }
                        }
                    }
                    assert(view.is_first_free(node as int, frame as int));
                    lemma_taken_consistent(view, node as int, frame as int, local);
                }
                mark(&mut self.bitmap, frame);
                mark(&mut self.allocated, frame);
                self.nodes[node] =
                NumaNode {
                    online: topology.online,
                    start_frame: topology.start_frame,
                    end_frame: topology.end_frame,
                    next_word: word,
                    free_frames: topology.free_frames - 1,
                };
                self.free_frames = self.free_frames - 1;
                proof {
                    let expected = view.taken(node as int, frame as int, local);
                    assert(self@.nodes =~= expected.nodes);
                    assert(self@.free =~= expected.free);
                    assert(self@.allocated =~= expected.allocated);
                    assert(self@.consistent()) by {
                        assert(self@.nodes == expected.nodes);
                    }
                }
                return frame;
            }
            proof {
                assert forall|f: int| #[trigger]
                    view.free.contains(f) && topology.contains(f) implies topology.turn(f / 64)
                    >= step + 1 by {
                    if f / 64 == word {
                        assert(f == word * 64 + f % 64);
                        assert(bits::bit64(available, f % 64));
                    }
                }
            }
            step += 1;
        }
        proof {
            counting::lemma_count_zero(
                view.free,
                topology.start_frame as int,
                topology.end_frame as int,
            );
            let f = choose|f: int|
                topology.start_frame <= f < topology.end_frame && #[trigger] view.free.contains(f);
            assert(topology.contains(f));
            assert(topology.turn(f / 64) < word_count);
        }
        0
    }

    pub fn allocate(&mut self) -> (result: Result<PhysicalAddress, FrameError>)
        requires
            old(self).wf(),
        ensures
            final(self).wf(),
            allocation_result(old(self)@, final(self)@, 0, result),
    {
        self.allocate_on_node(0)
    }

    /// Allocates a frame, from the preferred node if it has one and else from the
    /// next node in a round.
    pub fn allocate_on_node(&mut self, preferred: usize) -> (result: Result<
        PhysicalAddress,
        FrameError,
    >)
        requires
            old(self).wf(),
        ensures
            final(self).wf(),
            allocation_result(old(self)@, final(self)@, preferred as int % 8, result),
    {
        if !self.initialized {
            return Err(FrameError::NotInitialized);
        }
        let ghost view = self@;
        if self.free_frames == 0 {
            proof {
                counting::lemma_count_zero(view.free, 0, FRAME_COUNT as int);
            }
            return Err(FrameError::OutOfMemory);
        }
        let home: usize = preferred % MAX_NUMA_NODES;
        let mut distance: usize = 0;
        while distance < MAX_NUMA_NODES
            invariant
                *self == *old(self),
                self.wf(),
                self.initialized,
                self.free_frames > 0,
                view == self@,
                home == preferred as int % 8,
                home < 8,
                distance <= 8,
                forall|d: int|
                    0 <= d < distance ==> (#[trigger] view.nodes[(home + d) % 8]).free_frames
                        == 0,
            decreases 8 - distance,
        {
            let node: usize = (home + distance) % MAX_NUMA_NODES;
            assert((node - home) % 8 == distance as int);
            if self.nodes[node].online && self.nodes[node].free_frames > 0 {
                assert(view.serves(home as int, node as int));
                let frame: usize = self.allocate_from_node(node, distance == 0);
                if distance == 0 {
                    self.local_allocations = self.local_allocations.saturating_add(1);
                } else {
                    self.fallback_allocations = self.fallback_allocations.saturating_add(1);
                }
                let address: u64 = frame as u64 * PAGE_SIZE;
                proof {
                    assert(self@ =~= view.taken(node as int, frame as int, distance == 0));
                    lemma_taken_consistent(view, node as int, frame as int, distance == 0);
                    assert((distance == 0) == (node == home));
                }
                assert(address % PAGE_SIZE == 0);
                assert(frame_allocated(view, self@, home as int, node as int, frame as int));
                return match PhysicalAddress::new(address) {
                    Some(physical) => Ok(physical),
                    None => Err(FrameError::InvalidFrame),
                };
            }
            distance += 1;
        }
        proof {
            assert forall|n: int| 0 <= n < 8 implies (#[trigger] view.nodes[n]).free_frames == 0 by {
                let d = (n - home) % 8;
                assert((home + d) % 8 == n);
            }
            lemma_node_free_zero(view.nodes, 8);
        }
        Err(FrameError::OutOfMemory)
    }

    /// Gives an allocated frame back.
    pub fn deallocate(&mut self, frame: PhysicalAddress) -> (result: Result<(), FrameError>)
        requires
            old(self).wf(),
        ensures
            final(self).wf(),
            deallocation_result(old(self)@, final(self)@, frame.spec_u64(), result),
    {
        if !self.initialized {
            return Err(FrameError::NotInitialized);
        }
        let address: u64 = frame.as_u64();
        let number: u64 = address / PAGE_SIZE;
        if number >= self.platform.memory_limit() / PAGE_SIZE || address < LOW_MEMORY_END {
            return Err(FrameError::InvalidFrame);
        }
        let index: usize = number as usize;
        let ghost view = self@;
        let word: usize = index / 64;
        let mask: u64 = 1u64 << ((index % 64) as u64);
        proof {
            bits::lemma_set_clear64(self.allocated@[word as int], index as int % 64, 0);
        }
        if self.allocated[word] & mask == 0 {
            assert(!view.allocated.contains(index as int));
            return Err(FrameError::DoubleFree);
        }
        assert(view.allocated.contains(index as int));
        let mut node: usize = 0;
        while node < MAX_NUMA_NODES && !(self.nodes[node].online && index
            >= self.nodes[node].start_frame && index < self.nodes[node].end_frame)
            invariant
                *self == *old(self),
                view == self@,
                node <= 8,
                forall|n: int| 0 <= n < node ==> !(#[trigger] view.nodes[n]).contains(index as int),
            decreases 8 - node,
        {
            node += 1;
        }
        proof {
            let n = choose|n: int| 0 <= n < 8 && (#[trigger] view.nodes[n]).contains(index as int);
            assert(node < 8);
            assert(view.nodes[node as int].contains(index as int));
            lemma_given_back_consistent(view, node as int, index as int);
        }
        unmark(&mut self.allocated, index);
        unmark(&mut self.bitmap, index);
        let before: NumaNode = self.nodes[node];
        self.nodes[node] =
        NumaNode {
            online: before.online,
            start_frame: before.start_frame,
            end_frame: before.end_frame,
            next_word: if before.next_word <= word {
                before.next_word
            } else {
                word
            },
            free_frames: before.free_frames + 1,
        };
        self.free_frames = self.free_frames + 1;
        proof {
            let expected = view.given_back(node as int, index as int);
            assert(self@.nodes =~= expected.nodes);
            assert(self@.free =~= expected.free);
            assert(self@.allocated =~= expected.allocated);
            assert(self@ =~= expected);
        }
        Ok(())
    }

    pub fn stats(&self) -> (stats: FrameStats)
        requires
            self.wf(),
        ensures
            stats == frame_stats(self@),
    {
        let mut online: usize = 0;
        let mut node: usize = 0;
        while node < MAX_NUMA_NODES
            invariant
                node <= 8,
                online == online_count(self.nodes@, node as nat),
                online <= node,
            decreases 8 - node,
        {
            if self.nodes[node].online {
                online += 1;
            }
            node += 1;
        }
        FrameStats {
            free_frames: self.free_frames,
            numa_nodes: online,
            local_allocations: self.local_allocations,
            fallback_allocations: self.fallback_allocations,
        }
    }

    pub fn node_online(&self, node: usize) -> (online: bool)
        ensures
            online == (node < 8 && self@.nodes[node as int].online),
    {
        node < MAX_NUMA_NODES && self.nodes[node].online
    }
}

/// The figures of a state.
pub open spec fn frame_stats(view: FrameView) -> FrameStats {
    FrameStats {
        free_frames: if view.initialized {
            view.free_count() as usize
        } else {
            0
        },
        numa_nodes: online_count(view.nodes, 8) as usize,
        local_allocations: view.local_allocations,
        fallback_allocations: view.fallback_allocations,
    }
}

/// `frame` of `node` was allocated for a request that prefers `preferred`.
pub open spec fn frame_allocated(
    before: FrameView,
    after: FrameView,
    preferred: int,
    node: int,
    frame: int,
) -> bool {
    &&& before.serves(preferred, node)
    &&& before.is_first_free(node, frame)
    &&& after == before.taken(node, frame, node == preferred)
}

/// What a request for a frame gives: an error where there is none to give, else the
/// first free frame of the first node that has one.
pub open spec fn allocation_result(
    before: FrameView,
    after: FrameView,
    preferred: int,
    result: Result<PhysicalAddress, FrameError>,
) -> bool {
    if !before.initialized {
        result == Err::<PhysicalAddress, FrameError>(FrameError::NotInitialized) && after == before
    } else if before.free_count() == 0 {
        result == Err::<PhysicalAddress, FrameError>(FrameError::OutOfMemory) && after == before
    } else {
        result matches Ok(address) && exists|node: int, frame: int|
            #![trigger before.is_first_free(node, frame)]
            frame_allocated(before, after, preferred, node, frame) && address.spec_u64() == frame
                * 4096
    }
}

/// What giving a frame back does.
pub open spec fn deallocation_result(
    before: FrameView,
    after: FrameView,
    address: u64,
    result: Result<(), FrameError>,
) -> bool {
    let frame = address as int / 4096;
    if !before.initialized {
        result == Err::<(), FrameError>(FrameError::NotInitialized) && after == before
    } else if frame >= frame_limit(before.platform) || address < LOW_MEMORY_END {
        result == Err::<(), FrameError>(FrameError::InvalidFrame) && after == before
    } else if !before.allocated.contains(frame) {
        result == Err::<(), FrameError>(FrameError::DoubleFree) && after == before
    } else {
        result is Ok && exists|node: int|
            0 <= node < 8 && (#[trigger] before.nodes[node]).contains(frame) && after
                == before.given_back(node, frame)
    }
}

/// The state after a request for a frame, and what the request gives.
pub open spec fn allocation(before: FrameView, preferred: int) -> (
    FrameView,
    Result<PhysicalAddress, FrameError>,
) {
    choose|outcome: (FrameView, Result<PhysicalAddress, FrameError>)| #[trigger]
        allocation_result(before, outcome.0, preferred, outcome.1)
}

/// The state after a frame was given back, and what that gives.
pub open spec fn deallocation(before: FrameView, address: u64) -> (
    FrameView,
    Result<(), FrameError>,
) {
    choose|outcome: (FrameView, Result<(), FrameError>)| #[trigger]
        deallocation_result(before, outcome.0, address, outcome.1)
}

/// A round comes to every node.
proof fn lemma_round(preferred: int, node: int)
    requires
        0 <= preferred < 8,
        0 <= node < 8,
    ensures
        0 <= (node - preferred) % 8 < 8,
        (preferred + (node - preferred) % 8) % 8 == node,
{
}

/// One node serves a request.
proof fn lemma_serves_unique(view: FrameView, preferred: int, n: int, m: int)
    requires
        0 <= preferred < 8,
        view.serves(preferred, n),
        view.serves(preferred, m),
    ensures
        n == m,
{
    lemma_round(preferred, n);
    lemma_round(preferred, m);
    let d = (n - preferred) % 8;
    let e = (m - preferred) % 8;
    if d < e {
        assert(view.nodes[(preferred + d) % 8].free_frames == 0);
    }
    if e < d {
        assert(view.nodes[(preferred + e) % 8].free_frames == 0);
    }
}

/// One frame is the first free one of a node.
proof fn lemma_first_free_unique(view: FrameView, node: int, f: int, g: int)
    requires
        view.is_first_free(node, f),
        view.is_first_free(node, g),
    ensures
        f == g,
{
    assert(view.free.contains(f) && view.free.contains(g));
}

/// A request for a frame has one outcome.
pub proof fn lemma_allocation(
    before: FrameView,
    after: FrameView,
    preferred: int,
    result: Result<PhysicalAddress, FrameError>,
)
    requires
        before.frames_consistent(),
        0 <= preferred < 8,
        allocation_result(before, after, preferred, result),
    ensures
        allocation(before, preferred) == (after, result),
        result is Ok ==> result->Ok_0.spec_u64() < before.platform.spec_memory_limit()
            && result->Ok_0.spec_u64() % 4096 == 0,
{
    let outcome = (after, result);
    assert(allocation_result(before, outcome.0, preferred, outcome.1));
    let chosen = allocation(before, preferred);
    assert(allocation_result(before, chosen.0, preferred, chosen.1));
    if before.initialized && before.free_count() != 0 {
        let (n, f) = choose|node: int, frame: int|
            #![trigger before.is_first_free(node, frame)]
            frame_allocated(before, after, preferred, node, frame) && result->Ok_0.spec_u64()
                == frame * 4096;
        let (m, g) = choose|node: int, frame: int|
            #![trigger before.is_first_free(node, frame)]
            frame_allocated(before, chosen.0, preferred, node, frame)
                && chosen.1->Ok_0.spec_u64() == frame * 4096;
        assert(frame_allocated(before, after, preferred, n, f));
        assert(frame_allocated(before, chosen.0, preferred, m, g));
        lemma_serves_unique(before, preferred, n, m);
        lemma_first_free_unique(before, n, f, g);
        assert(before.free.contains(f));
        super::address::law_physical_address_injective(result->Ok_0, chosen.1->Ok_0);
        assert(chosen.1 == result);
    }
}

/// When a search comes to a frame.
spec fn search_key(node: NumaNode, frame: int) -> int {
    node.turn(frame / 64) * 64 + frame % 64
}

/// A node with a free frame has a first one.
proof fn lemma_first_free_exists(view: FrameView, node: int, frame: int)
    requires
        view.consistent(),
        0 <= node < 8,
        view.nodes[node].contains(frame),
        view.free.contains(frame),
    ensures
        exists|first: int| view.is_first_free(node, first),
    decreases search_key(view.nodes[node], frame),
{
    let n = view.nodes[node];
    if !view.is_first_free(node, frame) {
        let other = choose|other: int| #[trigger]
            view.free.contains(other) && n.contains(other) && !(n.turn(frame / 64) < n.turn(
                other / 64,
            ) || (frame / 64 == other / 64 && frame <= other));
        lemma_turn(n, other / 64);
        lemma_turn(n, frame / 64);
        assert(search_key(n, other) < search_key(n, frame));
        lemma_first_free_exists(view, node, other);
    } else {
        assert(view.is_first_free(node, frame));
    }
}

/// A search comes to each word of a node once.
proof fn lemma_turn(node: NumaNode, word: int)
    requires
        node.start_frame < node.end_frame,
        node.first_word() <= word < node.last_word(),
    ensures
        0 <= node.turn(word) < node.last_word() - node.first_word(),
        forall|other: int|
            node.first_word() <= other < node.last_word() && #[trigger] node.turn(other)
                == node.turn(word) ==> other == word,
{
}

/// A round finds a node with a free frame, if there is one.
proof fn lemma_serving_exists(view: FrameView, preferred: int, distance: int)
    requires
        view.nodes_consistent(),
        0 <= preferred < 8,
        0 <= distance < 8,
        view.nodes[(preferred + distance) % 8].free_frames > 0,
    ensures
        exists|node: int| view.serves(preferred, node),
    decreases distance,
{
    let node = (preferred + distance) % 8;
    if forall|d: int|
        0 <= d < distance ==> (#[trigger] view.nodes[(preferred + d) % 8]).free_frames == 0 {
        assert((node - preferred) % 8 == distance);
        assert(view.serves(preferred, node));
    } else {
        let d = choose|d: int|
            0 <= d < distance && (#[trigger] view.nodes[(preferred + d) % 8]).free_frames != 0;
        lemma_serving_exists(view, preferred, d);
    }
}

/// A request for a frame has an outcome.
pub proof fn lemma_allocation_exists(before: FrameView, preferred: int)
    requires
        before.consistent(),
        0 <= preferred < 8,
    ensures
        allocation_result(
            before,
            allocation(before, preferred).0,
            preferred,
            allocation(before, preferred).1,
        ),
{
    let outcome: (FrameView, Result<PhysicalAddress, FrameError>) = if !before.initialized {
        (before, Err(FrameError::NotInitialized))
    } else if before.free_count() == 0 {
        (before, Err(FrameError::OutOfMemory))
    } else {
        if forall|n: int| 0 <= n < 8 ==> (#[trigger] before.nodes[n]).free_frames == 0 {
            lemma_node_free_zero(before.nodes, 8);
        }
        let some = choose|n: int| 0 <= n < 8 && (#[trigger] before.nodes[n]).free_frames != 0;
        lemma_round(preferred, some);
        lemma_serving_exists(before, preferred, (some - preferred) % 8);
        let node = choose|node: int| before.serves(preferred, node);
        let n = before.nodes[node];
        counting::lemma_count_zero(before.free, n.start_frame as int, n.end_frame as int);
        let free = choose|f: int|
            n.start_frame <= f < n.end_frame && #[trigger] before.free.contains(f);
        lemma_first_free_exists(before, node, free);
        let frame = choose|frame: int| before.is_first_free(node, frame);
        let address = super::address::physical_at((frame * 4096) as u64);
        super::address::lemma_physical_at((frame * 4096) as u64);
        let after = before.taken(node, frame, node == preferred);
        assert(before.free.contains(frame));
        assert(frame_allocated(before, after, preferred, node, frame));
        (after, Ok(address))
    };
    assert(allocation_result(before, outcome.0, preferred, outcome.1));
}

/// Giving a frame back has an outcome.
pub proof fn lemma_deallocation_exists(before: FrameView, address: u64)
    requires
        before.consistent(),
    ensures
        deallocation_result(
            before,
            deallocation(before, address).0,
            address,
            deallocation(before, address).1,
        ),
{
    let frame = address as int / 4096;
    let outcome: (FrameView, Result<(), FrameError>) = if !before.initialized {
        (before, Err(FrameError::NotInitialized))
    } else if frame >= frame_limit(before.platform) || address < LOW_MEMORY_END {
        (before, Err(FrameError::InvalidFrame))
    } else if !before.allocated.contains(frame) {
        (before, Err(FrameError::DoubleFree))
    } else {
        let node = choose|n: int| 0 <= n < 8 && (#[trigger] before.nodes[n]).contains(frame);
        (before.given_back(node, frame), Ok(()))
    };
    assert(deallocation_result(before, outcome.0, address, outcome.1));
}

/// Giving a frame back has one outcome.
pub proof fn lemma_deallocation(
    before: FrameView,
    after: FrameView,
    address: u64,
    result: Result<(), FrameError>,
)
    requires
        before.consistent(),
        deallocation_result(before, after, address, result),
    ensures
        deallocation(before, address) == (after, result),
{
    let outcome = (after, result);
    assert(deallocation_result(before, outcome.0, address, outcome.1));
    let chosen = deallocation(before, address);
    assert(deallocation_result(before, chosen.0, address, chosen.1));
    let frame = address as int / 4096;
    if result is Ok {
        let n = choose|node: int|
            0 <= node < 8 && (#[trigger] before.nodes[node]).contains(frame) && after
                == before.given_back(node, frame);
        let m = choose|node: int|
            0 <= node < 8 && (#[trigger] before.nodes[node]).contains(frame) && chosen.0
                == before.given_back(node, frame);
        assert(before.nodes[n].contains(frame) && before.nodes[m].contains(frame));
        assert(n == m);
        assert(chosen.1->Ok_0 == result->Ok_0);
        assert(chosen.1 == result);
    }
}

/// The first frame that lies whole behind `address`.
pub open spec fn frame_from(platform: Platform, address: u64) -> int {
    if (address + 4095) / 4096 <= frame_limit(platform) {
        (address + 4095) / 4096
    } else {
        frame_limit(platform)
    }
}

/// The frame in which `address` lies.
pub open spec fn frame_to(platform: Platform, address: u64) -> int {
    if address as int / 4096 <= frame_limit(platform) {
        address as int / 4096
    } else {
        frame_limit(platform)
    }
}

/// Whether an online node has a frame between `start` and `end`.
pub open spec fn overlaps(nodes: Seq<NumaNode>, start: int, end: int) -> bool {
    exists|n: int|
        0 <= n < nodes.len() && (#[trigger] nodes[n]).online && start < nodes[n].end_frame && end
            > nodes[n].start_frame
}

/// The nodes that the first `count` ranges describe: each range holds a frame, names
/// a node of its own and overlaps no other.
pub open spec fn described_nodes(
    platform: Platform,
    ranges: Seq<NumaRange>,
    count: nat,
    free: Set<int>,
) -> Option<Seq<NumaNode>>
    decreases count,
{
    if count == 0 {
        Some(Seq::new(8, |n: int| NumaNode::spec_empty()))
    } else {
        match described_nodes(platform, ranges, (count - 1) as nat, free) {
            None => None,
            Some(nodes) => {
                let range = ranges[count - 1];
                let start = frame_from(platform, range.start);
                let end = frame_to(platform, range.end);
                if range.node >= 8 || range.start >= range.end || start >= end
                    || nodes[range.node as int].online || overlaps(nodes, start, end) {
                    None
                } else {
                    Some(
                        nodes.update(
                            range.node as int,
                            NumaNode {
                                online: true,
                                start_frame: start as usize,
                                end_frame: end as usize,
                                next_word: (start / 64) as usize,
                                free_frames: counting::count_in(free, start, end) as usize,
                            },
                        ),
                    )
                }
            },
        }
    }
}

/// The allocated frames of the first `count` nodes.
pub open spec fn node_allocated(nodes: Seq<NumaNode>, allocated: Set<int>, count: nat) -> nat
    decreases count,
{
    if count == 0 {
        0
    } else {
        let n = nodes[count - 1];
        node_allocated(nodes, allocated, (count - 1) as nat) + (if n.online {
            counting::count_in(allocated, n.start_frame as int, n.end_frame as int)
        } else {
            0nat
        })
    }
}

/// The nodes of a topology that fits the state: no free and no allocated frame is
/// left without a node.
pub open spec fn accepted_nodes(view: FrameView, ranges: Seq<NumaRange>) -> Option<Seq<NumaNode>> {
    if !view.initialized || ranges.len() == 0 {
        None
    } else {
        match described_nodes(view.platform, ranges, ranges.len(), view.free) {
            None => None,
            Some(nodes) => if node_free(nodes, 8) != view.free_count() || node_allocated(
                nodes,
                view.allocated,
                8,
            ) != counting::count_in(view.allocated, 0, FRAME_COUNT as int) {
                None
            } else {
                Some(nodes)
            },
        }
    }
}

/// Ranges of online nodes exist and do not overlap; nodes count their free frames.
spec fn ranges_consistent(nodes: Seq<NumaNode>, free: Set<int>) -> bool {
    &&& nodes.len() == 8
    &&& forall|n: int|
        0 <= n < 8 && (#[trigger] nodes[n]).online ==> nodes[n].start_frame < nodes[n].end_frame
            <= FRAME_COUNT && nodes[n].free_frames == counting::count_in(
            free,
            nodes[n].start_frame as int,
            nodes[n].end_frame as int,
        )
    &&& forall|n: int| 0 <= n < 8 && !(#[trigger] nodes[n]).online ==> nodes[n].free_frames == 0
    &&& forall|m: int, n: int|
        0 <= m < n < 8 && (#[trigger] nodes[m]).online && (#[trigger] nodes[n]).online
            ==> nodes[m].end_frame <= nodes[n].start_frame || nodes[n].end_frame
            <= nodes[m].start_frame
}

/// The members of `set` outside the first `count` nodes.
spec fn outside(set: Set<int>, nodes: Seq<NumaNode>, count: int) -> Set<int> {
    Set::new(
        |f: int|
            set.contains(f) && forall|n: int|
                0 <= n < count ==> !(#[trigger] nodes[n]).contains(f),
    )
}

proof fn lemma_outside(set: Set<int>, nodes: Seq<NumaNode>, free: Set<int>, count: nat)
    requires
        ranges_consistent(nodes, free),
        count <= 8,
    ensures
        counting::count_in(outside(set, nodes, count as int), 0, FRAME_COUNT as int)
            + node_allocated(nodes, set, count) == counting::count_in(set, 0, FRAME_COUNT as int),
    decreases count,
{
    let total = FRAME_COUNT as int;
    if count == 0 {
        assert(outside(set, nodes, 0) =~= set);
    } else {
        let k = count - 1;
        lemma_outside(set, nodes, free, k as nat);
        let before = outside(set, nodes, k);
        let after = outside(set, nodes, count as int);
        let node = nodes[k];
        assert forall|f: int| after.contains(f) <==> before.contains(f) && !node.contains(f) by {
            if before.contains(f) && !node.contains(f) {
                assert forall|n: int| 0 <= n < count implies !(#[trigger] nodes[n]).contains(f) by {
                    if n < k {
                        assert(!nodes[n].contains(f));
                    }
                }
            }
            if after.contains(f) {
                assert(!nodes[k].contains(f));
            }
        }
        if node.online {
            let s = node.start_frame as int;
            let e = node.end_frame as int;
            counting::lemma_count_split(before, 0, s, total);
            counting::lemma_count_split(before, s, e, total);
            counting::lemma_count_split(after, 0, s, total);
            counting::lemma_count_split(after, s, e, total);
            counting::lemma_count_same(before, after, 0, s);
            counting::lemma_count_same(before, after, e, total);
            counting::lemma_count_zero(after, s, e);
            assert forall|f: int| s <= f < e implies (#[trigger] before.contains(f) <==> set.contains(
                f,
            )) by {
                if set.contains(f) {
                    assert forall|n: int| 0 <= n < k implies !(#[trigger] nodes[n]).contains(f) by {
                        if nodes[n].online {
                            assert(nodes[n].online && nodes[k].online);
                        }
                    }
                }
            }
            counting::lemma_count_same(before, set, s, e);
        } else {
            assert(after =~= before);
        }
    }
}

impl BitmapFrameAllocator {
    /// Divides the frames among memory nodes. A description that leaves a free or an
    /// allocated frame without a node, or is wrong in itself, is refused.
    pub fn configure_topology(&mut self, ranges: &[NumaRange]) -> (result: Result<(), FrameError>)
        requires
            old(self).wf(),
        ensures
            final(self).wf(),
            match accepted_nodes(old(self)@, ranges@) {
                Some(nodes) => result is Ok && final(self)@ == (FrameView {
                    nodes,
                    local_allocations: 0,
                    fallback_allocations: 0,
                    ..old(self)@
                }),
                None => result == Err::<(), FrameError>(FrameError::InvalidTopology) && final(
                    self)@ == old(self)@,
            },
    {
        if !self.initialized || ranges.len() == 0 {
            return Err(FrameError::InvalidTopology);
        }
        let ghost view = self@;
        let empty = NumaNode::empty();
        let mut nodes: [NumaNode; 8] = [empty; 8];
        assert(nodes@ =~= Seq::new(8, |n: int| NumaNode::spec_empty()));
        let mut index: usize = 0;
        while index < ranges.len()
            invariant
                *self == *old(self),
                self.wf(),
                self.initialized,
                view == self@,
                ranges@.len() > 0,
                index <= ranges@.len(),
                ranges_consistent(nodes@, view.free),
                described_nodes(view.platform, ranges@, index as nat, view.free) == Some(nodes@),
            decreases ranges@.len() - index,
        {
            let range: NumaRange = ranges[index];
            let added = self.describe_node(&mut nodes, range);
            if !added {
                proof {
                    lemma_description_stays_wrong(
                        view.platform,
                        ranges@,
                        (index + 1) as nat,
                        ranges@.len(),
                        view.free,
                    );
                }
                return Err(FrameError::InvalidTopology);
            }
            index += 1;
        }
        let mut covered: usize = 0;
        let mut covered_allocated: usize = 0;
        let mut node: usize = 0;
        while node < MAX_NUMA_NODES
            invariant
                self.wf(),
                view == self@,
                node <= 8,
                ranges_consistent(nodes@, view.free),
                covered == node_free(nodes@, node as nat),
                covered <= node * FRAME_COUNT,
                covered_allocated == node_allocated(nodes@, view.allocated, node as nat),
                covered_allocated <= node * FRAME_COUNT,
            decreases 8 - node,
        {
            let current: NumaNode = nodes[node];
            if current.online {
                proof {
                    counting::lemma_count_bound(
                        view.free,
                        current.start_frame as int,
                        current.end_frame as int,
                    );
                }
                covered_allocated += count_set_range(
                    &self.allocated,
                    current.start_frame,
                    current.end_frame,
                );
            }
            covered += current.free_frames;
            node += 1;
        }
        if covered != self.free_frames {
            return Err(FrameError::InvalidTopology);
        }
        let allocated: usize = count_all_set(&self.allocated);
        if covered_allocated != allocated {
            return Err(FrameError::InvalidTopology);
        }
        self.nodes = nodes;
        self.local_allocations = 0;
        self.fallback_allocations = 0;
        proof {
            lemma_outside(view.allocated, nodes@, view.free, 8);
            counting::lemma_count_zero(
                outside(view.allocated, nodes@, 8),
                0,
                FRAME_COUNT as int,
            );
            assert forall|f: int| #[trigger] self@.allocated.contains(f) implies exists|n: int|
                0 <= n < 8 && (#[trigger] self@.nodes[n]).contains(f) by {
                assert(view.allocated.contains(f));
                assert(!outside(view.allocated, nodes@, 8).contains(f));
                let n = choose|n: int| 0 <= n < 8 && (#[trigger] nodes@[n]).contains(f);
                assert(self@.nodes[n].contains(f));
            }
            assert(self@.free == view.free && self@.allocated == view.allocated);
            assert(self@.frames_consistent());
            assert(self@.nodes_consistent());
            assert(self@ =~= (FrameView {
                nodes: nodes@,
                local_allocations: 0,
                fallback_allocations: 0,
                ..view
            }));
        }
        Ok(())
    }

    /// Adds the node that a range describes; `false` where the range is wrong.
    fn describe_node(&self, nodes: &mut [NumaNode; 8], range: NumaRange) -> (added: bool)
        requires
            self.wf(),
            ranges_consistent(old(nodes)@, self@.free),
        ensures
            ({
                let start = frame_from(self@.platform, range.start);
                let end = frame_to(self@.platform, range.end);
                &&& added == !(range.node >= 8 || range.start >= range.end || start >= end || old(
                    nodes)@[range.node as int].online || overlaps(old(nodes)@, start, end))
                &&& added ==> final(nodes)@ == old(nodes)@.update(
                    range.node as int,
                    NumaNode {
                        online: true,
                        start_frame: start as usize,
                        end_frame: end as usize,
                        next_word: (start / 64) as usize,
                        free_frames: counting::count_in(self@.free, start, end) as usize,
                    },
                )
                &&& added ==> ranges_consistent(final(nodes)@, self@.free)
            }),
    {
        if range.node >= MAX_NUMA_NODES || range.start >= range.end {
            return false;
        }
        let first: u64 = if range.start % PAGE_SIZE == 0 {
            range.start / PAGE_SIZE
        } else {
            range.start / PAGE_SIZE + 1
        };
        let last: u64 = range.end / PAGE_SIZE;
        let limit: u64 = self.platform.memory_limit() / PAGE_SIZE;
        let start_frame: usize = if first <= limit {
            first as usize
        } else {
            limit as usize
        };
        let end_frame: usize = if last <= limit {
            last as usize
        } else {
            limit as usize
        };
        assert(start_frame == frame_from(self@.platform, range.start));
        assert(end_frame == frame_to(self@.platform, range.end));
        if start_frame >= end_frame || nodes[range.node].online {
            return false;
        }
        let mut node: usize = 0;
        while node < MAX_NUMA_NODES
            invariant
                *nodes == *old(nodes),
                start_frame == frame_from(self@.platform, range.start),
                end_frame == frame_to(self@.platform, range.end),
                node <= 8,
                forall|n: int|
                    0 <= n < node ==> !((#[trigger] nodes@[n]).online && start_frame
                        < nodes@[n].end_frame && end_frame > nodes@[n].start_frame),
            decreases 8 - node,
        {
            if nodes[node].online && start_frame < nodes[node].end_frame && end_frame
                > nodes[node].start_frame {
                assert(overlaps(nodes@, start_frame as int, end_frame as int));
                return false;
            }
            node += 1;
        }
        let free_frames: usize = count_clear_range(&self.bitmap, start_frame, end_frame);
        nodes[range.node] =
        NumaNode {
            online: true,
            start_frame,
            end_frame,
            next_word: start_frame / 64,
            free_frames,
        };
        true
    }
}

proof fn lemma_description_stays_wrong(
    platform: Platform,
    ranges: Seq<NumaRange>,
    some: nat,
    all: nat,
    free: Set<int>,
)
    requires
        some <= all,
        described_nodes(platform, ranges, some, free) is None,
    ensures
        described_nodes(platform, ranges, all, free) is None,
    decreases all,
{
    if some < all {
        lemma_description_stays_wrong(platform, ranges, some, (all - 1) as nat, free);
    }
}

/// The frame allocator of a machine and the memory node of each processor.
pub struct PhysicalFrames {
    allocator: BitmapFrameAllocator,
    cpu_nodes: [u8; 64],
}

impl PhysicalFrames {
    pub closed spec fn wf(&self) -> bool {
        self.allocator.wf()
    }

    pub closed spec fn view(&self) -> FrameView {
        self.allocator@
    }

    pub closed spec fn cpu_nodes(&self) -> Seq<u8> {
        self.cpu_nodes@
    }

    pub proof fn lemma_consistent(&self)
        requires
            self.wf(),
        ensures
            self.view().consistent(),
            self.cpu_nodes().len() == 64,
    {
    }

    pub fn new() -> (frames: Self)
        ensures
            frames.wf(),
            !frames.view().initialized,
            frames.view().platform is X86_64,
            frames.cpu_nodes() == Seq::new(64, |cpu: int| 0u8),
    {
        let frames = Self { allocator: BitmapFrameAllocator::new(), cpu_nodes: [0u8; 64] };
        assert(frames.cpu_nodes() =~= Seq::new(64, |cpu: int| 0u8));
        frames
    }
}

/// The processor whose entry stands for `cpu`.
pub open spec fn cpu_slot(cpu: u32) -> int {
    if cpu < 63 {
        cpu as int
    } else {
        63
    }
}

pub fn initialize(
    frames: &mut PhysicalFrames,
    map: &MemoryMap,
    kernel_start: u64,
    kernel_end: u64,
) -> (stats: FrameStats)
    ensures
        final(frames).wf(),
        final(frames).view() == initialized_view(map@, kernel_start, kernel_end),
        final(frames).cpu_nodes() == old(frames).cpu_nodes(),
        stats == frame_stats(final(frames).view()),
{
    frames.allocator.initialize(map, kernel_start, kernel_end);
    frames.allocator.stats()
}

/// Allocates a frame for a processor, near it if possible.
pub fn allocate(frames: &mut PhysicalFrames, cpu: u32) -> (result: Result<
    PhysicalAddress,
    FrameError,
>)
    requires
        old(frames).wf(),
    ensures
        final(frames).wf(),
        final(frames).cpu_nodes() == old(frames).cpu_nodes(),
        allocation_result(
            old(frames).view(),
            final(frames).view(),
            old(frames).cpu_nodes()[cpu_slot(cpu)] as int % 8,
            result,
        ),
{
    let node: usize = current_node(frames, cpu);
    allocate_on_node(frames, node)
}

pub fn allocate_on_node(frames: &mut PhysicalFrames, preferred: usize) -> (result: Result<
    PhysicalAddress,
    FrameError,
>)
    requires
        old(frames).wf(),
    ensures
        final(frames).wf(),
        final(frames).cpu_nodes() == old(frames).cpu_nodes(),
        allocation_result(
            old(frames).view(),
            final(frames).view(),
            preferred as int % 8,
            result,
        ),
{
    frames.allocator.allocate_on_node(preferred)
}

pub fn deallocate(frames: &mut PhysicalFrames, frame: PhysicalAddress) -> (result: Result<
    (),
    FrameError,
>)
    requires
        old(frames).wf(),
    ensures
        final(frames).wf(),
        final(frames).cpu_nodes() == old(frames).cpu_nodes(),
        deallocation_result(old(frames).view(), final(frames).view(), frame.spec_u64(), result),
{
    frames.allocator.deallocate(frame)
}

pub fn stats(frames: &PhysicalFrames) -> (stats: FrameStats)
    requires
        frames.wf(),
    ensures
        stats == frame_stats(frames.view()),
{
    frames.allocator.stats()
}

pub fn configure_topology(frames: &mut PhysicalFrames, ranges: &[NumaRange]) -> (result: Result<
    FrameStats,
    FrameError,
>)
    requires
        old(frames).wf(),
    ensures
        final(frames).wf(),
        final(frames).cpu_nodes() == old(frames).cpu_nodes(),
        match accepted_nodes(old(frames).view(), ranges@) {
            Some(nodes) => final(frames).view() == (FrameView {
                nodes,
                local_allocations: 0,
                fallback_allocations: 0,
                ..old(frames).view()
            }) && result == Ok::<FrameStats, FrameError>(frame_stats(final(frames).view())),
            None => result == Err::<FrameStats, FrameError>(FrameError::InvalidTopology) && final(
                frames).view() == old(frames).view(),
        },
{
    match frames.allocator.configure_topology(ranges) {
        Ok(_) => Ok(frames.allocator.stats()),
        Err(error) => Err(error),
    }
}

/// Assigns a processor to a memory node that is online.
pub fn set_cpu_node(frames: &mut PhysicalFrames, cpu: usize, node: usize) -> (result: Result<
    (),
    FrameError,
>)
    requires
        old(frames).wf(),
    ensures
        final(frames).wf(),
        final(frames).view() == old(frames).view(),
        result is Ok <==> cpu < MAX_NUMA_CPUS && node < 8 && old(
            frames).view().nodes[node as int].online,
        result is Ok ==> final(frames).cpu_nodes() == old(frames).cpu_nodes().update(
            cpu as int,
            node as u8,
        ),
        result matches Err(error) ==> error == FrameError::InvalidTopology && final(
            frames).cpu_nodes() == old(frames).cpu_nodes(),
{
    if cpu >= MAX_NUMA_CPUS || !frames.allocator.node_online(node) {
        return Err(FrameError::InvalidTopology);
    }
    frames.cpu_nodes[cpu] = node as u8;
    Ok(())
}

/// The memory node of a processor.
pub fn current_node(frames: &PhysicalFrames, cpu: u32) -> (node: usize)
    ensures
        node == frames.cpu_nodes()[cpu_slot(cpu)],
{
    let slot: usize = if cpu < 63 {
        cpu as usize
    } else {
        63
    };
    frames.cpu_nodes[slot] as usize
}

/// A frame that is allocated was free, is free no more, and no other frame changes:
/// no frame is given out twice. Only where no frame is free is there none, and then nothing
/// changes. The node that is preferred serves wherever it has a free frame.
pub proof fn law_allocation_is_exclusive(
    before: FrameView,
    after: FrameView,
    preferred: int,
    result: Result<PhysicalAddress, FrameError>,
)
    requires
        before.initialized,
        before.consistent(),
        0 <= preferred < 8,
        allocation_result(before, after, preferred, result),
    ensures
        result is Err <==> frame_stats(before).free_frames == 0,
        result matches Err(error) ==> error == FrameError::OutOfMemory && after == before,
        result matches Ok(address) ==> {
            let frame = address.spec_u64() as int / 4096;
            let home = before.nodes[preferred];
            &&& address.spec_u64() % 4096 == 0
            &&& before.free.contains(frame)
            &&& !before.allocated.contains(frame)
            &&& after.allocated == before.allocated.insert(frame)
            &&& after.free == before.free.remove(frame)
            &&& frame_stats(after).free_frames == frame_stats(before).free_frames - 1
            &&& if home.online && home.free_frames > 0 {
                &&& home.contains(frame)
                &&& after.local_allocations == counted(before.local_allocations)
                &&& after.fallback_allocations == before.fallback_allocations
            } else {
                &&& after.local_allocations == before.local_allocations
                &&& after.fallback_allocations == counted(before.fallback_allocations)
            }
        },
{
    counting::lemma_count_bound(before.free, 0, FRAME_COUNT as int);
    if result is Ok {
        let address = result->Ok_0;
        let (node, frame) = choose|node: int, frame: int|
            #![trigger before.is_first_free(node, frame)]
            frame_allocated(before, after, preferred, node, frame) && address.spec_u64() == frame
                * 4096;
        assert(before.free.contains(frame));
        assert(address.spec_u64() as int / 4096 == frame);
        counting::lemma_count_remove(before.free, frame, 0, FRAME_COUNT as int);
        let home = before.nodes[preferred];
        if node != preferred {
            let distance = (node - preferred) % 8;
            assert(0 < distance);
            assert(before.nodes[(preferred + 0) % 8].free_frames == 0);
        }
    }
}

/// Only a frame that is allocated can be given back; it is then free. Any other request
/// changes nothing: a frame that no allocation can have given is no frame, and one that is
/// not allocated is not given back.
pub proof fn law_only_allocated_frames_are_given_back(
    before: FrameView,
    after: FrameView,
    address: u64,
    result: Result<(), FrameError>,
)
    requires
        before.initialized,
        before.consistent(),
        deallocation_result(before, after, address, result),
    ensures
        result is Ok <==> before.allocated.contains(address as int / 4096),
        result is Ok ==> {
            let frame = address as int / 4096;
            &&& after.free == before.free.insert(frame)
            &&& after.allocated == before.allocated.remove(frame)
            &&& frame_stats(after).free_frames == frame_stats(before).free_frames + 1
        },
        result matches Err(error) ==> after == before && error == (if address < LOW_MEMORY_END
            || address as int / 4096 >= frame_limit(before.platform) {
            FrameError::InvalidFrame
        } else {
            FrameError::DoubleFree
        }),
{
    let frame = address as int / 4096;
    counting::lemma_count_bound(before.free, 0, FRAME_COUNT as int);
    counting::lemma_count_bound(after.free, 0, FRAME_COUNT as int);
    if result is Ok {
        assert(!before.free.contains(frame));
        counting::lemma_count_insert(before.free, frame, 0, FRAME_COUNT as int);
    }
}

/// Giving back what was just allocated succeeds and restores which frames are free
/// and which are allocated.
pub proof fn law_deallocation_undoes_allocation(
    before: FrameView,
    middle: FrameView,
    after: FrameView,
    preferred: int,
    address: PhysicalAddress,
    result: Result<(), FrameError>,
)
    requires
        before.consistent(),
        allocation_result(before, middle, preferred, Ok(address)),
        deallocation_result(middle, after, address.spec_u64(), result),
    ensures
        result is Ok,
        after.free == before.free,
        after.allocated == before.allocated,
{
    let (node, frame) = choose|node: int, frame: int|
        #![trigger before.is_first_free(node, frame)]
        frame_allocated(before, middle, preferred, node, frame) && address.spec_u64() == frame
            * 4096;
    assert(before.is_first_free(node, frame));
    assert(before.free.contains(frame));
    assert(address.spec_u64() as int / 4096 == frame);
    assert(middle.allocated.contains(frame));
    assert(after.free =~= before.free);
    assert(after.allocated =~= before.allocated);
}

/// A frame cannot be given back twice.
pub proof fn law_double_free_is_refused(
    before: FrameView,
    middle: FrameView,
    after: FrameView,
    address: u64,
    second: Result<(), FrameError>,
)
    requires
        deallocation_result(before, middle, address, Ok(())),
        deallocation_result(middle, after, address, second),
    ensures
        second == Err::<(), FrameError>(FrameError::DoubleFree),
        after == middle,
{
}

/// A frame that something other than memory touches is never allocatable after
/// initialization, though memory may claim it too; nor is low memory, or a frame of
/// the kernel, the early stack or the boot data.
pub proof fn law_reserved_memory_is_never_free(
    map: memory_map::MemoryMapView,
    kernel_start: u64,
    kernel_end: u64,
    frame: int,
)
    requires
        ({
            ||| withheld(map.regions, map.regions.len() as int, frame)
            ||| frame * 4096 < LOW_MEMORY_END
            ||| touches(kernel_start, kernel_end, frame)
            ||| map.platform is X86_64 && touches(EARLY_STACK_START, EARLY_STACK_END, frame)
            ||| (map.boot_data matches Some(range) && touches(range.0, range.1, frame))
        }),
    ensures
        !initialized_view(map, kernel_start, kernel_end).free.contains(frame),
{
}

} // verus!
