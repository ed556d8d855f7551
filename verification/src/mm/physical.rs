//! Physical memory as the kernel sees it through its direct mapping: words, the frames
//! that can be allocated, the table that the processor uses, and the translations that
//! it has to forget.
use crate::boot::memory_map::MemoryMap;
use crate::mm::address::{PhysicalAddress, MAX_DIRECT_MAPPED_PHYSICAL};
use crate::mm::frame;
use crate::mm::frame::{FrameError, FrameStats, FrameView, PhysicalFrames};
use std::collections::HashMap;
use vstd::prelude::*;
use vstd::std_specs::hash::*;

verus! {

/// The number of words of eight bytes.
pub const WORDS: u64 = 0x2_0000_0000_0000;

/// The number of bytes: physical addresses have 52 bits.
pub const BYTES: u64 = 0x10_0000_0000_0000;

/// What a processor has to forget of its translations.
#[derive(Clone, Copy, Debug, PartialEq, Eq, Structural)]
pub enum Flush {
    /// The translation of one page.
    Page(u64),
    /// All of them, by loading the root of the tables.
    Root(u64),
}

/// The state of memory.
#[verifier::ext_equal]
pub struct MemoryView {
    /// The words, by their number.
    pub words: Seq<u64>,
    pub frames: FrameView,
    /// The memory node that is asked first for a frame.
    pub node: int,
    /// The root of the tables that the processor uses.
    pub root: u64,
    pub flushes: Seq<Flush>,
}

impl MemoryView {
    pub open spec fn wf(self) -> bool {
        &&& self.words.len() == WORDS
        &&& self.frames.consistent()
        &&& self.frames.platform is X86_64
        &&& 0 <= self.node < 8
    }

    /// The word at an address.
    pub open spec fn word(self, address: int) -> u64 {
        self.words[address / 8]
    }

    pub open spec fn with_word(self, address: int, value: u64) -> Self {
        MemoryView { words: self.words.update(address / 8, value), ..self }
    }

    /// The state with a frame of zeros.
    pub open spec fn zeroed(self, frame: int) -> Self {
        MemoryView {
            words: Seq::new(
                self.words.len(),
                |i: int|
                    if i / 512 == frame / 4096 {
                        0
                    } else {
                        self.words[i]
                    },
            ),
            ..self
        }
    }

    /// The state with the contents of one frame copied to another.
    pub open spec fn copied(self, source: int, target: int) -> Self {
        MemoryView {
            words: Seq::new(
                self.words.len(),
                |i: int|
                    if i / 512 == target / 4096 {
                        self.words[source / 8 + i % 512]
                    } else {
                        self.words[i]
                    },
            ),
            ..self
        }
    }

    /// Asking for a frame.
    pub open spec fn allocated(self) -> (Self, Result<PhysicalAddress, FrameError>) {
        let (frames, result) = frame::allocation(self.frames, self.node);
        (MemoryView { frames, ..self }, result)
    }

    /// Giving a frame back.
    pub open spec fn deallocated(self, address: u64) -> (Self, Result<(), FrameError>) {
        let (frames, result) = frame::deallocation(self.frames, address);
        (MemoryView { frames, ..self }, result)
    }

    pub open spec fn flushed(self, flush: Flush) -> Self {
        MemoryView { flushes: self.flushes.push(flush), ..self }
    }

    /// The processor uses the tables below another root.
    pub open spec fn switched(self, root: u64) -> Self {
        MemoryView { root, ..self }.flushed(Flush::Root(root))
    }
}

/// The byte with number `index` of a word, the lowest first.
pub open spec fn byte_of(word: u64, index: int) -> u8 {
    ((word >> ((8 * index) as u64)) & 0xff) as u8
}

/// The word with another byte.
pub open spec fn with_byte(word: u64, index: int, byte: u8) -> u64 {
    (word & !(0xffu64 << ((8 * index) as u64))) | ((byte as u64) << ((8 * index) as u64))
}

/// The byte at an address.
pub open spec fn byte_at(words: Seq<u64>, address: int) -> u8 {
    byte_of(words[address / 8], address % 8)
}

/// The words with another byte at an address.
pub open spec fn with_byte_at(words: Seq<u64>, address: int, byte: u8) -> Seq<u64> {
    words.update(address / 8, with_byte(words[address / 8], address % 8, byte))
}

/// The words after bytes were stored from an address on.
pub open spec fn stored(words: Seq<u64>, address: int, bytes: Seq<u8>) -> Seq<u64>
    decreases bytes.len(),
{
    if bytes.len() == 0 {
        words
    } else {
        with_byte_at(
            stored(words, address, bytes.drop_last()),
            address + bytes.len() - 1,
            bytes.last(),
        )
    }
}

/// The bytes from an address on.
pub open spec fn loaded(words: Seq<u64>, address: int, length: int) -> Seq<u8> {
    Seq::new(length as nat, |i: int| byte_at(words, address + i))
}

proof fn lemma_byte_raw(word: u64, byte: u8, shift: u64, other: u64)
    by (bit_vector)
    requires
        shift == 0 || shift == 8 || shift == 16 || shift == 24 || shift == 32 || shift == 40
            || shift == 48 || shift == 56,
        other == 0 || other == 8 || other == 16 || other == 24 || other == 32 || other == 40
            || other == 48 || other == 56,
    ensures
        ((((word & !(0xffu64 << shift)) | ((byte as u64) << shift)) >> shift) & 0xff) as u8 == byte,
        shift != other ==> (((word & !(0xffu64 << shift)) | ((byte as u64) << shift)) >> other)
            & 0xff == (word >> other) & 0xff,
{
}

/// A byte that was written is read, and no other byte changes.
pub proof fn lemma_byte(words: Seq<u64>, address: int, byte: u8, other: int)
    requires
        0 <= address < words.len() * 8,
        0 <= other < words.len() * 8,
    ensures
        byte_at(with_byte_at(words, address, byte), other) == (if other == address {
            byte
        } else {
            byte_at(words, other)
        }),
        with_byte_at(words, address, byte).len() == words.len(),
{
    let shift = (8 * (address % 8)) as u64;
    let second = (8 * (other % 8)) as u64;
    lemma_byte_raw(words[address / 8], byte, shift, second);
}

/// Bytes that were stored are read, and no other byte changes.
pub proof fn lemma_stored(words: Seq<u64>, address: int, bytes: Seq<u8>, other: int)
    requires
        0 <= address,
        address + bytes.len() <= words.len() * 8,
        0 <= other < words.len() * 8,
    ensures
        stored(words, address, bytes).len() == words.len(),
        byte_at(stored(words, address, bytes), other) == (if address <= other < address
            + bytes.len() {
            bytes[other - address]
        } else {
            byte_at(words, other)
        }),
    decreases bytes.len(),
{
    if bytes.len() > 0 {
        lemma_stored(words, address, bytes.drop_last(), other);
        lemma_byte(
            stored(words, address, bytes.drop_last()),
            address + bytes.len() - 1,
            bytes.last(),
            other,
        );
    }
}

/// Storing bytes leaves the words beside them.
pub proof fn lemma_stored_words(words: Seq<u64>, address: int, bytes: Seq<u8>, word: int)
    requires
        0 <= address,
        address + bytes.len() <= words.len() * 8,
        0 <= word < words.len(),
        word * 8 + 8 <= address || address + bytes.len() <= word * 8,
    ensures
        stored(words, address, bytes).len() == words.len(),
        stored(words, address, bytes)[word] == words[word],
    decreases bytes.len(),
{
    if bytes.len() > 0 {
        lemma_stored_words(words, address, bytes.drop_last(), word);
    }
}

/// Physical memory. A page that was never written holds zeros.
pub struct PageMemory {
    pages: HashMap<u64, [u64; 512]>,
    frames: PhysicalFrames,
    cpu: u32,
    root: u64,
    flushes: Vec<Flush>,
}

impl View for PageMemory {
    type V = MemoryView;

    closed spec fn view(&self) -> MemoryView {
        MemoryView {
            words: Seq::new(
                WORDS as nat,
                |i: int|
                    if self.pages@.contains_key((i / 512) as u64) {
                        self.pages@[(i / 512) as u64]@[i % 512]
                    } else {
                        0
                    },
            ),
            frames: self.frames.view(),
            node: self.frames.cpu_nodes()[frame::cpu_slot(self.cpu)] as int % 8,
            root: self.root,
            flushes: self.flushes@,
        }
    }
}

impl PageMemory {
    pub closed spec fn wf(&self) -> bool {
        self.frames.wf() && self.frames.view().platform is X86_64
    }

    pub proof fn lemma_wf(&self)
        requires
            self.wf(),
        ensures
            self@.wf(),
    {
        self.frames.lemma_consistent();
    }

    /// Memory of zeros with these frames, used by a processor whose tables lie below
    /// `root`.
    pub fn new(frames: PhysicalFrames, cpu: u32, root: u64) -> (memory: Self)
        requires
            frames.wf(),
            frames.view().platform is X86_64,
        ensures
            memory.wf(),
            memory@.wf(),
            memory@.words == Seq::new(WORDS as nat, |i: int| 0u64),
            memory@.frames == frames.view(),
            memory@.node == frames.cpu_nodes()[frame::cpu_slot(cpu)] as int % 8,
            memory@.root == root,
            memory@.flushes == Seq::<Flush>::empty(),
    {
        broadcast use group_hash_axioms;

        let memory = PageMemory {
            pages: HashMap::new(),
            frames,
            cpu,
            root,
            flushes: Vec::new(),
        };
        proof {
            memory.lemma_wf();
            assert(memory@.words =~= Seq::new(WORDS as nat, |i: int| 0u64));
        }
        memory
    }

    /// Makes the frames of a memory map free.
    pub fn initialize_frames(&mut self, map: &MemoryMap, kernel_start: u64, kernel_end: u64)
        requires
            old(self).wf(),
            map@.platform is X86_64,
        ensures
            final(self).wf(),
            final(self)@ == (MemoryView {
                frames: frame::initialized_view(map@, kernel_start, kernel_end),
                ..old(self)@
            }),
    {
        let _ = frame::initialize(&mut self.frames, map, kernel_start, kernel_end);
        assert(self@.words =~= old(self)@.words);
        assert(self@ =~= (MemoryView {
            frames: frame::initialized_view(map@, kernel_start, kernel_end),
            ..old(self)@
        }));
    }

    pub fn read_word(&self, address: u64) -> (word: u64)
        requires
            address < BYTES,
        ensures
            word == self@.word(address as int),
    {
        broadcast use group_hash_axioms;

        let index: usize = (address / 8 % 512) as usize;
        assert((address as int / 8) / 512 == address as int / 4096);
        match self.pages.get(&(address / 4096)) {
            Some(page) => page[index],
            None => 0,
        }
    }

    pub fn write_word(&mut self, address: u64, value: u64)
        requires
            old(self).wf(),
            address < BYTES,
        ensures
            final(self).wf(),
            final(self)@ == old(self)@.with_word(address as int, value),
    {
        broadcast use group_hash_axioms;

        let index: usize = (address / 8 % 512) as usize;
        let mut page: [u64; 512] = match self.pages.get(&(address / 4096)) {
            Some(page) => *page,
            None => [0; 512],
        };
        page[index] = value;
        self.pages.insert(address / 4096, page);
        proof {
            assert((address as int / 8) / 512 == address as int / 4096);
            assert forall|i: int| 0 <= i < WORDS implies #[trigger] self@.words[i] == old(
                self,
            )@.with_word(address as int, value).words[i] by {
                if i / 512 == address as int / 4096 {
                    assert(i % 512 == index <==> i == address as int / 8);
                }
            }
            assert(self@.words =~= old(self)@.with_word(address as int, value).words);
            assert(self@ =~= old(self)@.with_word(address as int, value));
        }
    }

    /// Fills a frame with zeros.
    pub fn zero_frame(&mut self, address: u64)
        requires
            old(self).wf(),
            address < BYTES,
        ensures
            final(self).wf(),
            final(self)@ == old(self)@.zeroed(address as int),
    {
        broadcast use group_hash_axioms;

        self.pages.insert(address / 4096, [0; 512]);
        assert(self@.words =~= old(self)@.zeroed(address as int).words);
        assert(self@ =~= old(self)@.zeroed(address as int));
    }

    /// Copies a frame.
    pub fn copy_frame(&mut self, source: u64, target: u64)
        requires
            old(self).wf(),
            source % 4096 == 0,
            source < BYTES,
            target < BYTES,
        ensures
            final(self).wf(),
            final(self)@ == old(self)@.copied(source as int, target as int),
    {
        broadcast use group_hash_axioms;

        let page: [u64; 512] = match self.pages.get(&(source / 4096)) {
            Some(page) => *page,
            None => [0; 512],
        };
        self.pages.insert(target / 4096, page);
        proof {
            let after = old(self)@.copied(source as int, target as int);
            assert forall|i: int| 0 <= i < WORDS implies #[trigger] self@.words[i]
                == after.words[i] by {
                let from = source as int / 8 + i % 512;
                assert(from / 512 == source as int / 4096 && from % 512 == i % 512);
            }
            assert(self@.words =~= after.words);
            assert(self@ =~= after);
        }
    }

    pub fn read_byte(&self, address: u64) -> (byte: u8)
        requires
            address < BYTES,
        ensures
            byte == byte_at(self@.words, address as int),
    {
        let word: u64 = self.read_word(address);
        ((word >> (8 * (address % 8))) & 0xff) as u8
    }

    pub fn write_byte(&mut self, address: u64, byte: u8)
        requires
            old(self).wf(),
            address < BYTES,
        ensures
            final(self).wf(),
            final(self)@ == (MemoryView {
                words: with_byte_at(old(self)@.words, address as int, byte),
                ..old(self)@
            }),
    {
        let word: u64 = self.read_word(address);
        let shift: u64 = 8 * (address % 8);
        let value: u64 = (word & !(0xffu64 << shift)) | ((byte as u64) << shift);
        self.write_word(address, value);
    }

    /// Stores bytes from an address on.
    pub fn store(&mut self, address: u64, bytes: &[u8])
        requires
            old(self).wf(),
            address + bytes@.len() <= BYTES,
        ensures
            final(self).wf(),
            final(self)@ == (MemoryView {
                words: stored(old(self)@.words, address as int, bytes@),
                ..old(self)@
            }),
    {
        let mut index: usize = 0;
        assert(bytes@.subrange(0, 0) =~= Seq::empty());
        while index < bytes.len()
            invariant
                index <= bytes@.len(),
                self.wf(),
                address + bytes@.len() <= BYTES,
                self@ == (MemoryView {
                    words: stored(
                        old(self)@.words,
                        address as int,
                        bytes@.subrange(0, index as int),
                    ),
                    ..old(self)@
                }),
            decreases bytes@.len() - index,
        {
            proof {
                let next = bytes@.subrange(0, index + 1);
                assert(next.drop_last() =~= bytes@.subrange(0, index as int));
            }
            self.write_byte(address + index as u64, bytes[index]);
            index += 1;
        }
        assert(bytes@.subrange(0, index as int) =~= bytes@);
    }

    pub fn allocate(&mut self) -> (result: Result<PhysicalAddress, FrameError>)
        requires
            old(self).wf(),
        ensures
            final(self).wf(),
            (final(self)@, result) == old(self)@.allocated(),
            result is Ok ==> result->Ok_0.spec_u64() < MAX_DIRECT_MAPPED_PHYSICAL
                && result->Ok_0.spec_u64() % 4096 == 0,
    {
        proof {
            self.frames.lemma_consistent();
        }
        let cpu: u32 = self.cpu;
        let result = frame::allocate(&mut self.frames, cpu);
        proof {
            frame::lemma_allocation(
                old(self)@.frames,
                self@.frames,
                old(self)@.node,
                result,
            );
            assert(self@.words =~= old(self)@.words);
            assert(self@ =~= old(self)@.allocated().0);
        }
        result
    }

    pub fn deallocate(&mut self, frame: PhysicalAddress) -> (result: Result<(), FrameError>)
        requires
            old(self).wf(),
        ensures
            final(self).wf(),
            (final(self)@, result) == old(self)@.deallocated(frame.spec_u64()),
    {
        proof {
            self.frames.lemma_consistent();
        }
        let result = frame::deallocate(&mut self.frames, frame);
        proof {
            frame::lemma_deallocation(
                old(self)@.frames,
                self@.frames,
                frame.spec_u64(),
                result,
            );
            assert(self@.words =~= old(self)@.words);
            assert(self@ =~= old(self)@.deallocated(frame.spec_u64()).0);
        }
        result
    }

    pub fn stats(&self) -> (stats: FrameStats)
        requires
            self.wf(),
        ensures
            stats == frame::frame_stats(self@.frames),
    {
        frame::stats(&self.frames)
    }

    /// The root of the tables that the processor uses.
    pub fn root(&self) -> (root: u64)
        ensures
            root == self@.root,
    {
        self.root
    }

    pub fn flush(&mut self, flush: Flush)
        requires
            old(self).wf(),
        ensures
            final(self).wf(),
            final(self)@ == old(self)@.flushed(flush),
    {
        self.flushes.push(flush);
        assert(self@.words =~= old(self)@.words);
        assert(self@ =~= old(self)@.flushed(flush));
    }

    /// Lets the processor use the tables below another root.
    pub fn switch(&mut self, root: u64)
        requires
            old(self).wf(),
        ensures
            final(self).wf(),
            final(self)@ == old(self)@.switched(root),
    {
        self.root = root;
        self.flushes.push(Flush::Root(root));
        assert(self@.words =~= old(self)@.words);
        assert(self@ =~= old(self)@.switched(root));
    }

    /// Hands out what the processor has to forget.
    pub fn take_flushes(&mut self) -> (flushes: Vec<Flush>)
        requires
            old(self).wf(),
        ensures
            final(self).wf(),
            flushes@ == old(self)@.flushes,
            final(self)@ == (MemoryView { flushes: Seq::empty(), ..old(self)@ }),
    {
        let mut flushes: Vec<Flush> = Vec::new();
        let mut index: usize = 0;
        while index < self.flushes.len()
            invariant
                index <= self.flushes@.len(),
                *self == *old(self),
                flushes@ == self.flushes@.subrange(0, index as int),
            decreases self.flushes@.len() - index,
        {
            flushes.push(self.flushes[index]);
            index += 1;
            assert(flushes@ =~= self.flushes@.subrange(0, index as int));
        }
        assert(flushes@ =~= self.flushes@);
        self.flushes = Vec::new();
        assert(self@.words =~= old(self)@.words);
        assert(self@ =~= (MemoryView { flushes: Seq::empty(), ..old(self)@ }));
        flushes
    }
}

} // verus!
