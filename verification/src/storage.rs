//! Block devices: bytes in sectors, and a disk in memory.
use vstd::prelude::*;

verus! {

pub const SECTOR_SIZE: usize = 512;

#[derive(Clone, Copy, Debug, PartialEq, Eq, Structural)]
pub enum BlockError {
    /// The request reaches behind the end of the device.
    OutOfRange,
    /// The request is not made of whole sectors.
    Unaligned,
    /// The device failed.
    Device,
}

/// A block device: what it holds, what it was made to keep, and which requests it refuses.
#[verifier::ext_equal]
pub struct DeviceView {
    pub bytes: Seq<u8>,
    /// What the device held each time it was made to keep what was written. The last of these
    /// is what outlasts a loss of power; what was written since may be lost.
    pub kept: Seq<Seq<u8>>,
    /// What the device says to a request for so many bytes from a sector on, to write or
    /// to read.
    pub refuses: spec_fn(u64, int, bool) -> Option<BlockError>,
    /// What the device says to the request to keep what was written.
    pub flush_refuses: Option<BlockError>,
}

impl DeviceView {
    /// The bytes from a sector on.
    pub open spec fn at(self, first: int, length: int) -> Seq<u8> {
        self.bytes.subrange(first * 512, first * 512 + length)
    }

    /// The device after bytes were written from a sector on.
    pub open spec fn written(self, first: int, data: Seq<u8>) -> Self {
        DeviceView {
            bytes: Seq::new(
                self.bytes.len(),
                |i: int|
                    if first * 512 <= i < first * 512 + data.len() {
                        data[i - first * 512]
                    } else {
                        self.bytes[i]
                    },
            ),
            ..self
        }
    }

    /// The device after it was made to keep what was written.
    pub open spec fn keeping(self) -> Self {
        DeviceView { kept: self.kept.push(self.bytes), ..self }
    }

    /// Requests that are not refused lie on the device.
    pub open spec fn wf(self) -> bool {
        forall|first: u64, length: int, write: bool|
            length >= 0 && (#[trigger] (self.refuses)(first, length, write)) is None ==> first * 512
                + length <= self.bytes.len()
    }
}

/// A device that reads and writes sectors. A request that it refuses changes nothing.
pub trait BlockDevice {
    spec fn device(&self) -> DeviceView;

    /// Reads sectors into a buffer.
    fn read_sectors(&mut self, first: u64, output: &mut [u8]) -> (result: Result<(), BlockError>)
        requires
            old(self).device().wf(),
        ensures
            final(self).device() == old(self).device(),
            final(output)@.len() == old(output)@.len(),
            match (old(self).device().refuses)(first, old(output)@.len() as int, false) {
                Some(error) => result == Err::<(), BlockError>(error),
                None => result is Ok && final(output)@ == old(self).device().at(
                    first as int,
                    old(output)@.len() as int,
                ),
            },
    ;

    /// Writes sectors.
    fn write_sectors(&mut self, first: u64, input: &[u8]) -> (result: Result<(), BlockError>)
        requires
            old(self).device().wf(),
        ensures
            final(self).device().wf(),
            match (old(self).device().refuses)(first, input@.len() as int, true) {
                Some(error) => result == Err::<(), BlockError>(error) && final(self).device() == old(
                    self,
                ).device(),
                None => result is Ok && final(self).device() == old(self).device().written(
                    first as int,
                    input@,
                ),
            },
    ;

    /// Keeps what was written.
    fn flush(&mut self) -> (result: Result<(), BlockError>)
        requires
            old(self).device().wf(),
        ensures
            match old(self).device().flush_refuses {
                Some(error) => result == Err::<(), BlockError>(error) && final(self).device() == old(
                    self,
                ).device(),
                None => result is Ok && final(self).device() == old(self).device().keeping(),
            },
    ;
}

/// A disk in memory.
pub struct MemoryDisk {
    bytes: Vec<u8>,
    kept: Ghost<Seq<Seq<u8>>>,
}

/// What a disk of so many bytes says to a request.
pub open spec fn disk_refuses(size: int, first: u64, length: int) -> Option<BlockError> {
    if length % 512 != 0 {
        Some(BlockError::Unaligned)
    } else if first * 512 + length > size {
        Some(BlockError::OutOfRange)
    } else {
        None
    }
}

/// The disk that holds these bytes and was made to keep others before.
pub open spec fn disk_of(bytes: Seq<u8>, kept: Seq<Seq<u8>>) -> DeviceView {
    DeviceView {
        bytes,
        kept,
        refuses: |first: u64, length: int, write: bool| disk_refuses(
            bytes.len() as int,
            first,
            length,
        ),
        flush_refuses: None,
    }
}

impl MemoryDisk {
    pub closed spec fn contents(&self) -> Seq<u8> {
        self.bytes@
    }

    /// What the disk held each time it was made to keep it.
    pub closed spec fn kept(&self) -> Seq<Seq<u8>> {
        self.kept@
    }

    /// A disk of zeros.
    pub fn new(size: usize) -> (disk: Self)
        ensures
            disk.contents() == Seq::new(size as nat, |i: int| 0u8),
            disk.kept() == Seq::<Seq<u8>>::empty(),
            disk.device() == disk_of(disk.contents(), disk.kept()),
            disk.device().wf(),
    {
        let mut bytes: Vec<u8> = Vec::new();
        let mut index: usize = 0;
        while index < size
            invariant
                index <= size,
                bytes@ == Seq::new(index as nat, |i: int| 0u8),
            decreases size - index,
        {
            bytes.push(0);
            index += 1;
            assert(bytes@ =~= Seq::new(index as nat, |i: int| 0u8));
        }
        let disk = MemoryDisk { bytes, kept: Ghost(Seq::empty()) };
        proof {
            lemma_disk_wf(disk.contents(), disk.kept());
        }
        disk
    }

    /// Puts bytes on the disk.
    pub fn store(&mut self, offset: usize, data: &[u8])
        requires
            offset + data@.len() <= old(self).contents().len(),
        ensures
            final(self).contents() == Seq::new(
                old(self).contents().len(),
                |i: int|
                    if offset <= i < offset + data@.len() {
                        data@[i - offset]
                    } else {
                        old(self).contents()[i]
                    },
            ),
            final(self).kept() == old(self).kept(),
            final(self).device() == disk_of(final(self).contents(), final(self).kept()),
    {
        let size: usize = self.bytes.len();
        let mut index: usize = 0;
        while index < data.len()
            invariant
                index <= data@.len(),
                size == old(self).bytes@.len(),
                offset + data@.len() <= old(self).bytes@.len(),
                self.bytes@.len() == old(self).bytes@.len(),
                self.kept == old(self).kept,
                forall|i: int|
                    0 <= i < self.bytes@.len() ==> #[trigger] self.bytes@[i] == (if offset <= i
                        < offset + index {
                        data@[i - offset]
                    } else {
                        old(self).bytes@[i]
                    }),
            decreases data@.len() - index,
        {
            self.bytes.set(offset + index, data[index]);
            index += 1;
        }
        assert(self.bytes@ =~= Seq::new(
            old(self).contents().len(),
            |i: int|
                if offset <= i < offset + data@.len() {
                    data@[i - offset]
                } else {
                    old(self).contents()[i]
                },
        ));
    }
}

proof fn lemma_disk_wf(bytes: Seq<u8>, kept: Seq<Seq<u8>>)
    ensures
        disk_of(bytes, kept).wf(),
{
    let device = disk_of(bytes, kept);
    assert forall|first: u64, length: int, write: bool|
        length >= 0 && (#[trigger] (device.refuses)(first, length, write)) is None implies first * 512
        + length <= device.bytes.len() by {
        assert((device.refuses)(first, length, write) == disk_refuses(
            bytes.len() as int,
            first,
            length,
        ));
    }
}

impl BlockDevice for MemoryDisk {
    open spec fn device(&self) -> DeviceView {
        disk_of(self.contents(), self.kept())
    }

    fn read_sectors(&mut self, first: u64, output: &mut [u8]) -> (result: Result<(), BlockError>) {
        let length: usize = output.len();
        let size: usize = self.bytes.len();
        if length % SECTOR_SIZE != 0 {
            return Err(BlockError::Unaligned);
        }
        let start: u64 = match first.checked_mul(512) {
            None => {
                return Err(BlockError::OutOfRange);
            },
            Some(start) => start,
        };
        if start > size as u64 || length as u64 > size as u64 - start {
            return Err(BlockError::OutOfRange);
        }
        let base: usize = start as usize;
        let mut index: usize = 0;
        while index < length
            invariant
                index <= length,
                length == output@.len(),
                base + length <= self.bytes@.len(),
                self.bytes@.len() == size,
                *self == *old(self),
                forall|i: int| 0 <= i < index ==> #[trigger] output@[i] == self.bytes@[base + i],
            decreases length - index,
        {
            output[index] = self.bytes[base + index];
            index += 1;
        }
        assert(output@ =~= old(self).device().at(first as int, length as int));
        Ok(())
    }

    fn write_sectors(&mut self, first: u64, input: &[u8]) -> (result: Result<(), BlockError>) {
        let length: usize = input.len();
        let size: usize = self.bytes.len();
        proof {
            lemma_disk_wf(self.contents(), self.kept());
        }
        if length % SECTOR_SIZE != 0 {
            return Err(BlockError::Unaligned);
        }
        let start: u64 = match first.checked_mul(512) {
            None => {
                return Err(BlockError::OutOfRange);
            },
            Some(start) => start,
        };
        if start > size as u64 || length as u64 > size as u64 - start {
            return Err(BlockError::OutOfRange);
        }
        self.store(start as usize, input);
        proof {
            lemma_disk_wf(self.contents(), self.kept());
            assert(self.contents() =~= old(self).device().written(first as int, input@).bytes);
            assert(self.contents().len() == old(self).contents().len());
            assert(self.device().refuses =~= old(self).device().refuses);
            assert(self.device() =~= old(self).device().written(first as int, input@));
        }
        Ok(())
    }

    fn flush(&mut self) -> (result: Result<(), BlockError>) {
        self.kept = Ghost(self.kept@.push(self.bytes@));
        proof {
            assert(self.device() =~= old(self).device().keeping());
        }
        Ok(())
    }
}

} // verus!
