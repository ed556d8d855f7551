//! The first root file system: three files that are always there, and archives in the
//! `newc` form.
use crate::extfs;
use crate::fixed;
use crate::fixed::InlineString;
use crate::text;
use vstd::prelude::*;
use vstd::slice::slice_subrange;
use vstd::string::StringSliceAdditionalSpecFns;
use vstd::utf8::*;

verus! {

/// The largest file that can be unpacked.
pub const MAX_FILE_BYTES: usize = 2048;

/// A file that is always there.
#[derive(Clone, Copy)]
pub struct InitramfsEntry {
    pub path: &'static str,
    pub data: &'static str,
    pub mode: u16,
}

/// What came of mounting the root.
#[derive(Clone, Copy, Debug, PartialEq, Eq, Structural)]
pub struct RootMountSummary {
    pub mounted: bool,
    pub entries: usize,
    pub bytes: usize,
    pub recovered: bool,
}

/// What an archive holds.
#[derive(Clone, Copy, Debug, PartialEq, Eq, Structural)]
pub struct NewcSummary {
    pub valid: bool,
    pub entries: usize,
    pub bytes: usize,
}

/// The number of files that are always there.
pub const BUILTIN_COUNT: usize = 3;

/// File `index` of those that are always there.
pub open spec fn builtin_at(index: int) -> InitramfsEntry {
    if index == 0 {
        InitramfsEntry {
            path: "/init",
            data: "#!/bin/sh\necho Rustix initramfs\n",
            mode: 0o755,
        }
    } else if index == 1 {
        InitramfsEntry {
            path: "/etc/initramfs.conf",
            data: "root=/dev/ram0\nrootfstype=tmpfs\nfsck.mode=auto\n",
            mode: 0o644,
        }
    } else {
        InitramfsEntry {
            path: "/etc/motd.initramfs",
            data: "Rustix initramfs root mounted\n",
            mode: 0o644,
        }
    }
}

/// File `index` of those that are always there.
pub fn builtin(index: usize) -> (entry: InitramfsEntry)
    requires
        index < BUILTIN_COUNT,
    ensures
        entry == builtin_at(index as int),
{
    if index == 0 {
        InitramfsEntry {
            path: "/init",
            data: "#!/bin/sh\necho Rustix initramfs\n",
            mode: 0o755,
        }
    } else if index == 1 {
        InitramfsEntry {
            path: "/etc/initramfs.conf",
            data: "root=/dev/ram0\nrootfstype=tmpfs\nfsck.mode=auto\n",
            mode: 0o644,
        }
    } else {
        InitramfsEntry {
            path: "/etc/motd.initramfs",
            data: "Rustix initramfs root mounted\n",
            mode: 0o644,
        }
    }
}

/// How many of the first `count` files were stored.
pub open spec fn stored_count(stored: Seq<bool>, count: nat) -> nat
    decreases count,
{
    if count == 0 {
        0
    } else {
        stored_count(stored, (count - 1) as nat) + (if stored[count - 1] {
            1nat
        } else {
            0
        })
    }
}

/// How many bytes those of the first `count` files hold that were stored.
pub open spec fn stored_bytes(stored: Seq<bool>, count: nat) -> nat
    decreases count,
{
    if count == 0 {
        0
    } else {
        stored_bytes(stored, (count - 1) as nat) + (if stored[count - 1] {
            builtin_at(count - 1).data.spec_bytes().len()
        } else {
            0
        })
    }
}

/// The root file system.
pub struct Root {
    summary: RootMountSummary,
}

impl Root {
    pub closed spec fn mounting(&self) -> RootMountSummary {
        self.summary
    }

    /// A root that is not mounted.
    pub fn new() -> (root: Self)
        ensures
            root.mounting() == (RootMountSummary {
                mounted: false,
                entries: 0,
                bytes: 0,
                recovered: false,
            }),
    {
        Root {
            summary: RootMountSummary { mounted: false, entries: 0, bytes: 0, recovered: false },
        }
    }

    pub fn summary(&self) -> (summary: RootMountSummary)
        ensures
            summary == self.mounting(),
    {
        self.summary
    }

    /// Mounts the root, once: which of the files could be stored with their texts and
    /// modes, and whether the file system is consistent, is known to the caller.
    pub fn mount_root(&mut self, stored: [bool; 3], recovered: bool) -> (summary: RootMountSummary)
        ensures
            summary == final(self).mounting(),
            old(self).mounting().mounted ==> summary == old(self).mounting(),
            !old(self).mounting().mounted ==> summary == (RootMountSummary {
                mounted: stored_count(stored@, 3) == BUILTIN_COUNT,
                entries: stored_count(stored@, 3) as usize,
                bytes: stored_bytes(stored@, 3) as usize,
                recovered,
            }),
            stored_bytes(stored@, 3) < 200,
    {
        proof {
            lemma_stored(stored@);
        }
        if self.summary.mounted {
            return self.summary;
        }
        let mut entries: usize = 0;
        let mut bytes: usize = 0;
        let mut index: usize = 0;
        while index < BUILTIN_COUNT
            invariant
                index <= BUILTIN_COUNT,
                entries == stored_count(stored@, index as nat),
                bytes == stored_bytes(stored@, index as nat),
                entries <= index,
                bytes <= index * 60,
            decreases BUILTIN_COUNT - index,
        {
            let entry = builtin(index);
            proof {
                lemma_builtin_size(index as int);
            }
            if stored[index] {
                let length: usize = entry.data.as_bytes().len();
                entries += 1;
                bytes = bytes + length;
            }
            index += 1;
        }
        self.summary = RootMountSummary {
            mounted: entries == BUILTIN_COUNT,
            entries,
            bytes,
            recovered,
        };
        self.summary
    }
}

proof fn lemma_builtin_size(index: int)
    ensures
        builtin_at(index).data.spec_bytes().len() <= 60,
{
    reveal_strlit("#!/bin/sh\necho Rustix initramfs\n");
    reveal_strlit("root=/dev/ram0\nrootfstype=tmpfs\nfsck.mode=auto\n");
    reveal_strlit("Rustix initramfs root mounted\n");
    let text = builtin_at(index).data@;
    assert(forall|i: int| 0 <= i < text.len() ==> (#[trigger] text[i]) as u32 <= 127);
    vstd::utf8::is_ascii_chars_encode_utf8(text);
}

proof fn lemma_stored(stored: Seq<bool>)
    ensures
        stored_bytes(stored, 3) < 200,
        stored_count(stored, 3) <= 3,
{
    reveal_with_fuel(stored_bytes, 4);
    reveal_with_fuel(stored_count, 4);
    lemma_builtin_size(0);
    lemma_builtin_size(1);
    lemma_builtin_size(2);
}

/// The value of a hexadecimal digit; another byte counts as zero.
pub open spec fn hex_value_of(byte: u8) -> nat {
    if 48 <= byte <= 57 {
        (byte - 48) as nat
    } else if 97 <= byte <= 102 {
        (byte - 87) as nat
    } else if 65 <= byte <= 70 {
        (byte - 55) as nat
    } else {
        0
    }
}

/// The number that hexadecimal digits write.
pub open spec fn hex_value(digits: Seq<u8>) -> nat
    decreases digits.len(),
{
    if digits.len() == 0 {
        0
    } else {
        hex_value(digits.drop_last()) * 16 + hex_value_of(digits.last())
    }
}

/// A number rounded up to a multiple of four.
pub open spec fn padded_to_four(value: int) -> int {
    (value + 3) / 4 * 4
}

/// An entry of an archive.
#[derive(Clone, Copy, Debug, PartialEq, Eq, Structural)]
pub struct NewcEntry {
    pub mode: u16,
    pub name_start: usize,
    pub name_end: usize,
    pub data_start: usize,
    pub data_end: usize,
    pub next: usize,
}

/// What stands at a place in an archive.
#[derive(Clone, Copy, Debug, PartialEq, Eq, Structural)]
pub enum NewcItem {
    /// No header, or not a whole one.
    End,
    /// A header that points behind the archive.
    Invalid,
    /// The entry that ends an archive.
    Trailer,
    Entry(NewcEntry),
}

/// The name of the entry that ends an archive.
pub open spec fn trailer_name() -> Seq<u8> {
    text::literal("TRAILER!!!")
}

/// What stands at a place in an archive.
pub open spec fn item_at(archive: Seq<u8>, offset: int) -> NewcItem {
    let size = hex_value(archive.subrange(offset + 54, offset + 62));
    let name_size = hex_value(archive.subrange(offset + 94, offset + 102));
    let name_end = offset + 110 + name_size;
    let data_start = padded_to_four(name_end);
    let data_end = data_start + size;
    if offset + 110 > archive.len() || archive.subrange(offset, offset + 6) != text::literal(
        "070701",
    ) {
        NewcItem::End
    } else if name_end > archive.len() || data_end > archive.len() || name_size == 0 {
        NewcItem::Invalid
    } else if archive.subrange(offset + 110, name_end - 1) == trailer_name() {
        NewcItem::Trailer
    } else {
        NewcItem::Entry(
            NewcEntry {
                mode: (hex_value(archive.subrange(offset + 14, offset + 22)) % 0x1_0000) as u16,
                name_start: (offset + 110) as usize,
                name_end: (name_end - 1) as usize,
                data_start: data_start as usize,
                data_end: data_end as usize,
                next: padded_to_four(data_end) as usize,
            },
        )
    }
}

/// A sum that stops at the largest number.
pub open spec fn saturated_sum(first: int, second: int) -> int {
    if first + second > usize::MAX {
        usize::MAX as int
    } else {
        first + second
    }
}

/// What the entries of an archive add up to, from a place on.
pub open spec fn walked(archive: Seq<u8>, offset: int, entries: int, bytes: int) -> NewcSummary
    decreases archive.len() + 4 - offset,
{
    match item_at(archive, offset) {
        NewcItem::Entry(entry) => if entry.next <= offset || entry.next > archive.len() + 3 {
            NewcSummary { valid: false, entries: entries as usize, bytes: bytes as usize }
        } else {
            walked(
                archive,
                entry.next as int,
                entries + 1,
                saturated_sum(bytes, entry.data_end - entry.data_start),
            )
        },
        item => NewcSummary {
            valid: item == NewcItem::Trailer,
            entries: entries as usize,
            bytes: bytes as usize,
        },
    }
}

/// The number that hexadecimal digits write, which must be at most eight.
fn parse_hex(digits: &[u8]) -> (value: usize)
    requires
        digits@.len() <= 8,
    ensures
        value == hex_value(digits@),
        value <= 0xffff_ffff,
{
    let mut value: usize = 0;
    let mut index: usize = 0;
    let mut limit: u64 = 1;
    while index < digits.len()
        invariant
            index <= digits@.len() <= 8,
            value == hex_value(digits@.take(index as int)),
            value < limit,
            index == 0 ==> limit == 1,
            index == 1 ==> limit == 0x10,
            index == 2 ==> limit == 0x100,
            index == 3 ==> limit == 0x1000,
            index == 4 ==> limit == 0x1_0000,
            index == 5 ==> limit == 0x10_0000,
            index == 6 ==> limit == 0x100_0000,
            index == 7 ==> limit == 0x1000_0000,
            index == 8 ==> limit == 0x1_0000_0000,
        decreases digits@.len() - index,
    {
        let byte: u8 = digits[index];
        let digit: u8 = if byte >= 48 && byte <= 57 {
            byte - 48
        } else if byte >= 97 && byte <= 102 {
            byte - 87
        } else if byte >= 65 && byte <= 70 {
            byte - 55
        } else {
            0
        };
        assert(digits@.take(index + 1).drop_last() =~= digits@.take(index as int));
        value = value * 16 + digit as usize;
        limit = limit * 16;
        index += 1;
    }
    assert(digits@.take(index as int) =~= digits@);
    value
}

/// What stands at a place in an archive.
fn read_item(archive: &[u8], offset: usize) -> (item: NewcItem)
    requires
        archive@.len() + 4 <= usize::MAX,
    ensures
        item == item_at(archive@, offset as int),
        item matches NewcItem::Entry(entry) ==> offset + 110 < entry.next <= archive@.len() + 3
            && entry.name_start <= entry.name_end <= entry.data_start <= entry.data_end
            <= archive@.len() && offset + 110 <= archive@.len(),
{
    let length: usize = archive.len();
    if length < 110 || offset > length - 110 {
        return NewcItem::End;
    }
    if !text::equal(
        slice_subrange(archive, offset, offset + 6),
        text::literal_bytes("070701"),
    ) {
        return NewcItem::End;
    }
    let mode: usize = parse_hex(slice_subrange(archive, offset + 14, offset + 22));
    let size: usize = parse_hex(slice_subrange(archive, offset + 54, offset + 62));
    let name_size: usize = parse_hex(slice_subrange(archive, offset + 94, offset + 102));
    let name_start: usize = offset + 110;
    if name_size == 0 || name_size > length - name_start {
        return NewcItem::Invalid;
    }
    let name_end: usize = name_start + name_size;
    let data_start: usize = (name_end + 3) / 4 * 4;
    if data_start > length || size > length - data_start {
        return NewcItem::Invalid;
    }
    let data_end: usize = data_start + size;
    if text::equal(
        slice_subrange(archive, name_start, name_end - 1),
        text::literal_bytes("TRAILER!!!"),
    ) {
        return NewcItem::Trailer;
    }
    NewcItem::Entry(
        NewcEntry {
            mode: (mode % 0x1_0000) as u16,
            name_start,
            name_end: name_end - 1,
            data_start,
            data_end,
            next: (data_end + 3) / 4 * 4,
        },
    )
}

/// Adds up the entries of an archive. An archive is valid if it has the entry that ends
/// it and no entry before it points behind the archive.
pub fn parse_newc(archive: &[u8]) -> (summary: NewcSummary)
    requires
        archive@.len() + 4 <= usize::MAX,
    ensures
        summary == walked(archive@, 0, 0, 0),
{
    let mut offset: usize = 0;
    let mut entries: usize = 0;
    let mut bytes: usize = 0;
    let length: usize = archive.len();
    loop
        invariant
            length == archive@.len(),
            archive@.len() + 4 <= usize::MAX,
            entries <= offset <= length + 3,
            walked(archive@, offset as int, entries as int, bytes as int) == walked(
                archive@,
                0,
                0,
                0,
            ),
        decreases length + 4 - offset,
    {
        match read_item(archive, offset) {
            NewcItem::Entry(entry) => {
                entries += 1;
                bytes = bytes.saturating_add(entry.data_end - entry.data_start);
                offset = entry.next;
            },
            NewcItem::Trailer => {
                return NewcSummary { valid: true, entries, bytes };
            },
            _ => {
                return NewcSummary { valid: false, entries, bytes };
            },
        }
    }
}

/// What an unpacking waits for.
#[derive(Clone, Copy, Debug, PartialEq, Eq, Structural)]
pub enum UnpackStage {
    /// The next entry.
    Entry,
    /// Whether a directory on the way to the entry is there.
    CheckParent,
    /// The making of a directory on the way to the entry.
    MakeParent,
    /// The making of the directory that the entry is.
    MakeDirectory,
    /// Whether that directory is there already.
    CheckDirectory,
    /// The making of the file that the entry is.
    MakeFile,
    /// The writing of the file.
    WriteFile,
    /// The setting of the mode of the file.
    SetMode,
    /// Nothing more.
    Finished,
}

/// What an unpacking asks of the file system, for the path that comes with it.
#[derive(Clone, Copy, Debug, PartialEq, Eq, Structural)]
pub enum UnpackRequest {
    IsDirectory,
    CreateDirectory { mode: u16 },
    CreateFile { mode: u16 },
    WriteText { start: usize, end: usize },
    ChangeMode { mode: u16 },
    Finished(NewcSummary),
}

/// An unpacking, as far as it has come.
#[verifier::ext_equal]
pub struct UnpackView {
    pub stage: UnpackStage,
    pub offset: int,
    pub entries: int,
    pub bytes: int,
    pub valid: bool,
    pub entry: NewcEntry,
    /// The path of the entry.
    pub path: Seq<u8>,
    /// The directory on the way to it that was asked for last.
    pub parent: Seq<u8>,
    /// How much of the path that directory takes.
    pub passed: int,
}

impl UnpackView {
    pub open spec fn summary(self) -> NewcSummary {
        NewcSummary {
            valid: self.valid,
            entries: self.entries as usize,
            bytes: self.bytes as usize,
        }
    }

    /// The end of the unpacking.
    pub open spec fn finished(self, valid: bool) -> (UnpackView, UnpackRequest, Seq<u8>) {
        let last = UnpackView { stage: UnpackStage::Finished, valid, ..self };
        (last, UnpackRequest::Finished(last.summary()), Seq::empty())
    }

    /// The entry itself, with all directories on the way to it there.
    pub open spec fn body(self) -> (UnpackView, UnpackRequest, Seq<u8>) {
        let kind = self.entry.mode as int / 4096;
        if kind == 4 {
            (
                UnpackView { stage: UnpackStage::MakeDirectory, ..self },
                UnpackRequest::CreateDirectory { mode: (self.entry.mode % 4096) as u16 },
                self.path,
            )
        } else if kind == 8 && self.entry.data_end - self.entry.data_start <= MAX_FILE_BYTES {
            (
                UnpackView { stage: UnpackStage::MakeFile, ..self },
                UnpackRequest::CreateFile { mode: 0o600 },
                self.path,
            )
        } else {
            self.finished(false)
        }
    }

    /// The next directory on the way to the entry, or the entry itself.
    pub open spec fn onward(self) -> (UnpackView, UnpackRequest, Seq<u8>) {
        let start = extfs::past_slashes(self.path, self.passed);
        let end = extfs::next_slash(self.path, start);
        let parent = self.parent.push(47) + self.path.subrange(start, end);
        if end >= self.path.len() {
            self.body()
        } else if parent.len() > 64 {
            self.finished(false)
        } else {
            (
                UnpackView { stage: UnpackStage::CheckParent, parent, passed: end, ..self },
                UnpackRequest::IsDirectory,
                parent,
            )
        }
    }

    /// The next entry of the archive.
    pub open spec fn begun(self, archive: Seq<u8>) -> (UnpackView, UnpackRequest, Seq<u8>) {
        match item_at(archive, self.offset) {
            NewcItem::Trailer => self.finished(true),
            NewcItem::Entry(entry) => {
                let name = archive.subrange(entry.name_start as int, entry.name_end as int);
                let start = extfs::past_slashes(name, 0);
                let path = seq![47u8] + name.skip(start);
                if !valid_utf8(name) || path.len() > 64 {
                    self.finished(false)
                } else {
                    UnpackView {
                        stage: UnpackStage::Entry,
                        entry,
                        path,
                        parent: Seq::empty(),
                        passed: 0,
                        ..self
                    }.onward()
                }
            },
            _ => self.finished(false),
        }
    }

    /// The entry was stored.
    pub open spec fn counted(self) -> UnpackView {
        UnpackView {
            offset: self.entry.next as int,
            entries: self.entries + 1,
            bytes: saturated_sum(self.bytes, self.entry.data_end - self.entry.data_start),
            ..self
        }
    }

    /// What follows on the file system's reply.
    pub open spec fn replied(self, archive: Seq<u8>, reply: bool) -> (
        UnpackView,
        UnpackRequest,
        Seq<u8>,
    ) {
        match self.stage {
            UnpackStage::Entry => self.begun(archive),
            UnpackStage::CheckParent => if reply {
                self.onward()
            } else {
                (
                    UnpackView { stage: UnpackStage::MakeParent, ..self },
                    UnpackRequest::CreateDirectory { mode: 0o755 },
                    self.parent,
                )
            },
            UnpackStage::MakeParent => if reply {
                self.onward()
            } else {
                self.finished(false)
            },
            UnpackStage::MakeDirectory => if reply {
                self.counted().begun(archive)
            } else {
                (
                    UnpackView { stage: UnpackStage::CheckDirectory, ..self },
                    UnpackRequest::IsDirectory,
                    self.path,
                )
            },
            UnpackStage::CheckDirectory => if reply {
                self.counted().begun(archive)
            } else {
                self.finished(false)
            },
            UnpackStage::MakeFile => if reply && valid_utf8(
                archive.subrange(self.entry.data_start as int, self.entry.data_end as int),
            ) {
                (
                    UnpackView { stage: UnpackStage::WriteFile, ..self },
                    UnpackRequest::WriteText {
                        start: self.entry.data_start,
                        end: self.entry.data_end,
                    },
                    self.path,
                )
            } else {
                self.finished(false)
            },
            UnpackStage::WriteFile => if reply {
                (
                    UnpackView { stage: UnpackStage::SetMode, ..self },
                    UnpackRequest::ChangeMode { mode: (self.entry.mode % 4096) as u16 },
                    self.path,
                )
            } else {
                self.finished(false)
            },
            UnpackStage::SetMode => if reply {
                self.counted().begun(archive)
            } else {
                self.finished(false)
            },
            UnpackStage::Finished => (
                self,
                UnpackRequest::Finished(self.summary()),
                Seq::empty(),
            ),
        }
    }
}

/// The unpacking of an archive, one request to the file system after the other.
pub struct NewcUnpacker {
    stage: UnpackStage,
    offset: usize,
    entries: usize,
    bytes: usize,
    valid: bool,
    entry: NewcEntry,
    path: InlineString<64>,
    parent: InlineString<64>,
    passed: usize,
    length: usize,
}

impl View for NewcUnpacker {
    type V = UnpackView;

    closed spec fn view(&self) -> UnpackView {
        UnpackView {
            stage: self.stage,
            offset: self.offset as int,
            entries: self.entries as int,
            bytes: self.bytes as int,
            valid: self.valid,
            entry: self.entry,
            path: self.path@,
            parent: self.parent@,
            passed: self.passed as int,
        }
    }
}

impl NewcUnpacker {
    /// The unpacking is of an archive of this length.
    pub closed spec fn wf(&self, length: nat) -> bool {
        &&& self.length == length
        &&& length + 4 <= usize::MAX
        &&& self.offset <= length + 3
        &&& self.entries <= self.offset
        &&& self.stage is Entry || self.stage is Finished || {
            &&& self.entry.data_start <= self.entry.data_end <= length
            &&& self.offset < self.entry.next <= length + 3
            &&& self.passed <= self.path@.len()
            &&& self.passed < self.path@.len() ==> self.path@[self.passed as int] == 47
        }
    }

    /// An unpacking that has not begun.
    pub fn new(archive: &[u8]) -> (unpacker: Self)
        requires
            archive@.len() + 4 <= usize::MAX,
        ensures
            unpacker.wf(archive@.len()),
            unpacker@ == (UnpackView {
                stage: UnpackStage::Entry,
                offset: 0,
                entries: 0,
                bytes: 0,
                valid: false,
                entry: NewcEntry {
                    mode: 0,
                    name_start: 0,
                    name_end: 0,
                    data_start: 0,
                    data_end: 0,
                    next: 0,
                },
                path: Seq::empty(),
                parent: Seq::empty(),
                passed: 0,
            }),
    {
        NewcUnpacker {
            stage: UnpackStage::Entry,
            offset: 0,
            entries: 0,
            bytes: 0,
            valid: false,
            entry: NewcEntry {
                mode: 0,
                name_start: 0,
                name_end: 0,
                data_start: 0,
                data_end: 0,
                next: 0,
            },
            path: InlineString::new(),
            parent: InlineString::new(),
            passed: 0,
            length: archive.len(),
        }
    }

    fn finish(&mut self, valid: bool) -> (next: (UnpackRequest, InlineString<64>))
        requires
            old(self).wf(old(self).length as nat),
        ensures
            final(self).wf(old(self).length as nat),
            (final(self)@, next.0, next.1@) == old(self)@.finished(valid),
    {
        self.stage = UnpackStage::Finished;
        self.valid = valid;
        (
            UnpackRequest::Finished(
                NewcSummary { valid, entries: self.entries, bytes: self.bytes },
            ),
            InlineString::new(),
        )
    }

    fn start_body(&mut self) -> (next: (UnpackRequest, InlineString<64>))
        requires
            old(self).wf(old(self).length as nat),
            !(old(self).stage is Entry) && !(old(self).stage is Finished),
        ensures
            final(self).wf(old(self).length as nat),
            (final(self)@, next.0, next.1@) == old(self)@.body(),
    {
        let kind: u16 = self.entry.mode / 4096;
        if kind == 4 {
            self.stage = UnpackStage::MakeDirectory;
            (UnpackRequest::CreateDirectory { mode: self.entry.mode % 4096 }, self.path)
        } else if kind == 8 && self.entry.data_end - self.entry.data_start <= MAX_FILE_BYTES {
            self.stage = UnpackStage::MakeFile;
            (UnpackRequest::CreateFile { mode: 0o600 }, self.path)
        } else {
            self.finish(false)
        }
    }

    /// The next directory of those that a path leads through, as the path has
    /// them, with one slash between two.
    fn ensure_parents(&mut self) -> (next: (UnpackRequest, InlineString<64>))
        requires
            old(self).wf(old(self).length as nat),
            !(old(self).stage is Entry) && !(old(self).stage is Finished),
        ensures
            final(self).wf(old(self).length as nat),
            (final(self)@, next.0, next.1@) == old(self)@.onward(),
    {
        let path = self.path.as_bytes();
        let start: usize = extfs::skip_slashes(path, self.passed);
        let end: usize = extfs::find_slash(path, start);
        if end >= path.len() {
            return self.start_body();
        }
        let component = slice_subrange(path, start, end);
        proof {
            text::lemma_cut_at_ascii(path@, end as int);
            text::lemma_cut_at_ascii(path@.take(end as int), start - 1);
            assert(path@.take(end as int).skip(start as int) =~= component@);
        }
        let mut parent = self.parent;
        if parent.push_byte(47).is_err() || parent.push_bytes(component).is_err() {
            return self.finish(false);
        }
        self.parent = parent;
        self.passed = end;
        self.stage = UnpackStage::CheckParent;
        (UnpackRequest::IsDirectory, parent)
    }

    fn begin(&mut self, archive: &[u8]) -> (next: (UnpackRequest, InlineString<64>))
        requires
            old(self).length == archive@.len(),
            archive@.len() + 4 <= usize::MAX,
            old(self).offset <= archive@.len() + 3,
            old(self).entries <= old(self).offset,
        ensures
            final(self).wf(archive@.len()),
            (final(self)@, next.0, next.1@) == old(self)@.begun(archive@),
    {
        self.stage = UnpackStage::Entry;
        match read_item(archive, self.offset) {
            NewcItem::Trailer => self.finish(true),
            NewcItem::Entry(entry) => {
                let name = slice_subrange(archive, entry.name_start, entry.name_end);
                let start: usize = extfs::skip_slashes(name, 0);
                let rest = slice_subrange(name, start, name.len());
                assert(rest@ =~= name@.skip(start as int));
                if fixed::utf8_text(name).is_none() {
                    return self.finish(false);
                }
                proof {
                    if start > 0 {
                        text::lemma_cut_at_ascii(name@, start - 1);
                    } else {
                        assert(name@.skip(0) =~= name@);
                    }
                }
                let mut path: InlineString<64> = InlineString::new();
                let slash = path.push_byte(47);
                let name_fits = path.push_bytes(rest);
                if slash.is_err() || name_fits.is_err() {
                    return self.finish(false);
                }
                assert(path@ =~= seq![47u8] + name@.skip(start as int));
                let ghost before = self@;
                self.entry = entry;
                self.path = path;
                self.parent = InlineString::new();
                self.passed = 0;
                self.stage = UnpackStage::CheckParent;
                let ghost here = self@;
                assert(here.onward() == (UnpackView { stage: UnpackStage::Entry, ..here }).onward());
                self.ensure_parents()
            },
            _ => self.finish(false),
        }
    }

    fn count_entry(&mut self)
        requires
            old(self).wf(old(self).length as nat),
            !(old(self).stage is Entry) && !(old(self).stage is Finished),
        ensures
            final(self)@ == old(self)@.counted(),
            final(self).length == old(self).length,
            final(self).offset <= final(self).length + 3,
            final(self).entries <= final(self).offset,
    {
        self.entries = self.entries + 1;
        self.bytes = self.bytes.saturating_add(self.entry.data_end - self.entry.data_start);
        self.offset = self.entry.next;
    }

    /// Takes the reply to the last request (the first call takes any) and gives the
    /// next, with the path that it is for.
    pub fn unpack_newc(&mut self, archive: &[u8], reply: bool) -> (next: (
        UnpackRequest,
        InlineString<64>,
    ))
        requires
            old(self).wf(archive@.len()),
        ensures
            final(self).wf(archive@.len()),
            (final(self)@, next.0, next.1@) == old(self)@.replied(archive@, reply),
    {
        match self.stage {
            UnpackStage::Entry => self.begin(archive),
            UnpackStage::CheckParent => {
                if reply {
                    self.ensure_parents()
                } else {
                    self.stage = UnpackStage::MakeParent;
                    (UnpackRequest::CreateDirectory { mode: 0o755 }, self.parent)
                }
            },
            UnpackStage::MakeParent => {
                if reply {
                    self.ensure_parents()
                } else {
                    self.finish(false)
                }
            },
            UnpackStage::MakeDirectory => {
                if reply {
                    self.count_entry();
                    self.begin(archive)
                } else {
                    self.stage = UnpackStage::CheckDirectory;
                    (UnpackRequest::IsDirectory, self.path)
                }
            },
            UnpackStage::CheckDirectory | UnpackStage::SetMode => {
                if reply {
                    self.count_entry();
                    self.begin(archive)
                } else {
                    self.finish(false)
                }
            },
            UnpackStage::MakeFile => {
                let data = slice_subrange(archive, self.entry.data_start, self.entry.data_end);
                if reply && fixed::utf8_text(data).is_some() {
                    self.stage = UnpackStage::WriteFile;
                    (
                        UnpackRequest::WriteText {
                            start: self.entry.data_start,
                            end: self.entry.data_end,
                        },
                        self.path,
                    )
                } else {
                    self.finish(false)
                }
            },
            UnpackStage::WriteFile => {
                if reply {
                    self.stage = UnpackStage::SetMode;
                    (UnpackRequest::ChangeMode { mode: self.entry.mode % 4096 }, self.path)
                } else {
                    self.finish(false)
                }
            },
            UnpackStage::Finished => (
                UnpackRequest::Finished(
                    NewcSummary { valid: self.valid, entries: self.entries, bytes: self.bytes },
                ),
                InlineString::new(),
            ),
        }
    }
}

/// An unpacking that says that it was valid has met the entry that ends the archive, and
/// one that has finished asks for nothing more.
pub proof fn law_valid_means_trailer(view: UnpackView, archive: Seq<u8>, reply: bool)
    requires
        !view.valid,
    ensures
        view.replied(archive, reply).0.valid ==> {
            ||| item_at(archive, view.offset) == NewcItem::Trailer
            ||| item_at(archive, view.entry.next as int) == NewcItem::Trailer
        },
        view.stage is Finished ==> view.replied(archive, reply).0 == view && view.replied(
            archive,
            reply,
        ).1 is Finished,
{
}

} // verus!
