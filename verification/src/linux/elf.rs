//! ELF images: the file header, the program headers and the interpreter.
use crate::bits;
use crate::bytes;
use crate::fixed;
use vstd::prelude::*;
use vstd::slice::slice_subrange;
use vstd::string::StringSliceAdditionalSpecFns;
use vstd::utf8::*;

verus! {

pub const ELF_HEADER_SIZE: usize = 64;

pub const PROGRAM_HEADER_SIZE: usize = 56;

pub const MAX_PROGRAM_HEADERS: usize = 16;

pub const ET_EXEC: u16 = 2;

pub const ET_DYN: u16 = 3;

pub const EM_X86_64: u16 = 62;

pub const PT_LOAD: u32 = 1;

pub const PT_INTERP: u32 = 3;

pub const PT_PHDR: u32 = 6;

pub const PF_X: u32 = 1;

pub const PF_W: u32 = 2;

pub const PF_R: u32 = 4;

#[derive(Clone, Copy, Debug, PartialEq, Eq, Structural)]
pub enum ElfError {
    Truncated,
    BadMagic,
    UnsupportedClass,
    UnsupportedEndian,
    UnsupportedVersion,
    UnsupportedType,
    UnsupportedMachine,
    InvalidHeader,
    TooManyProgramHeaders,
    InvalidProgramHeader,
    InvalidAlignment,
    InvalidFileRange,
    InvalidMemoryRange,
    MissingLoadSegment,
    InvalidEntry,
    InvalidInterpreter,
}

#[derive(Clone, Copy, Debug, PartialEq, Eq, Structural)]
pub struct ProgramHeader {
    pub kind: u32,
    pub flags: u32,
    pub offset: u64,
    pub virtual_address: u64,
    pub file_size: u64,
    pub memory_size: u64,
    pub alignment: u64,
}

impl ProgramHeader {
    pub open spec fn readable(self) -> bool {
        (self.flags / 4) % 2 == 1
    }

    pub open spec fn writable(self) -> bool {
        (self.flags / 2) % 2 == 1
    }

    pub open spec fn executable(self) -> bool {
        self.flags % 2 == 1
    }
}

/// A checked ELF image.
pub struct ElfFile<'a> {
    image: &'a [u8],
    elf_type: u16,
    entry: u64,
    program_offset: u64,
    headers: [ProgramHeader; 16],
    header_count: usize,
    interpreter: Option<&'a str>,
}

/// What an ELF image says.
#[verifier::ext_equal]
pub struct ElfView {
    pub image: Seq<u8>,
    pub elf_type: u16,
    pub entry: u64,
    pub program_offset: u64,
    pub headers: Seq<ProgramHeader>,
    pub interpreter: Option<Seq<u8>>,
}

/// Whether the file holds `length` bytes from `offset` on.
pub open spec fn in_file(image: Seq<u8>, offset: int, length: int) -> bool {
    offset + length <= image.len()
}

/// Program header `index` of the image.
pub open spec fn program_header(image: Seq<u8>, index: int) -> ProgramHeader {
    let at = bytes::le64(image, 32) + 56 * index;
    ProgramHeader {
        kind: bytes::le32(image, at),
        flags: bytes::le32(image, at + 4),
        offset: bytes::le64(image, at + 8),
        virtual_address: bytes::le64(image, at + 16),
        file_size: bytes::le64(image, at + 32),
        memory_size: bytes::le64(image, at + 40),
        alignment: bytes::le64(image, at + 48),
    }
}

/// What is wrong with the file header, if anything.
pub open spec fn file_header_error(image: Seq<u8>, machine: u16) -> Option<ElfError> {
    if image.len() < 64 {
        Some(ElfError::Truncated)
    } else if !(image[0] == 0x7f && image[1] == 69 && image[2] == 76 && image[3] == 70) {
        Some(ElfError::BadMagic)
    } else if image[4] != 2 {
        Some(ElfError::UnsupportedClass)
    } else if image[5] != 1 {
        Some(ElfError::UnsupportedEndian)
    } else if image[6] != 1 || bytes::le32(image, 20) != 1 {
        Some(ElfError::UnsupportedVersion)
    } else if bytes::le16(image, 16) != ET_EXEC && bytes::le16(image, 16) != ET_DYN {
        Some(ElfError::UnsupportedType)
    } else if bytes::le16(image, 18) != machine {
        Some(ElfError::UnsupportedMachine)
    } else if bytes::le16(image, 52) != 64 || bytes::le16(image, 54) != 56 {
        Some(ElfError::InvalidHeader)
    } else if bytes::le16(image, 56) == 0 || bytes::le16(image, 56) > 16 {
        Some(ElfError::TooManyProgramHeaders)
    } else if !in_file(image, bytes::le64(image, 32) as int, 56 * bytes::le16(image, 56)) {
        Some(ElfError::InvalidFileRange)
    } else {
        None
    }
}

/// The bytes of the interpreter's path: what the segment holds before its final
/// zero.
pub open spec fn interpreter_path(image: Seq<u8>, header: ProgramHeader) -> Seq<u8> {
    image.subrange(header.offset as int, header.offset + header.file_size - 1)
}

/// Whether the segment holds one absolute path of valid text, ended by a zero.
pub open spec fn valid_interpreter(image: Seq<u8>, header: ProgramHeader) -> bool {
    let path = interpreter_path(image, header);
    &&& 2 <= header.file_size <= 128
    &&& image[header.offset + header.file_size - 1] == 0
    &&& !path.contains(0)
    &&& valid_utf8(path)
    &&& path[0] == 47
}

/// What is wrong with a program header, if anything, apart from the interpreter.
pub open spec fn segment_error(image: Seq<u8>, header: ProgramHeader) -> Option<ElfError> {
    if header.alignment != 0 && bits::ones64(header.alignment, 64) != 1 {
        Some(ElfError::InvalidAlignment)
    } else if header.kind == PT_LOAD && (header.flags > 7 || !header.readable()) {
        Some(ElfError::InvalidProgramHeader)
    } else if header.file_size > header.memory_size && header.kind == PT_LOAD {
        Some(ElfError::InvalidMemoryRange)
    } else if header.file_size != 0 && !in_file(
        image,
        header.offset as int,
        header.file_size as int,
    ) {
        Some(ElfError::InvalidFileRange)
    } else if header.virtual_address + header.memory_size > u64::MAX {
        Some(ElfError::InvalidMemoryRange)
    } else {
        None
    }
}

/// Whether one of the first `count` program headers names an interpreter.
pub open spec fn has_interpreter(image: Seq<u8>, count: nat) -> bool
    decreases count,
{
    count > 0 && (has_interpreter(image, (count - 1) as nat) || program_header(
        image,
        count - 1,
    ).kind == PT_INTERP)
}

/// The path that the one of the first `count` program headers names which names an
/// interpreter.
pub open spec fn named_interpreter(image: Seq<u8>, count: nat) -> Option<Seq<u8>>
    decreases count,
{
    if count == 0 {
        None
    } else if program_header(image, count - 1).kind == PT_INTERP {
        Some(interpreter_path(image, program_header(image, count - 1)))
    } else {
        named_interpreter(image, (count - 1) as nat)
    }
}

/// What is wrong with the first of the program headers that is wrong.
pub open spec fn program_header_error(image: Seq<u8>, count: nat) -> Option<ElfError>
    decreases count,
{
    if count == 0 {
        None
    } else {
        let header = program_header(image, count - 1);
        let before = program_header_error(image, (count - 1) as nat);
        if before is Some {
            before
        } else if segment_error(image, header) is Some {
            segment_error(image, header)
        } else if header.kind == PT_INTERP && (has_interpreter(image, (count - 1) as nat)
            || !valid_interpreter(image, header)) {
            Some(ElfError::InvalidInterpreter)
        } else {
            None
        }
    }
}

/// Whether program header `index` is a segment to load.
pub open spec fn is_load(image: Seq<u8>, index: int) -> bool {
    program_header(image, index).kind == PT_LOAD
}

/// Whether program header `index` is an executable segment that holds the entry.
pub open spec fn holds_entry(image: Seq<u8>, index: int) -> bool {
    let header = program_header(image, index);
    let entry = bytes::le64(image, 24);
    header.kind == PT_LOAD && header.executable() && header.virtual_address <= entry < (
    header.virtual_address + header.memory_size)
}

/// What is wrong with an image for `machine`, if anything.
pub open spec fn elf_error(image: Seq<u8>, machine: u16) -> Option<ElfError> {
    let count = bytes::le16(image, 56) as nat;
    if file_header_error(image, machine) is Some {
        file_header_error(image, machine)
    } else if program_header_error(image, count) is Some {
        program_header_error(image, count)
    } else if !(exists|k: int| 0 <= k < count && #[trigger] is_load(image, k)) {
        Some(ElfError::MissingLoadSegment)
    } else if !(exists|k: int| 0 <= k < count && #[trigger] holds_entry(image, k)) {
        Some(ElfError::InvalidEntry)
    } else {
        None
    }
}

/// What a correct image says.
pub open spec fn elf_contents(image: Seq<u8>) -> ElfView {
    let count = bytes::le16(image, 56) as nat;
    ElfView {
        image,
        elf_type: bytes::le16(image, 16),
        entry: bytes::le64(image, 24),
        program_offset: bytes::le64(image, 32),
        headers: Seq::new(count, |k: int| program_header(image, k)),
        interpreter: named_interpreter(image, count),
    }
}

/// The bytes of an optional text.
pub open spec fn text_bytes(text: Option<&str>) -> Option<Seq<u8>> {
    match text {
        Some(text) => Some(text.spec_bytes()),
        None => None,
    }
}

impl<'a> View for ElfFile<'a> {
    type V = ElfView;

    closed spec fn view(&self) -> ElfView {
        ElfView {
            image: self.image@,
            elf_type: self.elf_type,
            entry: self.entry,
            program_offset: self.program_offset,
            headers: self.headers@.take(self.header_count as int),
            interpreter: text_bytes(self.interpreter),
        }
    }
}

proof fn lemma_no_header_error(image: Seq<u8>, count: nat, index: int)
    requires
        program_header_error(image, count) is None,
        0 <= index < count,
    ensures
        segment_error(image, program_header(image, index)) is None,
    decreases count,
{
    if index < count - 1 {
        lemma_no_header_error(image, (count - 1) as nat, index);
    }
}

proof fn lemma_header_error_stays(image: Seq<u8>, some: nat, all: nat)
    requires
        some <= all,
        program_header_error(image, some) is Some,
    ensures
        program_header_error(image, all) == program_header_error(image, some),
    decreases all,
{
    if some < all {
        lemma_header_error_stays(image, some, (all - 1) as nat);
    }
}

impl<'a> ElfFile<'a> {
    /// Every program header was checked.
    #[verifier::type_invariant]
    spec fn checked(self) -> bool {
        &&& self.header_count <= 16
        &&& forall|k: int|
            0 <= k < self.header_count ==> segment_error(self.image@, #[trigger] self.headers@[k]) is None
    }

    /// Checks an image for `machine`. The first fault in the order of the checks is
    /// reported.
    pub fn parse(image: &'a [u8], machine: u16) -> (result: Result<Self, ElfError>)
        ensures
            match result {
                Ok(file) => elf_error(image@, machine) is None && file@ == elf_contents(image@),
                Err(error) => elf_error(image@, machine) == Some(error),
            },
    {
        if image.len() < ELF_HEADER_SIZE {
            return Err(ElfError::Truncated);
        }
        if image[0] != 0x7f || image[1] != 69 || image[2] != 76 || image[3] != 70 {
            return Err(ElfError::BadMagic);
        }
        if image[4] != 2 {
            return Err(ElfError::UnsupportedClass);
        }
        if image[5] != 1 {
            return Err(ElfError::UnsupportedEndian);
        }
        if image[6] != 1 || bytes::read_le32(image, 20) != 1 {
            return Err(ElfError::UnsupportedVersion);
        }
        let elf_type: u16 = bytes::read_le16(image, 16);
        if elf_type != ET_EXEC && elf_type != ET_DYN {
            return Err(ElfError::UnsupportedType);
        }
        if bytes::read_le16(image, 18) != machine {
            return Err(ElfError::UnsupportedMachine);
        }
        if bytes::read_le16(image, 52) as usize != ELF_HEADER_SIZE || bytes::read_le16(
            image,
            54,
        ) as usize != PROGRAM_HEADER_SIZE {
            return Err(ElfError::InvalidHeader);
        }
        let header_count: usize = bytes::read_le16(image, 56) as usize;
        if header_count == 0 || header_count > MAX_PROGRAM_HEADERS {
            return Err(ElfError::TooManyProgramHeaders);
        }
        let program_offset: u64 = bytes::read_le64(image, 32);
        let table_size: usize = header_count * PROGRAM_HEADER_SIZE;
        if let Err(error) = checked_file_range(image, program_offset, table_size as u64) {
            return Err(error);
        }
        let ghost count = header_count as nat;
        let table: usize = program_offset as usize;
        let empty = ProgramHeader {
            kind: 0,
            flags: 0,
            offset: 0,
            virtual_address: 0,
            file_size: 0,
            memory_size: 0,
            alignment: 0,
        };
        let mut headers: [ProgramHeader; 16] = [empty; 16];
        let mut loads = false;
        let mut interpreter: Option<&'a str> = None;
        let mut index: usize = 0;
        while index < header_count
            invariant
                file_header_error(image@, machine) is None,
                count == bytes::le16(image@, 56),
                header_count == count,
                1 <= count <= 16,
                table == bytes::le64(image@, 32),
                table + 56 * count <= image@.len() <= usize::MAX,
                index <= header_count,
                program_header_error(image@, index as nat) is None,
                forall|k: int|
                    0 <= k < index ==> #[trigger] headers@[k] == program_header(image@, k),
                interpreter is Some <==> has_interpreter(image@, index as nat),
                text_bytes(interpreter) == named_interpreter(image@, index as nat),
                loads <==> exists|k: int| 0 <= k < index && #[trigger] is_load(image@, k),
            decreases header_count - index,
        {
            let at: usize = table + 56 * index;
            let header = ProgramHeader {
                kind: bytes::read_le32(image, at),
                flags: bytes::read_le32(image, at + 4),
                offset: bytes::read_le64(image, at + 8),
                virtual_address: bytes::read_le64(image, at + 16),
                file_size: bytes::read_le64(image, at + 32),
                memory_size: bytes::read_le64(image, at + 40),
                alignment: bytes::read_le64(image, at + 48),
            };
            headers[index] = header;
            let ghost spec_header = program_header(image@, index as int);
            assert(header == spec_header);
            let problem = header_problem(image, &header);
            if let Some(error) = problem {
                proof {
                    lemma_header_error_stays(image@, (index + 1) as nat, count);
                }
                return Err(error);
            }
            if header.kind == PT_LOAD {
                loads = true;
                assert(is_load(image@, index as int));
            } else if header.kind == PT_INTERP {
                let path = if interpreter.is_some() {
                    None
                } else {
                    interpreter_text(image, &header)
                };
                if path.is_none() {
                    proof {
                        lemma_header_error_stays(image@, (index + 1) as nat, count);
                    }
                    return Err(ElfError::InvalidInterpreter);
                }
                interpreter = path;
            }
            proof {
                if !loads {
                    assert(!is_load(image@, index as int));
                }
            }
            index += 1;
        }
        if !loads {
            return Err(ElfError::MissingLoadSegment);
        }
        let entry: u64 = bytes::read_le64(image, 24);
        let mut executable_entry = false;
        let mut index: usize = 0;
        while index < header_count
            invariant
                header_count <= 16,
                header_count == count,
                index <= header_count,
                entry == bytes::le64(image@, 24),
                program_header_error(image@, count) is None,
                forall|k: int|
                    0 <= k < header_count ==> #[trigger] headers@[k] == program_header(image@, k),
                executable_entry <==> exists|k: int|
                    0 <= k < index && #[trigger] holds_entry(image@, k),
            decreases header_count - index,
        {
            let header: ProgramHeader = headers[index];
            proof {
                lemma_no_header_error(image@, count, index as int);
            }
            if header.kind == PT_LOAD && header.flags % 2 == 1 && entry >= header.virtual_address
                && entry < header.virtual_address + header.memory_size {
                executable_entry = true;
                assert(holds_entry(image@, index as int));
            } else {
                assert(!holds_entry(image@, index as int));
            }
            index += 1;
        }
        if !executable_entry {
            return Err(ElfError::InvalidEntry);
        }
        proof {
            assert forall|k: int| 0 <= k < header_count implies segment_error(
                image@,
                #[trigger] headers@[k],
            ) is None by {
                lemma_no_header_error(image@, count, k);
            }
        }
        let file = Self {
            image,
            elf_type,
            entry,
            program_offset,
            headers,
            header_count,
            interpreter,
        };
        assert(file@.headers =~= elf_contents(image@).headers);
        assert(file@ =~= elf_contents(image@));
        Ok(file)
    }

    pub fn elf_type(&self) -> (elf_type: u16)
        ensures
            elf_type == self@.elf_type,
    {
        self.elf_type
    }

    pub fn entry(&self) -> (entry: u64)
        ensures
            entry == self@.entry,
    {
        self.entry
    }

    pub fn program_offset(&self) -> (offset: u64)
        ensures
            offset == self@.program_offset,
    {
        self.program_offset
    }

    pub fn program_header_count(&self) -> (count: usize)
        ensures
            count == self@.headers.len(),
            count <= MAX_PROGRAM_HEADERS,
    {
        proof {
            use_type_invariant(self);
        }
        self.header_count
    }

    pub fn program_headers(&self) -> (headers: &[ProgramHeader])
        ensures
            headers@ == self@.headers,
            headers@.len() <= MAX_PROGRAM_HEADERS,
            forall|k: int|
                0 <= k < headers@.len() ==> segment_error(
                    self@.image,
                    #[trigger] headers@[k],
                ) is None,
    {
        proof {
            use_type_invariant(self);
        }
        slice_subrange(self.headers.as_slice(), 0, self.header_count)
    }

    pub fn interpreter(&self) -> (path: Option<&'a str>)
        ensures
            text_bytes(path) == self@.interpreter,
    {
        self.interpreter
    }

    /// The bytes of the file that a program header names.
    pub fn segment_data(&self, header: ProgramHeader) -> (result: Result<&'a [u8], ElfError>)
        ensures
            match result {
                Ok(data) => in_file(self@.image, header.offset as int, header.file_size as int)
                    && data@ == self@.image.subrange(
                    header.offset as int,
                    header.offset + header.file_size,
                ),
                Err(error) => error == ElfError::InvalidFileRange && !in_file(
                    self@.image,
                    header.offset as int,
                    header.file_size as int,
                ),
            },
    {
        file_range(self.image, header.offset, header.file_size)
    }
}

fn checked_file_range(image: &[u8], offset: u64, length: u64) -> (result: Result<(), ElfError>)
    ensures
        result is Ok <==> in_file(image@, offset as int, length as int),
        result matches Err(error) ==> error == ElfError::InvalidFileRange,
{
    let size: u64 = image.len() as u64;
    match offset.checked_add(length) {
        Some(end) => {
            if end > size {
                return Err(ElfError::InvalidFileRange);
            }
            Ok(())
        },
        None => Err(ElfError::InvalidFileRange),
    }
}

fn file_range(image: &[u8], offset: u64, length: u64) -> (result: Result<&[u8], ElfError>)
    ensures
        match result {
            Ok(data) => in_file(image@, offset as int, length as int) && data@ == image@.subrange(
                offset as int,
                offset + length,
            ),
            Err(error) => error == ElfError::InvalidFileRange && !in_file(
                image@,
                offset as int,
                length as int,
            ),
        },
{
    let size: usize = image.len();
    match checked_file_range(image, offset, length) {
        Ok(_) => {
            assert(offset + length <= size);
            let start: usize = offset as usize;
            Ok(slice_subrange(image, start, start + length as usize))
        },
        Err(error) => Err(error),
    }
}

fn header_problem(image: &[u8], header: &ProgramHeader) -> (problem: Option<ElfError>)
    ensures
        problem == segment_error(image@, *header),
{
    if header.alignment != 0 && bits::count_ones(header.alignment) != 1 {
        return Some(ElfError::InvalidAlignment);
    }
    if header.kind == PT_LOAD && (header.flags > 7 || (header.flags / 4) % 2 == 0) {
        return Some(ElfError::InvalidProgramHeader);
    }
    if header.file_size > header.memory_size && header.kind == PT_LOAD {
        return Some(ElfError::InvalidMemoryRange);
    }
    if header.file_size != 0 {
        if let Err(error) = checked_file_range(image, header.offset, header.file_size) {
            return Some(error);
        }
    }
    if header.virtual_address.checked_add(header.memory_size).is_none() {
        return Some(ElfError::InvalidMemoryRange);
    }
    None
}

/// The path of the interpreter, if the segment is valid.
fn interpreter_text<'a>(image: &'a [u8], header: &ProgramHeader) -> (path: Option<&'a str>)
    requires
        segment_error(image@, *header) is None,
    ensures
        path is Some <==> valid_interpreter(image@, *header),
        path matches Some(text) ==> text.spec_bytes() == interpreter_path(image@, *header),
{
    if header.file_size < 2 || header.file_size > 128 {
        return None;
    }
    let size: usize = image.len();
    assert(header.offset + header.file_size <= size);
    let start: usize = header.offset as usize;
    let end: usize = start + header.file_size as usize - 1;
    if image[end] != 0 {
        return None;
    }
    let path = slice_subrange(image, start, end);
    assert(path@ == interpreter_path(image@, *header));
    let zero: usize = crate::text::position_from(path, 0, 0);
    proof {
        assert(path@.skip(0) =~= path@);
        crate::text::lemma_position(path@, 0);
    }
    if zero < path.len() {
        return None;
    }
    if path[0] != 47 {
        return None;
    }
    fixed::utf8_text(path)
}

} // verus!
