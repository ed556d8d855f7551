//! Loading a program: its image, its interpreter and the kernel's own image are mapped
//! into a new address space, and the first stack is built.
use crate::linux::elf;
use crate::linux::elf::{
    ElfError, ElfFile, ElfView, ProgramHeader, EM_X86_64, ET_DYN, PT_LOAD, PT_PHDR,
};
use crate::lines;
use crate::lines::Line;
use crate::mm::address;
use crate::mm::address::{VirtualAddress, PAGE_SIZE, USER_ADDRESS_LIMIT};
use crate::mm::paging;
use crate::mm::paging::{
    AddressSpace, MapFlags, ENTRY_NO_EXECUTE, ENTRY_PRESENT, ENTRY_USER, ENTRY_WRITABLE,
};
use crate::mm::physical;
use crate::mm::physical::{MemoryView, PageMemory};
use crate::print;
use crate::print::Buffer;
use crate::text;
use vstd::prelude::*;
use vstd::string::*;

pub mod laws;

verus! {

pub const MAX_IMAGE_PAGES: usize = 1024;

pub const MAX_ARGUMENTS: usize = 8;

pub const MAX_ENVIRONMENT: usize = 8;

pub const MAX_STRING_BYTES: usize = 256;

pub const USER_STACK_TOP: u64 = 0x0000_7fff_ffff_f000;

pub const USER_STACK_PAGES: usize = 64;

pub const MAIN_ASLR_START: u64 = 0x1000_0000;

pub const MAIN_ASLR_END: u64 = 0x4000_0000;

pub const INTERP_ASLR_START: u64 = 0x5000_0000;

pub const INTERP_ASLR_END: u64 = 0x7000_0000;

pub const VDSO_ASLR_START: u64 = 0x7200_0000;

pub const VDSO_ASLR_END: u64 = 0x7800_0000;

pub const ASLR_GRANULARITY: u64 = 0x20_0000;

pub const PROGRAM_HEADER_SIZE: usize = 56;

#[derive(Clone, Copy, Debug, PartialEq, Eq, Structural)]
pub enum LoadError {
    Elf(ElfError),
    InterpreterMissing,
    InterpreterMismatch,
    InterpreterNested,
    InvalidVdso,
    InvalidSegment,
    TooManyPages,
    AddressConflict,
    /// The page at this address would be written and run.
    WriteExecute(u64),
    OutOfMemory,
    InvalidArguments,
    StackOverflow,
}

/// What the console says when an image is refused for a page at this address.
pub open spec fn page_pieces(address: u64) -> Seq<Seq<u8>> {
    lines::none().push(text::literal("[dbg] wx-page va=")).push(
        lines::padded_digits(address as nat, 16),
    )
}

impl LoadError {
    /// The line that the console gets when this is why a program was not loaded; nothing but
    /// for a page that would be written and run.
    pub fn console_line(self) -> (line: Option<Buffer>)
        ensures
            line is Some <==> self is WriteExecute,
            self matches LoadError::WriteExecute(address) ==> line.unwrap()@ == print::line_of(
                page_pieces(address),
            ),
    {
        match self {
            LoadError::WriteExecute(address) => Some(
                print::println(Line::new().text("[dbg] wx-page va=").padded(address, 16)),
            ),
            _ => None,
        }
    }
}

#[derive(Clone, Copy, Debug, PartialEq, Eq, Structural)]
pub struct LoadedProcess {
    pub cr3: u64,
    pub entry: u64,
    pub stack_pointer: u64,
    pub load_bias: u64,
    pub interpreter_bias: u64,
    pub vdso_base: u64,
}

/// An image in memory: where it starts to run, how far it was moved, and where its
/// program headers are.
#[derive(Clone, Copy, Debug, PartialEq, Eq, Structural)]
pub struct LoadedElf {
    pub entry: u64,
    pub load_bias: u64,
    pub program_headers: u64,
    pub program_header_count: usize,
}

/// A page of an image, what it has to allow, and the frame that it got.
#[derive(Clone, Copy, Debug, PartialEq, Eq, Structural)]
pub struct PagePlan {
    pub address: u64,
    pub writable: bool,
    pub executable: bool,
    pub physical: Option<u64>,
}

/// A number that looks random and depends on all bits of the seed.
pub open spec fn mixed(seed: u64) -> u64 {
    let first = (seed ^ (seed >> 30u64)).wrapping_mul(0xbf58_476d_1ce4_e5b9);
    let second = (first ^ (first >> 27u64)).wrapping_mul(0x94d0_49bb_1331_11eb);
    second ^ (second >> 31u64)
}

fn mix(seed: u64) -> (value: u64)
    ensures
        value == mixed(seed),
{
    let first: u64 = (seed ^ (seed >> 30u64)).wrapping_mul(0xbf58_476d_1ce4_e5b9);
    let second: u64 = (first ^ (first >> 27u64)).wrapping_mul(0x94d0_49bb_1331_11eb);
    second ^ (second >> 31u64)
}

/// The bits of a number moved up, those that fall out coming in below.
pub open spec fn rotated(value: u64, count: u64) -> u64 {
    (value << count) | (value >> ((64 - count) as u64))
}

fn rotate(value: u64, count: u64) -> (rotated_value: u64)
    requires
        0 < count < 64,
    ensures
        rotated_value == rotated(value, count),
{
    (value << count) | (value >> (64 - count))
}

pub open spec fn page_floor(value: int) -> int {
    value - value % 4096
}

/// The end of the page that a value lies in, if there is one.
pub open spec fn page_ceiling(value: int) -> Option<int> {
    if value + 4095 > u64::MAX {
        None
    } else {
        Some(page_floor(value + 4095))
    }
}

fn align_down(value: u64) -> (aligned: u64)
    ensures
        aligned == page_floor(value as int),
        aligned % 4096 == 0,
        aligned <= value,
{
    value - value % PAGE_SIZE
}

fn align_up(value: u64) -> (aligned: Option<u64>)
    ensures
        aligned is Some <==> page_ceiling(value as int) is Some,
        aligned is Some ==> page_ceiling(value as int) == Some(aligned.unwrap() as int)
            && aligned.unwrap() % 4096 == 0,
{
    match value.checked_add(PAGE_SIZE - 1) {
        None => None,
        Some(sum) => Some(align_down(sum)),
    }
}

/// Whether a program header takes memory.
pub open spec fn takes_memory(header: ProgramHeader) -> bool {
    header.kind == PT_LOAD && header.memory_size != 0
}

/// The pages that the first `count` headers take: from the first to behind the last; none
/// if an end is no address.
pub open spec fn image_bounds(headers: Seq<ProgramHeader>, count: nat) -> Option<(int, int)>
    decreases count,
{
    if count == 0 {
        Some((u64::MAX as int, 0))
    } else {
        match image_bounds(headers, (count - 1) as nat) {
            None => None,
            Some((minimum, maximum)) => {
                let header = headers[count - 1];
                let start = page_floor(header.virtual_address as int);
                let last = header.virtual_address + header.memory_size;
                if !takes_memory(header) {
                    Some((minimum, maximum))
                } else if last > u64::MAX || page_ceiling(last) is None {
                    None
                } else {
                    let end = page_ceiling(last).unwrap();
                    Some(
                        (
                            if start < minimum {
                                start
                            } else {
                                minimum
                            },
                            if end > maximum {
                                end
                            } else {
                                maximum
                            },
                        ),
                    )
                }
            },
        }
    }
}

/// How far an image is moved: not at all if it is fixed, else to one of the places that
/// it fits in, by the seed.
pub open spec fn load_bias(image: ElfView, start: u64, end: u64, seed: u64) -> Result<
    u64,
    LoadError,
> {
    if image.elf_type != ET_DYN {
        Ok(0)
    } else {
        match image_bounds(image.headers, image.headers.len()) {
            None => Err(LoadError::InvalidSegment),
            Some((minimum, maximum)) => {
                let available = end - start - (maximum - minimum);
                let slots = available / ASLR_GRANULARITY as int + 1;
                let place = start + mixed(seed) as int % slots * ASLR_GRANULARITY;
                if maximum < minimum || end < start || available < 0 || place < minimum {
                    Err(LoadError::InvalidSegment)
                } else {
                    Ok((place - minimum) as u64)
                }
            },
        }
    }
}

fn choose_load_bias(file: &ElfFile<'_>, start: u64, end: u64, seed: u64) -> (bias: Result<
    u64,
    LoadError,
>)
    requires
        start <= end <= USER_ADDRESS_LIMIT,
    ensures
        bias == load_bias(file@, start, end, seed),
{
    if file.elf_type() != ET_DYN {
        return Ok(0);
    }
    let headers = file.program_headers();
    let mut minimum: u64 = u64::MAX;
    let mut maximum: u64 = 0;
    let mut index: usize = 0;
    while index < headers.len()
        invariant
            index <= headers@.len(),
            headers@ == file@.headers,
            file@.elf_type == ET_DYN,
            image_bounds(headers@, index as nat) == Some((minimum as int, maximum as int)),
        decreases headers@.len() - index,
    {
        let header = headers[index];
        let ghost next = image_bounds(headers@, (index + 1) as nat);
        if header.kind == PT_LOAD && header.memory_size != 0 {
            let first: u64 = align_down(header.virtual_address);
            let last: u64 = match header.virtual_address.checked_add(header.memory_size) {
                None => {
                    proof {
                        lemma_bounds_failed(headers@, (index + 1) as nat, headers@.len());
                    }
                    return Err(LoadError::InvalidSegment);
                },
                Some(last) => last,
            };
            let aligned: u64 = match align_up(last) {
                None => {
                    proof {
                        lemma_bounds_failed(headers@, (index + 1) as nat, headers@.len());
                    }
                    return Err(LoadError::InvalidSegment);
                },
                Some(aligned) => aligned,
            };
            if first < minimum {
                minimum = first;
            }
            if aligned > maximum {
                maximum = aligned;
            }
        }
        index += 1;
    }
    if maximum < minimum {
        return Err(LoadError::InvalidSegment);
    }
    let span: u64 = maximum - minimum;
    if end - start < span {
        return Err(LoadError::InvalidSegment);
    }
    let available: u64 = end - start - span;
    let slots: u64 = available / ASLR_GRANULARITY + 1;
    let chosen: u64 = mix(seed) % slots;
    proof {
        let quotient = available as int / ASLR_GRANULARITY as int;
        assert(chosen <= quotient);
        assert(chosen * ASLR_GRANULARITY <= quotient * ASLR_GRANULARITY <= available) by (nonlinear_arith)
            requires
                chosen <= quotient,
                quotient == available as int / ASLR_GRANULARITY as int,
                ASLR_GRANULARITY == 0x20_0000,
        ;
    }
    let place: u64 = start + chosen * ASLR_GRANULARITY;
    if place < minimum {
        return Err(LoadError::InvalidSegment);
    }
    Ok(place - minimum)
}

proof fn lemma_bounds_failed(headers: Seq<ProgramHeader>, from: nat, to: nat)
    requires
        from <= to,
        image_bounds(headers, from) is None,
    ensures
        image_bounds(headers, to) is None,
    decreases to - from,
{
    if from < to {
        lemma_bounds_failed(headers, from, (to - 1) as nat);
    }
}

/// The first plan from `from` on for a page, or the number of plans.
pub open spec fn plan_of(plans: Seq<PagePlan>, page: int, from: int) -> int
    decreases plans.len() - from,
{
    if from >= plans.len() || from < 0 {
        plans.len() as int
    } else if plans[from].address == page {
        from
    } else {
        plan_of(plans, page, from + 1)
    }
}

/// The plans with what a header wants of a page.
pub open spec fn with_page(plans: Seq<PagePlan>, page: int, header: ProgramHeader) -> Seq<PagePlan> {
    let at = plan_of(plans, page, 0);
    if at < plans.len() {
        plans.update(
            at,
            PagePlan {
                writable: plans[at].writable || header.writable(),
                executable: plans[at].executable || header.executable(),
                ..plans[at]
            },
        )
    } else {
        plans.push(
            PagePlan {
                address: page as u64,
                writable: header.writable(),
                executable: header.executable(),
                physical: None,
            },
        )
    }
}

/// Planning the pages of a header from `page` to `end`.
pub open spec fn pages_planned(
    plans: Seq<PagePlan>,
    header: ProgramHeader,
    page: int,
    end: int,
) -> Result<Seq<PagePlan>, LoadError>
    decreases end - page + 4096,
{
    if page >= end {
        Ok(plans)
    } else if plan_of(plans, page, 0) >= plans.len() && plans.len() >= MAX_IMAGE_PAGES {
        Err(LoadError::TooManyPages)
    } else {
        pages_planned(with_page(plans, page, header), header, page + 4096, end)
    }
}

/// Planning the pages of a header.
pub open spec fn header_planned(
    plans: Seq<PagePlan>,
    header: ProgramHeader,
    bias: u64,
) -> Result<Seq<PagePlan>, LoadError> {
    let start = bias + header.virtual_address;
    let end = start + header.memory_size;
    if header.offset % 4096 != header.virtual_address % 4096 || end > USER_ADDRESS_LIMIT || start
        < PAGE_SIZE || end <= start {
        Err(LoadError::InvalidSegment)
    } else {
        pages_planned(plans, header, page_floor(start), page_floor(end + 4095))
    }
}

/// Planning the pages of the first `count` headers.
pub open spec fn image_planned(headers: Seq<ProgramHeader>, bias: u64, count: nat) -> Result<
    Seq<PagePlan>,
    LoadError,
>
    decreases count,
{
    if count == 0 {
        Ok(Seq::empty())
    } else {
        match image_planned(headers, bias, (count - 1) as nat) {
            Err(error) => Err(error),
            Ok(plans) => if takes_memory(headers[count - 1]) {
                header_planned(plans, headers[count - 1], bias)
            } else {
                Ok(plans)
            },
        }
    }
}

/// What holds of plans: there are not too many, they are pages, and none has a frame yet.
spec fn plans_ok(plans: Seq<PagePlan>) -> bool {
    &&& plans.len() <= MAX_IMAGE_PAGES
    &&& forall|i: int|
        0 <= i < plans.len() ==> (#[trigger] plans[i]).address % 4096 == 0 && plans[i].address
            < USER_ADDRESS_LIMIT && plans[i].physical is None
}

fn find_plan(plans: &Vec<PagePlan>, page: u64) -> (at: usize)
    ensures
        at == plan_of(plans@, page as int, 0),
        at <= plans@.len(),
        at < plans@.len() ==> plans@[at as int].address == page,
{
    let mut at: usize = 0;
    while at < plans.len()
        invariant
            at <= plans@.len(),
            plan_of(plans@, page as int, 0) == plan_of(plans@, page as int, at as int),
        decreases plans@.len() - at,
    {
        if plans[at].address == page {
            return at;
        }
        at += 1;
    }
    at
}

/// Plans the pages of a header.
fn collect_pages(header: ProgramHeader, bias: u64, plans: &mut Vec<PagePlan>) -> (result: Result<
    (),
    LoadError,
>)
    requires
        plans_ok(old(plans)@),
    ensures
        result is Ok ==> plans_ok(final(plans)@) && header_planned(old(plans)@, header, bias)
            == Ok::<Seq<PagePlan>, LoadError>(final(plans)@),
        result is Err ==> header_planned(old(plans)@, header, bias) == Err::<
            Seq<PagePlan>,
            LoadError,
        >(result->Err_0),
{
    if header.offset % PAGE_SIZE != header.virtual_address % PAGE_SIZE {
        return Err(LoadError::InvalidSegment);
    }
    let start: u64 = match bias.checked_add(header.virtual_address) {
        None => {
            return Err(LoadError::InvalidSegment);
        },
        Some(start) => start,
    };
    let end: u64 = match start.checked_add(header.memory_size) {
        None => {
            return Err(LoadError::InvalidSegment);
        },
        Some(end) => end,
    };
    if start < PAGE_SIZE || end > USER_ADDRESS_LIMIT || end <= start {
        return Err(LoadError::InvalidSegment);
    }
    let mut page: u64 = align_down(start);
    let page_end: u64 = align_down(end + 4095);
    let writable = (header.flags / 2) % 2 == 1;
    let executable = header.flags % 2 == 1;
    while page < page_end
        invariant
            plans_ok(plans@),
            page % 4096 == 0,
            page_end % 4096 == 0,
            page_end <= USER_ADDRESS_LIMIT,
            writable == header.writable(),
            executable == header.executable(),
            pages_planned(plans@, header, page as int, page_end as int) == header_planned(
                old(plans)@,
                header,
                bias,
            ),
        decreases page_end - page,
    {
        let at: usize = find_plan(plans, page);
        let ghost before = plans@;
        if at < plans.len() {
            let plan = plans[at];
            plans.set(
                at,
                PagePlan {
                    address: plan.address,
                    writable: plan.writable || writable,
                    executable: plan.executable || executable,
                    physical: plan.physical,
                },
            );
        } else {
            if plans.len() >= MAX_IMAGE_PAGES {
                return Err(LoadError::TooManyPages);
            }
            plans.push(PagePlan { address: page, writable, executable, physical: None });
        }
        assert(plans@ =~= with_page(before, page as int, header));
        page = page + PAGE_SIZE;
    }
    Ok(())
}

/// The flags of a page of an image: what is written is not run.
pub open spec fn plan_flags(plan: PagePlan) -> MapFlags {
    if plan.writable {
        MapFlags((ENTRY_PRESENT | ENTRY_USER) | (ENTRY_WRITABLE | ENTRY_NO_EXECUTE))
    } else if !plan.executable {
        MapFlags((ENTRY_PRESENT | ENTRY_USER) | ENTRY_NO_EXECUTE)
    } else {
        MapFlags(ENTRY_PRESENT | ENTRY_USER)
    }
}

/// Mapping the planned pages from number `done` on to new frames of zeros.
pub open spec fn plans_mapped(memory: MemoryView, root: u64, plans: Seq<PagePlan>, done: int) -> (
    MemoryView,
    Result<Seq<PagePlan>, LoadError>,
)
    decreases plans.len() - done,
{
    if done >= plans.len() || done < 0 {
        (memory, Ok(plans))
    } else if plans[done].writable && plans[done].executable {
        (memory, Err(LoadError::WriteExecute(plans[done].address)))
    } else {
        match memory.allocated() {
            (after, Err(_)) => (after, Err(LoadError::OutOfMemory)),
            (after, Ok(frame)) => {
                let zeroed = after.zeroed(frame.spec_u64() as int);
                match paging::user_mapped(
                    zeroed,
                    root,
                    plans[done].address,
                    frame.spec_u64(),
                    plan_flags(plans[done]),
                ) {
                    (failed, Err(_)) => (
                        failed.deallocated(frame.spec_u64()).0,
                        Err(LoadError::AddressConflict),
                    ),
                    (last, Ok(_)) => plans_mapped(
                        last,
                        root,
                        plans.update(
                            done,
                            PagePlan { physical: Some(frame.spec_u64()), ..plans[done] },
                        ),
                        done + 1,
                    ),
                }
            },
        }
    }
}

/// The plans have frames.
spec fn plans_have_frames(plans: Seq<PagePlan>) -> bool {
    forall|i: int|
        0 <= i < plans.len() ==> (#[trigger] plans[i]).physical is Some
            && plans[i].physical.unwrap() < 0x1_0000_0000
}

/// Maps the planned pages.
fn map_plans(memory: &mut PageMemory, space: &AddressSpace, plans: &mut Vec<PagePlan>) -> (result:
    Result<(), LoadError>)
    requires
        old(memory).wf(),
        plans_ok(old(plans)@),
    ensures
        final(memory).wf(),
        final(memory)@ == plans_mapped(
            old(memory)@,
            space.root.spec_u64(),
            old(plans)@,
            0,
        ).0,
        result is Ok ==> plans_mapped(old(memory)@, space.root.spec_u64(), old(plans)@, 0).1 == Ok::<
            Seq<PagePlan>,
            LoadError,
        >(final(plans)@) && plans_have_frames(final(plans)@),
        result is Err ==> plans_mapped(old(memory)@, space.root.spec_u64(), old(plans)@, 0).1
            == Err::<Seq<PagePlan>, LoadError>(result->Err_0),
{
    let mut done: usize = 0;
    while done < plans.len()
        invariant
            done <= plans@.len(),
            memory.wf(),
            forall|i: int|
                0 <= i < plans@.len() ==> (#[trigger] plans@[i]).address % 4096 == 0
                    && plans@[i].address < USER_ADDRESS_LIMIT,
            forall|i: int|
                0 <= i < done ==> (#[trigger] plans@[i]).physical is Some
                    && plans@[i].physical.unwrap() < 0x1_0000_0000,
            plans_mapped(memory@, space.root.spec_u64(), plans@, done as int) == plans_mapped(
                old(memory)@,
                space.root.spec_u64(),
                old(plans)@,
                0,
            ),
        decreases plans@.len() - done,
    {
        let plan = plans[done];
        assert(plans@[done as int].address % 4096 == 0);
        if plan.writable && plan.executable {
            return Err(LoadError::WriteExecute(plan.address));
        }
        let frame = match memory.allocate() {
            Err(_) => {
                return Err(LoadError::OutOfMemory);
            },
            Ok(frame) => frame,
        };
        memory.zero_frame(frame.as_u64());
        let mut flags = MapFlags::present().bitor(MapFlags::user());
        if plan.writable {
            flags.bitor_assign(MapFlags::writable().bitor(MapFlags::no_execute()));
        } else if !plan.executable {
            flags.bitor_assign(MapFlags::no_execute());
        }
        let page = match VirtualAddress::new(plan.address) {
            None => {
                return Err(LoadError::InvalidSegment);
            },
            Some(page) => page,
        };
        if space.map_user(memory, page, frame, flags).is_err() {
            let _ = memory.deallocate(frame);
            return Err(LoadError::AddressConflict);
        }
        let ghost before = plans@;
        plans.set(
            done,
            PagePlan {
                address: plan.address,
                writable: plan.writable,
                executable: plan.executable,
                physical: Some(frame.as_u64()),
            },
        );
        done += 1;
    }
    Ok(())
}

/// Copying the bytes of a segment from number `done` on to the frames of its pages.
pub open spec fn segment_copied(
    memory: MemoryView,
    plans: Seq<PagePlan>,
    start: int,
    data: Seq<u8>,
    done: int,
) -> (MemoryView, Result<(), LoadError>)
    decreases data.len() - done,
{
    let at = start + done;
    let plan = plan_of(plans, page_floor(at), 0);
    let length = paging::chunk(at, data.len() - done);
    if done >= data.len() || done < 0 {
        (memory, Ok(()))
    } else if at > u64::MAX || plan >= plans.len() || plans[plan].physical is None {
        (memory, Err(LoadError::InvalidSegment))
    } else {
        segment_copied(
            MemoryView {
                words: physical::stored(
                    memory.words,
                    plans[plan].physical.unwrap() + at % 4096,
                    data.subrange(done, done + length),
                ),
                ..memory
            },
            plans,
            start,
            data,
            done + length,
        )
    }
}

fn copy_segment(
    memory: &mut PageMemory,
    plans: &Vec<PagePlan>,
    bias: u64,
    header: ProgramHeader,
    data: &[u8],
) -> (result: Result<(), LoadError>)
    requires
        old(memory).wf(),
        plans_have_frames(plans@),
    ensures
        final(memory).wf(),
        (final(memory)@, result) == (if bias + header.virtual_address > u64::MAX {
            (old(memory)@, Err::<(), LoadError>(LoadError::InvalidSegment))
        } else {
            segment_copied(
                old(memory)@,
                plans@,
                bias + header.virtual_address,
                data@,
                0,
            )
        }),
{
    let start: u64 = match bias.checked_add(header.virtual_address) {
        None => {
            return Err(LoadError::InvalidSegment);
        },
        Some(start) => start,
    };
    let mut done: usize = 0;
    while done < data.len()
        invariant
            done <= data@.len(),
            memory.wf(),
            plans_have_frames(plans@),
            start == bias + header.virtual_address,
            segment_copied(memory@, plans@, start as int, data@, done as int) == segment_copied(
                old(memory)@,
                plans@,
                start as int,
                data@,
                0,
            ),
        decreases data@.len() - done,
    {
        let at: u64 = match start.checked_add(done as u64) {
            None => {
                return Err(LoadError::InvalidSegment);
            },
            Some(at) => at,
        };
        let plan: usize = find_plan(plans, align_down(at));
        if plan >= plans.len() {
            return Err(LoadError::InvalidSegment);
        }
        assert(plans@[plan as int].physical is Some);
        let frame: u64 = match plans[plan].physical {
            None => {
                return Err(LoadError::InvalidSegment);
            },
            Some(frame) => frame,
        };
        let count: usize = paging::chunk_length(at, (data.len() - done) as u64) as usize;
        let part = vstd::slice::slice_subrange(data, done, done + count);
        memory.store(frame + at % PAGE_SIZE, part);
        done = done + count;
    }
    Ok(())
}

/// Copying the segments of the first `count` headers.
pub open spec fn segments_copied(
    memory: MemoryView,
    image: ElfView,
    plans: Seq<PagePlan>,
    bias: u64,
    count: nat,
) -> (MemoryView, Result<(), LoadError>)
    decreases count,
{
    if count == 0 {
        (memory, Ok(()))
    } else {
        match segments_copied(memory, image, plans, bias, (count - 1) as nat) {
            (before, Err(error)) => (before, Err(error)),
            (before, Ok(_)) => {
                let header = image.headers[count - 1];
                if header.kind != PT_LOAD || header.file_size == 0 {
                    (before, Ok(()))
                } else if !elf::in_file(
                    image.image,
                    header.offset as int,
                    header.file_size as int,
                ) {
                    (before, Err(LoadError::Elf(ElfError::InvalidFileRange)))
                } else if bias + header.virtual_address > u64::MAX {
                    (before, Err(LoadError::InvalidSegment))
                } else {
                    match segment_copied(
                        before,
                        plans,
                        bias + header.virtual_address,
                        image.image.subrange(
                            header.offset as int,
                            header.offset + header.file_size,
                        ),
                        0,
                    ) {
                        (after, Err(error)) => (after, Err(error)),
                        (after, Ok(_)) => (after, Ok(())),
                    }
                }
            },
        }
    }
}

proof fn lemma_segments_failed(
    memory: MemoryView,
    image: ElfView,
    plans: Seq<PagePlan>,
    bias: u64,
    from: nat,
    to: nat,
)
    requires
        from <= to,
        segments_copied(memory, image, plans, bias, from).1 is Err,
    ensures
        segments_copied(memory, image, plans, bias, to) == segments_copied(
            memory,
            image,
            plans,
            bias,
            from,
        ),
    decreases to - from,
{
    if from < to {
        lemma_segments_failed(memory, image, plans, bias, from, (to - 1) as nat);
    }
}

proof fn lemma_planning_failed(headers: Seq<ProgramHeader>, bias: u64, from: nat, to: nat)
    requires
        from <= to,
        image_planned(headers, bias, from) is Err,
    ensures
        image_planned(headers, bias, to) == image_planned(headers, bias, from),
    decreases to - from,
{
    if from < to {
        lemma_planning_failed(headers, bias, from, (to - 1) as nat);
    }
}

/// The first header from `from` on that names the table of headers, or the number of
/// headers.
pub open spec fn table_header(headers: Seq<ProgramHeader>, from: int) -> int
    decreases headers.len() - from,
{
    if from >= headers.len() || from < 0 {
        headers.len() as int
    } else if headers[from].kind == PT_PHDR {
        from
    } else {
        table_header(headers, from + 1)
    }
}

/// Whether a segment holds the table of headers.
pub open spec fn holds_table(header: ProgramHeader, offset: u64, table_end: int) -> bool {
    let file_end = header.offset + header.file_size;
    header.kind == PT_LOAD && offset >= header.offset && table_end <= (if file_end > u64::MAX {
        u64::MAX as int
    } else {
        file_end
    })
}

/// The first header from `from` on whose segment holds the table of headers.
pub open spec fn table_segment(
    headers: Seq<ProgramHeader>,
    offset: u64,
    table_end: int,
    from: int,
) -> int
    decreases headers.len() - from,
{
    if from >= headers.len() || from < 0 {
        headers.len() as int
    } else if holds_table(headers[from], offset, table_end) {
        from
    } else {
        table_segment(headers, offset, table_end, from + 1)
    }
}

/// Where the table of headers lies in memory.
pub open spec fn table_address(image: ElfView, bias: u64) -> Option<u64> {
    let named = table_header(image.headers, 0);
    let table_end = image.program_offset + image.headers.len() * 56;
    let segment = table_segment(image.headers, image.program_offset, table_end, 0);
    let place = if named < image.headers.len() {
        bias + image.headers[named].virtual_address
    } else {
        bias + image.headers[segment].virtual_address + (image.program_offset
            - image.headers[segment].offset)
    };
    if named >= image.headers.len() && (table_end > u64::MAX || segment >= image.headers.len()) {
        None
    } else if place > u64::MAX {
        None
    } else {
        Some(place as u64)
    }
}

/// Whether all pages from an address to `end` are planned.
pub open spec fn range_planned(plans: Seq<PagePlan>, at: int, end: int) -> bool {
    forall|page: int|
        page % 4096 == 0 && page_floor(at) <= page < end && at < end ==> #[trigger] plan_of(
            plans,
            page,
            0,
        ) < plans.len()
}

fn mapped_range(plans: &Vec<PagePlan>, at: u64, length: usize) -> (mapped: bool)
    ensures
        mapped == (at + length <= u64::MAX && range_planned(plans@, at as int, at + length)),
{
    let end: u64 = match at.checked_add(length as u64) {
        None => {
            return false;
        },
        Some(end) => end,
    };
    if at >= end {
        return true;
    }
    let mut page: u64 = align_down(at);
    while page < end
        invariant
            page % 4096 == 0,
            at < end,
            end == at + length,
            page_floor(at as int) <= page,
            forall|other: int|
                other % 4096 == 0 && page_floor(at as int) <= other < page ==> #[trigger] plan_of(
                    plans@,
                    other,
                    0,
                ) < plans@.len(),
        decreases u64::MAX - page,
    {
        if find_plan(plans, page) >= plans.len() {
            assert(plan_of(plans@, page as int, 0) >= plans@.len());
            return false;
        }
        if page > u64::MAX - PAGE_SIZE {
            assert forall|other: int|
                other % 4096 == 0 && page_floor(at as int) <= other < end implies #[trigger] plan_of(
                plans@,
                other,
                0,
            ) < plans@.len() by {}
            return true;
        }
        page = page + PAGE_SIZE;
    }
    true
}

/// Loading an image into an address space.
#[verifier::opaque]
pub open spec fn image_mapped(
    memory: MemoryView,
    root: u64,
    image: ElfView,
    start: u64,
    end: u64,
    seed: u64,
) -> (MemoryView, Result<LoadedElf, LoadError>) {
    match load_bias(image, start, end, seed) {
        Err(error) => (memory, Err(error)),
        Ok(bias) => match image_planned(image.headers, bias, image.headers.len()) {
            Err(error) => (memory, Err(error)),
            Ok(planned) => match plans_mapped(memory, root, planned, 0) {
                (failed, Err(error)) => (failed, Err(error)),
                (mapped, Ok(plans)) => match segments_copied(
                    mapped,
                    image,
                    plans,
                    bias,
                    image.headers.len(),
                ) {
                    (failed, Err(error)) => (failed, Err(error)),
                    (copied, Ok(_)) => {
                        let table = table_address(image, bias);
                        let table_bytes = image.headers.len() * 56;
                        if bias + image.entry > u64::MAX || table is None || table.unwrap()
                            + table_bytes > u64::MAX || !range_planned(
                            plans,
                            table.unwrap() as int,
                            table.unwrap() + table_bytes,
                        ) {
                            (copied, Err(LoadError::InvalidSegment))
                        } else {
                            (
                                copied,
                                Ok(
                                    LoadedElf {
                                        entry: (bias + image.entry) as u64,
                                        load_bias: bias,
                                        program_headers: table.unwrap(),
                                        program_header_count: image.headers.len() as usize,
                                    },
                                ),
                            )
                        }
                    },
                },
            },
        },
    }
}

/// Plans the pages of all headers.
fn plan_image(file: &ElfFile<'_>, bias: u64) -> (plans: Result<Vec<PagePlan>, LoadError>)
    ensures
        plans is Ok ==> image_planned(file@.headers, bias, file@.headers.len()) == Ok::<
            Seq<PagePlan>,
            LoadError,
        >(plans->Ok_0@) && plans_ok(plans->Ok_0@),
        plans is Err ==> image_planned(file@.headers, bias, file@.headers.len()) == Err::<
            Seq<PagePlan>,
            LoadError,
        >(plans->Err_0),
{
    let headers = file.program_headers();
    let mut plans: Vec<PagePlan> = Vec::new();
    let mut index: usize = 0;
    while index < headers.len()
        invariant
            index <= headers@.len(),
            headers@ == file@.headers,
            plans_ok(plans@),
            image_planned(headers@, bias, index as nat) == Ok::<Seq<PagePlan>, LoadError>(plans@),
        decreases headers@.len() - index,
    {
        let header = headers[index];
        let ghost next = image_planned(headers@, bias, (index + 1) as nat);
        if header.kind == PT_LOAD && header.memory_size != 0 {
            if let Err(error) = collect_pages(header, bias, &mut plans) {
                proof {
                    lemma_planning_failed(headers@, bias, (index + 1) as nat, headers@.len());
                }
                return Err(error);
            }
        }
        index += 1;
    }
    Ok(plans)
}

/// Copies the segments of all headers.
fn copy_segments(memory: &mut PageMemory, file: &ElfFile<'_>, plans: &Vec<PagePlan>, bias: u64) -> (
    result: Result<(), LoadError>)
    requires
        old(memory).wf(),
        plans_have_frames(plans@),
    ensures
        final(memory).wf(),
        (final(memory)@, result) == segments_copied(
            old(memory)@,
            file@,
            plans@,
            bias,
            file@.headers.len(),
        ),
{
    let headers = file.program_headers();
    let mut index: usize = 0;
    while index < headers.len()
        invariant
            index <= headers@.len(),
            headers@ == file@.headers,
            memory.wf(),
            plans_have_frames(plans@),
            segments_copied(old(memory)@, file@, plans@, bias, index as nat) == (
                memory@,
                Ok::<(), LoadError>(()),
            ),
        decreases headers@.len() - index,
    {
        let header = headers[index];
        let ghost next = segments_copied(old(memory)@, file@, plans@, bias, (index + 1) as nat);
        if header.kind == PT_LOAD && header.file_size != 0 {
            match file.segment_data(header) {
                Err(error) => {
                    proof {
                        lemma_segments_failed(
                            old(memory)@,
                            file@,
                            plans@,
                            bias,
                            (index + 1) as nat,
                            headers@.len(),
                        );
                    }
                    return Err(LoadError::Elf(error));
                },
                Ok(data) => {
                    if let Err(error) = copy_segment(memory, plans, bias, header, data) {
                        proof {
                            lemma_segments_failed(
                                old(memory)@,
                                file@,
                                plans@,
                                bias,
                                (index + 1) as nat,
                                headers@.len(),
                            );
                        }
                        return Err(error);
                    }
                },
            }
        }
        index += 1;
    }
    Ok(())
}

/// Finds the table of headers in memory.
fn find_table(file: &ElfFile<'_>, bias: u64) -> (table: Option<u64>)
    ensures
        table == table_address(file@, bias),
{
    let headers = file.program_headers();
    let mut index: usize = 0;
    while index < headers.len()
        invariant
            index <= headers@.len(),
            headers@ == file@.headers,
            table_header(headers@, 0) == table_header(headers@, index as int),
        decreases headers@.len() - index,
    {
        if headers[index].kind == PT_PHDR {
            return bias.checked_add(headers[index].virtual_address);
        }
        index += 1;
    }
    let table_bytes: u64 = headers.len() as u64 * 56;
    let offset: u64 = file.program_offset();
    let table_end: u64 = match offset.checked_add(table_bytes) {
        None => {
            return None;
        },
        Some(end) => end,
    };
    let mut segment: usize = 0;
    while segment < headers.len()
        invariant
            segment <= headers@.len(),
            headers@ == file@.headers,
            offset == file@.program_offset,
            table_end == offset + headers@.len() * 56,
            table_header(headers@, 0) == headers@.len(),
            table_segment(headers@, offset, table_end as int, 0) == table_segment(
                headers@,
                offset,
                table_end as int,
                segment as int,
            ),
        decreases headers@.len() - segment,
    {
        let header = headers[segment];
        if header.kind == PT_LOAD && offset >= header.offset && table_end
            <= header.offset.saturating_add(header.file_size) {
            return match bias.checked_add(header.virtual_address) {
                None => None,
                Some(start) => start.checked_add(offset - header.offset),
            };
        }
        segment += 1;
    }
    None
}

/// Loads an image into an address space.
fn map_elf(
    memory: &mut PageMemory,
    space: &AddressSpace,
    file: &ElfFile<'_>,
    start: u64,
    end: u64,
    seed: u64,
) -> (loaded: Result<LoadedElf, LoadError>)
    requires
        old(memory).wf(),
        start <= end <= USER_ADDRESS_LIMIT,
    ensures
        final(memory).wf(),
        (final(memory)@, loaded) == image_mapped(
            old(memory)@,
            space.root.spec_u64(),
            file@,
            start,
            end,
            seed,
        ),
{
    reveal(image_mapped);
    let bias: u64 = match choose_load_bias(file, start, end, seed) {
        Err(error) => {
            return Err(error);
        },
        Ok(bias) => bias,
    };
    let mut plans = match plan_image(file, bias) {
        Err(error) => {
            return Err(error);
        },
        Ok(plans) => plans,
    };
    if let Err(error) = map_plans(memory, space, &mut plans) {
        return Err(error);
    }
    if let Err(error) = copy_segments(memory, file, &plans, bias) {
        return Err(error);
    }
    let entry: u64 = match bias.checked_add(file.entry()) {
        None => {
            return Err(LoadError::InvalidSegment);
        },
        Some(entry) => entry,
    };
    let count: usize = file.program_header_count();
    let program_headers: u64 = match find_table(file, bias) {
        None => {
            return Err(LoadError::InvalidSegment);
        },
        Some(table) => table,
    };
    if !mapped_range(&plans, program_headers, count * PROGRAM_HEADER_SIZE) {
        return Err(LoadError::InvalidSegment);
    }
    Ok(LoadedElf { entry, load_bias: bias, program_headers, program_header_count: count })
}

/// Putting a text on the stack, with a zero behind it; the new end of the stack.
pub open spec fn string_pushed(
    memory: MemoryView,
    root: u64,
    bottom: u64,
    top: u64,
    bytes: Seq<u8>,
) -> (MemoryView, Result<u64, LoadError>) {
    let place = (top - bytes.len() - 1) as u64;
    if top < bytes.len() + 1 || place < bottom {
        (memory, Err(LoadError::StackOverflow))
    } else {
        match paging::copied_to_user(memory, root, place, bytes) {
            (failed, Err(_)) => (failed, Err(LoadError::StackOverflow)),
            (after, Ok(_)) => match paging::copied_to_user(
                after,
                root,
                (place + bytes.len()) as u64,
                seq![0u8],
            ) {
                (failed, Err(_)) => (failed, Err(LoadError::StackOverflow)),
                (last, Ok(_)) => (last, Ok(place)),
            },
        }
    }
}

/// Putting texts on the stack from the last down to number `from`: where each is.
pub open spec fn strings_pushed(
    memory: MemoryView,
    root: u64,
    bottom: u64,
    top: u64,
    strings: Seq<Seq<u8>>,
    from: int,
) -> (MemoryView, Result<(u64, Seq<u64>), LoadError>)
    decreases strings.len() - from,
{
    if from >= strings.len() || from < 0 {
        (memory, Ok((top, Seq::empty())))
    } else {
        match strings_pushed(memory, root, bottom, top, strings, from + 1) {
            (failed, Err(error)) => (failed, Err(error)),
            (after, Ok((above, places))) => match string_pushed(
                after,
                root,
                bottom,
                above,
                strings[from],
            ) {
                (failed, Err(error)) => (failed, Err(error)),
                (last, Ok(place)) => (last, Ok((place, seq![place] + places))),
            },
        }
    }
}

/// The bytes of a number, the lowest first.
pub open spec fn number_bytes(value: u64) -> Seq<u8> {
    Seq::new(8, |i: int| physical::byte_of(value, i))
}

/// The bytes of numbers.
pub open spec fn numbers_bytes(values: Seq<u64>) -> Seq<u8>
    decreases values.len(),
{
    if values.len() == 0 {
        Seq::empty()
    } else {
        numbers_bytes(values.drop_last()) + number_bytes(values.last())
    }
}

/// The bytes of texts.
pub open spec fn texts_bytes(texts: Seq<&str>) -> Seq<Seq<u8>> {
    texts.map_values(|value: &str| value.spec_bytes())
}

/// What a program is told about itself: pairs of a key and a value.
pub open spec fn auxiliary(
    main: LoadedElf,
    interpreter_bias: u64,
    vdso_base: u64,
    random: u64,
    name: u64,
) -> Seq<u64> {
    seq![
        3,
        main.program_headers,
        4,
        56,
        5,
        main.program_header_count as u64,
        6,
        PAGE_SIZE,
        7,
        interpreter_bias,
        9,
        main.entry,
        11,
        0,
        12,
        0,
        13,
        0,
        14,
        0,
        23,
        0,
        25,
        random,
        31,
        name,
        33,
        vdso_base,
        0,
        0,
    ]
}

/// The words at the end of the first stack: how many arguments, where they are, where the
/// environment is, and what the program is told about itself.
pub open spec fn stack_words(arguments: Seq<u64>, environment: Seq<u64>, told: Seq<u64>) -> Seq<u64> {
    seq![arguments.len() as u64] + arguments + seq![0u64] + environment + seq![0u64] + told
}

/// The bytes from which a program can make random numbers.
pub open spec fn random_bytes(seed: u64) -> Seq<u8> {
    number_bytes(mixed(seed)) + number_bytes(mixed(rotated(seed, 31)))
}

/// Building the first stack: its end.
#[verifier::opaque]
pub open spec fn stack_built(
    memory: MemoryView,
    root: u64,
    bottom: u64,
    top: u64,
    arguments: Seq<Seq<u8>>,
    environment: Seq<Seq<u8>>,
    main: LoadedElf,
    interpreter_bias: u64,
    vdso_base: u64,
    seed: u64,
) -> (MemoryView, Result<u64, LoadError>) {
    match strings_pushed(memory, root, bottom, top, environment, 0) {
        (failed, Err(error)) => (failed, Err(error)),
        (first, Ok((above, environment_places))) => match strings_pushed(
            first,
            root,
            bottom,
            above,
            arguments,
            0,
        ) {
            (failed, Err(error)) => (failed, Err(error)),
            (second, Ok((below, argument_places))) => {
                let random = (below - 16) as u64;
                if below < 16 || random < bottom {
                    (second, Err(LoadError::StackOverflow))
                } else {
                    match paging::copied_to_user(second, root, random, random_bytes(seed)) {
                        (failed, Err(_)) => (failed, Err(LoadError::StackOverflow)),
                        (third, Ok(_)) => {
                            let words = stack_words(
                                argument_places,
                                environment_places,
                                auxiliary(
                                    main,
                                    interpreter_bias,
                                    vdso_base,
                                    random,
                                    argument_places[0],
                                ),
                            );
                            let room = random - words.len() * 8;
                            let end = (room - room % 16) as u64;
                            if room < 0 || end < bottom {
                                (third, Err(LoadError::StackOverflow))
                            } else {
                                match paging::copied_to_user(
                                    third,
                                    root,
                                    end,
                                    numbers_bytes(words),
                                ) {
                                    (failed, Err(_)) => (failed, Err(LoadError::StackOverflow)),
                                    (last, Ok(_)) => (last, Ok(end)),
                                }
                            }
                        },
                    }
                }
            },
        },
    }
}

/// Puts a text on the stack.
fn push_string(
    memory: &mut PageMemory,
    space: &AddressSpace,
    bottom: u64,
    top: u64,
    value: &str,
) -> (place: Result<u64, LoadError>)
    requires
        old(memory).wf(),
    ensures
        final(memory).wf(),
        (final(memory)@, place) == string_pushed(
            old(memory)@,
            space.root.spec_u64(),
            bottom,
            top,
            value.spec_bytes(),
        ),
{
    let bytes = value.as_bytes();
    let length: u64 = bytes.len() as u64;
    if top <= length {
        return Err(LoadError::StackOverflow);
    }
    let place: u64 = top - length - 1;
    if place < bottom {
        return Err(LoadError::StackOverflow);
    }
    if space.copy_to_user(memory, place, bytes).is_err() {
        return Err(LoadError::StackOverflow);
    }
    let zero: [u8; 1] = [0];
    assert(zero@ =~= seq![0u8]);
    if space.copy_to_user(memory, place + length, zero.as_slice()).is_err() {
        return Err(LoadError::StackOverflow);
    }
    Ok(place)
}

/// Puts texts on the stack, the last first: the new end of the stack and where each is.
fn push_strings(
    memory: &mut PageMemory,
    space: &AddressSpace,
    bottom: u64,
    top: u64,
    values: &[&str],
) -> (places: Result<(u64, Vec<u64>), LoadError>)
    requires
        old(memory).wf(),
    ensures
        final(memory).wf(),
        final(memory)@ == strings_pushed(
            old(memory)@,
            space.root.spec_u64(),
            bottom,
            top,
            texts_bytes(values@),
            0,
        ).0,
        places is Ok ==> strings_pushed(
            old(memory)@,
            space.root.spec_u64(),
            bottom,
            top,
            texts_bytes(values@),
            0,
        ).1 == Ok::<(u64, Seq<u64>), LoadError>((places->Ok_0.0, places->Ok_0.1@))
            && places->Ok_0.1@.len() == values@.len(),
        places is Err ==> strings_pushed(
            old(memory)@,
            space.root.spec_u64(),
            bottom,
            top,
            texts_bytes(values@),
            0,
        ).1 == Err::<(u64, Seq<u64>), LoadError>(places->Err_0),
{
    let ghost strings = texts_bytes(values@);
    let ghost root = space.root.spec_u64();
    let mut places: Vec<u64> = Vec::new();
    let mut current: u64 = top;
    let mut from: usize = values.len();
    while from > 0
        invariant
            from <= values@.len(),
            memory.wf(),
            root == space.root.spec_u64(),
            strings == texts_bytes(values@),
            strings.len() == values@.len(),
            places@.len() == values@.len() - from,
            strings_pushed(old(memory)@, root, bottom, top, strings, from as int) == (
                memory@,
                Ok::<(u64, Seq<u64>), LoadError>((current, places@)),
            ),
        decreases from,
    {
        let index: usize = from - 1;
        let ghost next = strings_pushed(
            old(memory)@,
            root,
            bottom,
            top,
            strings,
            index as int,
        );
        assert(strings[index as int] == values@[index as int].spec_bytes());
        match push_string(memory, space, bottom, current, values[index]) {
            Err(error) => {
                proof {
                    lemma_pushing_failed(
                        old(memory)@,
                        root,
                        bottom,
                        top,
                        strings,
                        index as int,
                        0,
                    );
                }
                return Err(error);
            },
            Ok(place) => {
                let ghost before = places@;
                places.insert(0, place);
                current = place;
                assert(places@ =~= seq![place] + before);
            },
        }
        from = index;
    }
    Ok((current, places))
}

proof fn lemma_pushing_failed(
    memory: MemoryView,
    root: u64,
    bottom: u64,
    top: u64,
    strings: Seq<Seq<u8>>,
    from: int,
    to: int,
)
    requires
        0 <= to <= from <= strings.len(),
        strings_pushed(memory, root, bottom, top, strings, from).1 is Err,
    ensures
        strings_pushed(memory, root, bottom, top, strings, to) == strings_pushed(
            memory,
            root,
            bottom,
            top,
            strings,
            from,
        ),
    decreases from - to,
{
    if to < from {
        lemma_pushing_failed(memory, root, bottom, top, strings, from, to + 1);
    }
}

/// Appends the bytes of a number.
fn push_number(bytes: &mut Vec<u8>, value: u64)
    ensures
        final(bytes)@ == old(bytes)@ + number_bytes(value),
{
    let mut index: u64 = 0;
    assert(bytes@ =~= old(bytes)@ + number_bytes(value).subrange(0, 0));
    while index < 8
        invariant
            index <= 8,
            bytes@ == old(bytes)@ + number_bytes(value).subrange(0, index as int),
        decreases 8 - index,
    {
        let byte: u8 = ((value >> (8 * index)) & 0xff) as u8;
        bytes.push(byte);
        index += 1;
        assert(bytes@ =~= old(bytes)@ + number_bytes(value).subrange(0, index as int));
    }
    assert(number_bytes(value).subrange(0, 8) =~= number_bytes(value));
}

/// The bytes of numbers.
fn to_bytes(values: &Vec<u64>) -> (bytes: Vec<u8>)
    ensures
        bytes@ == numbers_bytes(values@),
{
    let mut bytes: Vec<u8> = Vec::new();
    let mut index: usize = 0;
    assert(values@.subrange(0, 0) =~= Seq::empty());
    while index < values.len()
        invariant
            index <= values@.len(),
            bytes@ == numbers_bytes(values@.subrange(0, index as int)),
        decreases values@.len() - index,
    {
        push_number(&mut bytes, values[index]);
        proof {
            let next = values@.subrange(0, index + 1);
            assert(next.drop_last() =~= values@.subrange(0, index as int));
        }
        index += 1;
    }
    assert(values@.subrange(0, index as int) =~= values@);
    bytes
}

/// Appends numbers.
fn extend(words: &mut Vec<u64>, values: &[u64])
    ensures
        final(words)@ == old(words)@ + values@,
{
    let mut index: usize = 0;
    assert(words@ =~= old(words)@ + values@.subrange(0, 0));
    while index < values.len()
        invariant
            index <= values@.len(),
            words@ == old(words)@ + values@.subrange(0, index as int),
        decreases values@.len() - index,
    {
        words.push(values[index]);
        index += 1;
        assert(words@ =~= old(words)@ + values@.subrange(0, index as int));
    }
    assert(values@.subrange(0, index as int) =~= values@);
}

/// The words at the end of the first stack.
fn make_words(arguments: &Vec<u64>, environment: &Vec<u64>, told: &[u64]) -> (words: Vec<u64>)
    ensures
        words@ == stack_words(arguments@, environment@, told@),
{
    let mut words: Vec<u64> = Vec::new();
    words.push(arguments.len() as u64);
    assert(words@ =~= seq![arguments@.len() as u64]);
    extend(&mut words, arguments.as_slice());
    words.push(0);
    extend(&mut words, environment.as_slice());
    words.push(0);
    extend(&mut words, told);
    assert(words@ =~= stack_words(arguments@, environment@, told@));
    words
}

/// Builds the first stack.
fn build_initial_stack(
    memory: &mut PageMemory,
    space: &AddressSpace,
    bottom: u64,
    top: u64,
    arguments: &[&str],
    environment: &[&str],
    main: LoadedElf,
    interpreter_bias: u64,
    vdso_base: u64,
    seed: u64,
) -> (end: Result<u64, LoadError>)
    requires
        old(memory).wf(),
        1 <= arguments@.len() <= 8,
        environment@.len() <= 8,
    ensures
        final(memory).wf(),
        (final(memory)@, end) == stack_built(
            old(memory)@,
            space.root.spec_u64(),
            bottom,
            top,
            texts_bytes(arguments@),
            texts_bytes(environment@),
            main,
            interpreter_bias,
            vdso_base,
            seed,
        ),
{
    reveal(stack_built);
    let (above, environment_places) = match push_strings(memory, space, bottom, top, environment) {
        Err(error) => {
            return Err(error);
        },
        Ok(places) => places,
    };
    let (below, argument_places) = match push_strings(memory, space, bottom, above, arguments) {
        Err(error) => {
            return Err(error);
        },
        Ok(places) => places,
    };
    let mut random: Vec<u8> = Vec::new();
    push_number(&mut random, mix(seed));
    push_number(&mut random, mix(rotate(seed, 31)));
    assert(random@ =~= random_bytes(seed));
    if below < 16 {
        return Err(LoadError::StackOverflow);
    }
    let random_place: u64 = below - 16;
    if random_place < bottom {
        return Err(LoadError::StackOverflow);
    }
    if space.copy_to_user(memory, random_place, random.as_slice()).is_err() {
        return Err(LoadError::StackOverflow);
    }
    let name: u64 = argument_places[0];
    let told: [u64; 30] = [
        3,
        main.program_headers,
        4,
        56,
        5,
        main.program_header_count as u64,
        6,
        PAGE_SIZE,
        7,
        interpreter_bias,
        9,
        main.entry,
        11,
        0,
        12,
        0,
        13,
        0,
        14,
        0,
        23,
        0,
        25,
        random_place,
        31,
        name,
        33,
        vdso_base,
        0,
        0,
    ];
    assert(told@ =~= auxiliary(main, interpreter_bias, vdso_base, random_place, name));
    let words = make_words(&argument_places, &environment_places, told.as_slice());
    let size: u64 = words.len() as u64 * 8;
    if random_place < size {
        return Err(LoadError::StackOverflow);
    }
    let room: u64 = random_place - size;
    let end: u64 = room - room % 16;
    if end < bottom {
        return Err(LoadError::StackOverflow);
    }
    let bytes = to_bytes(&words);
    if space.copy_to_user(memory, end, bytes.as_slice()).is_err() {
        return Err(LoadError::StackOverflow);
    }
    Ok(end)
}

/// Whether a text can be an argument.
pub open spec fn text_ok(bytes: Seq<u8>) -> bool {
    1 <= bytes.len() < MAX_STRING_BYTES && !bytes.contains(0)
}

/// Whether a program can be started with these arguments.
pub open spec fn arguments_ok(arguments: Seq<Seq<u8>>, environment: Seq<Seq<u8>>) -> bool {
    &&& 1 <= arguments.len() <= MAX_ARGUMENTS
    &&& environment.len() <= MAX_ENVIRONMENT
    &&& forall|i: int| 0 <= i < arguments.len() ==> text_ok(#[trigger] arguments[i])
    &&& forall|i: int| 0 <= i < environment.len() ==> text_ok(#[trigger] environment[i])
}

/// Loading the interpreter of a program, if it has one: where the program starts to run,
/// and how far the interpreter was moved.
pub open spec fn interpreter_mapped(
    memory: MemoryView,
    root: u64,
    main: ElfView,
    main_entry: u64,
    source: Option<(Seq<u8>, Seq<u8>)>,
    seed: u64,
) -> (MemoryView, Result<(u64, u64), LoadError>) {
    match main.interpreter {
        None => (memory, Ok((main_entry, 0))),
        Some(path) => match source {
            None => (memory, Err(LoadError::InterpreterMissing)),
            Some((registered, image)) => if registered != path {
                (memory, Err(LoadError::InterpreterMismatch))
            } else if elf::elf_error(image, EM_X86_64) is Some {
                (memory, Err(LoadError::Elf(elf::elf_error(image, EM_X86_64).unwrap())))
            } else if elf::elf_contents(image).interpreter is Some {
                (memory, Err(LoadError::InterpreterNested))
            } else {
                match image_mapped(
                    memory,
                    root,
                    elf::elf_contents(image),
                    INTERP_ASLR_START,
                    INTERP_ASLR_END,
                    rotated(seed, 29),
                ) {
                    (failed, Err(error)) => (failed, Err(error)),
                    (after, Ok(loaded)) => (after, Ok((loaded.entry, loaded.load_bias))),
                }
            },
        },
    }
}

/// Filling an address space with a program: the parts of the process but for the root of
/// its tables.
#[verifier::opaque]
pub open spec fn process_filled(
    memory: MemoryView,
    root: u64,
    main: ElfView,
    source: Option<(Seq<u8>, Seq<u8>)>,
    vdso: ElfView,
    arguments: Seq<Seq<u8>>,
    environment: Seq<Seq<u8>>,
    seed: u64,
) -> (MemoryView, Result<LoadedProcess, LoadError>) {
    match image_mapped(memory, root, main, MAIN_ASLR_START, MAIN_ASLR_END, seed) {
        (failed, Err(error)) => (failed, Err(error)),
        (first, Ok(program)) => match interpreter_mapped(
            first,
            root,
            main,
            program.entry,
            source,
            seed,
        ) {
            (failed, Err(error)) => (failed, Err(error)),
            (second, Ok((entry, interpreter_bias))) => match image_mapped(
                second,
                root,
                vdso,
                VDSO_ASLR_START,
                VDSO_ASLR_END,
                rotated(seed, 47),
            ) {
                (failed, Err(error)) => (failed, Err(error)),
                (third, Ok(shared)) => match paging::stack_mapped(
                    third,
                    root,
                    USER_STACK_TOP,
                    USER_STACK_PAGES,
                ) {
                    (failed, Err(_)) => (failed, Err(LoadError::OutOfMemory)),
                    (fourth, Ok(stack)) => match stack_built(
                        fourth,
                        root,
                        stack.bottom,
                        (stack.top - (mixed(seed) & 0x7f) * 16) as u64,
                        arguments,
                        environment,
                        program,
                        interpreter_bias,
                        shared.load_bias,
                        seed,
                    ) {
                        (failed, Err(error)) => (failed, Err(error)),
                        (last, Ok(stack_pointer)) => (
                            last,
                            Ok(
                                LoadedProcess {
                                    cr3: root,
                                    entry,
                                    stack_pointer,
                                    load_bias: program.load_bias,
                                    interpreter_bias,
                                    vdso_base: shared.load_bias,
                                },
                            ),
                        ),
                    },
                },
            },
        },
    }
}

/// Loading a program into a new address space, which goes again if that fails.
pub open spec fn process_loaded(
    memory: MemoryView,
    main: Seq<u8>,
    source: Option<(Seq<u8>, Seq<u8>)>,
    vdso: Seq<u8>,
    arguments: Seq<Seq<u8>>,
    environment: Seq<Seq<u8>>,
    seed: u64,
) -> (MemoryView, Result<LoadedProcess, LoadError>) {
    if !arguments_ok(arguments, environment) {
        (memory, Err(LoadError::InvalidArguments))
    } else if elf::elf_error(main, EM_X86_64) is Some {
        (memory, Err(LoadError::Elf(elf::elf_error(main, EM_X86_64).unwrap())))
    } else if elf::elf_error(vdso, EM_X86_64) is Some {
        (memory, Err(LoadError::Elf(elf::elf_error(vdso, EM_X86_64).unwrap())))
    } else if elf::elf_contents(vdso).elf_type != ET_DYN || elf::elf_contents(
        vdso,
    ).interpreter is Some {
        (memory, Err(LoadError::InvalidVdso))
    } else {
        match paging::space_created(memory) {
            (failed, Err(_)) => (failed, Err(LoadError::OutOfMemory)),
            (created, Ok(root)) => match process_filled(
                created,
                root,
                elf::elf_contents(main),
                source,
                elf::elf_contents(vdso),
                arguments,
                environment,
                seed,
            ) {
                (failed, Err(error)) => (
                    paging::destroyed(failed, root, true).0,
                    Err(error),
                ),
                (last, Ok(process)) => (last, Ok(process)),
            },
        }
    }
}

/// The bytes of the path and the image of an interpreter.
pub open spec fn source_bytes(source: Option<(&str, &[u8])>) -> Option<(Seq<u8>, Seq<u8>)> {
    match source {
        Some((path, image)) => Some((path.spec_bytes(), image@)),
        None => None,
    }
}

/// Whether texts can be arguments.
fn texts_are_ok(values: &[&str]) -> (ok: bool)
    ensures
        ok == (forall|i: int|
            0 <= i < values@.len() ==> text_ok(#[trigger] texts_bytes(values@)[i])),
{
    let ghost strings = texts_bytes(values@);
    let mut index: usize = 0;
    while index < values.len()
        invariant
            index <= values@.len(),
            strings == texts_bytes(values@),
            forall|i: int| 0 <= i < index ==> text_ok(#[trigger] strings[i]),
        decreases values@.len() - index,
    {
        let bytes = values[index].as_bytes();
        assert(strings[index as int] == bytes@);
        if bytes.len() == 0 || bytes.len() >= MAX_STRING_BYTES {
            assert(!text_ok(strings[index as int]));
            return false;
        }
        let mut at: usize = 0;
        while at < bytes.len()
            invariant
                at <= bytes@.len(),
                index < values@.len(),
                strings == texts_bytes(values@),
                strings[index as int] == bytes@,
                forall|i: int| 0 <= i < at ==> #[trigger] bytes@[i] != 0,
            decreases bytes@.len() - at,
        {
            if bytes[at] == 0 {
                assert(bytes@.contains(0)) by {
                    assert(bytes@[at as int] == 0);
                }
                assert(!text_ok(strings[index as int]));
                return false;
            }
            at += 1;
        }
        assert(!bytes@.contains(0));
        index += 1;
    }
    true
}

/// Loads the interpreter of a program, if it has one.
fn load_interpreter(
    memory: &mut PageMemory,
    space: &AddressSpace,
    main: &ElfFile<'_>,
    main_entry: u64,
    source: Option<(&str, &[u8])>,
    seed: u64,
) -> (result: Result<(u64, u64), LoadError>)
    requires
        old(memory).wf(),
    ensures
        final(memory).wf(),
        (final(memory)@, result) == interpreter_mapped(
            old(memory)@,
            space.root.spec_u64(),
            main@,
            main_entry,
            source_bytes(source),
            seed,
        ),
{
    let path = match main.interpreter() {
        None => {
            return Ok((main_entry, 0));
        },
        Some(path) => path,
    };
    let (registered, image) = match source {
        None => {
            return Err(LoadError::InterpreterMissing);
        },
        Some(source) => source,
    };
    if !text::equal(registered.as_bytes(), path.as_bytes()) {
        return Err(LoadError::InterpreterMismatch);
    }
    let interpreter = match ElfFile::parse(image, EM_X86_64) {
        Err(error) => {
            return Err(LoadError::Elf(error));
        },
        Ok(file) => file,
    };
    if interpreter.interpreter().is_some() {
        return Err(LoadError::InterpreterNested);
    }
    match map_elf(
        memory,
        space,
        &interpreter,
        INTERP_ASLR_START,
        INTERP_ASLR_END,
        rotate(seed, 29),
    ) {
        Err(error) => Err(error),
        Ok(loaded) => Ok((loaded.entry, loaded.load_bias)),
    }
}

/// Fills an address space with a program.
fn load_process_inner(
    memory: &mut PageMemory,
    space: &AddressSpace,
    main: &ElfFile<'_>,
    source: Option<(&str, &[u8])>,
    vdso: &ElfFile<'_>,
    arguments: &[&str],
    environment: &[&str],
    seed: u64,
) -> (process: Result<LoadedProcess, LoadError>)
    requires
        old(memory).wf(),
        1 <= arguments@.len() <= 8,
        environment@.len() <= 8,
    ensures
        final(memory).wf(),
        (final(memory)@, process) == process_filled(
            old(memory)@,
            space.root.spec_u64(),
            main@,
            source_bytes(source),
            vdso@,
            texts_bytes(arguments@),
            texts_bytes(environment@),
            seed,
        ),
{
    reveal(process_filled);
    let program = match map_elf(memory, space, main, MAIN_ASLR_START, MAIN_ASLR_END, seed) {
        Err(error) => {
            return Err(error);
        },
        Ok(program) => program,
    };
    let (entry, interpreter_bias): (u64, u64) = match load_interpreter(
        memory,
        space,
        main,
        program.entry,
        source,
        seed,
    ) {
        Err(error) => {
            return Err(error);
        },
        Ok(loaded) => loaded,
    };
    let shared = match map_elf(
        memory,
        space,
        vdso,
        VDSO_ASLR_START,
        VDSO_ASLR_END,
        rotate(seed, 47),
    ) {
        Err(error) => {
            return Err(error);
        },
        Ok(shared) => shared,
    };
    let stack = match space.map_guarded_stack(memory, USER_STACK_TOP, USER_STACK_PAGES) {
        Err(_) => {
            return Err(LoadError::OutOfMemory);
        },
        Ok(stack) => stack,
    };
    let mixed_seed: u64 = mix(seed);
    proof {
        lemma_jitter(mixed_seed);
    }
    let jitter: u64 = (mixed_seed & 0x7f) * 16;
    match build_initial_stack(
        memory,
        space,
        stack.bottom,
        stack.top - jitter,
        arguments,
        environment,
        program,
        interpreter_bias,
        shared.load_bias,
        seed,
    ) {
        Err(error) => Err(error),
        Ok(stack_pointer) => Ok(
            LoadedProcess {
                cr3: space.root.as_u64(),
                entry,
                stack_pointer,
                load_bias: program.load_bias,
                interpreter_bias,
                vdso_base: shared.load_bias,
            },
        ),
    }
}

proof fn lemma_jitter(value: u64)
    by (bit_vector)
    ensures
        value & 0x7f <= 0x7f,
{
}

/// Loads a program into a new address space.
pub fn load_process(
    memory: &mut PageMemory,
    main_image: &[u8],
    interpreter: Option<(&str, &[u8])>,
    vdso_image: &[u8],
    arguments: &[&str],
    environment: &[&str],
    random_seed: u64,
) -> (process: Result<LoadedProcess, LoadError>)
    requires
        old(memory).wf(),
    ensures
        final(memory).wf(),
        (final(memory)@, process) == process_loaded(
            old(memory)@,
            main_image@,
            source_bytes(interpreter),
            vdso_image@,
            texts_bytes(arguments@),
            texts_bytes(environment@),
            random_seed,
        ),
{
    if arguments.len() == 0 || arguments.len() > MAX_ARGUMENTS || environment.len()
        > MAX_ENVIRONMENT || !texts_are_ok(arguments) || !texts_are_ok(environment) {
        return Err(LoadError::InvalidArguments);
    }
    let main = match ElfFile::parse(main_image, EM_X86_64) {
        Err(error) => {
            return Err(LoadError::Elf(error));
        },
        Ok(file) => file,
    };
    let vdso = match ElfFile::parse(vdso_image, EM_X86_64) {
        Err(error) => {
            return Err(LoadError::Elf(error));
        },
        Ok(file) => file,
    };
    if vdso.elf_type() != ET_DYN || vdso.interpreter().is_some() {
        return Err(LoadError::InvalidVdso);
    }
    let space = match AddressSpace::new_user(memory) {
        Err(_) => {
            return Err(LoadError::OutOfMemory);
        },
        Ok(space) => space,
    };
    match load_process_inner(
        memory,
        &space,
        &main,
        interpreter,
        &vdso,
        arguments,
        environment,
        random_seed,
    ) {
        Ok(process) => Ok(process),
        Err(error) => {
            let _ = space.destroy(memory);
            Err(error)
        },
    }
}

/// A page of a program is not both written and run.
pub proof fn law_images_keep_code_apart(plan: PagePlan)
    requires
        !(plan.writable && plan.executable),
    ensures
        !paging::breaks_protection(plan_flags(plan)),
{
    lemma_flags_apart();
}

proof fn lemma_flags_apart()
    by (bit_vector)
    ensures
        ((1u64 | 4u64) | (2u64 | 0x8000_0000_0000_0000u64)) & 0x8000_0000_0000_0000u64
            == 0x8000_0000_0000_0000u64,
        ((1u64 | 4u64) | 0x8000_0000_0000_0000u64) & 2u64 != 2u64,
        (1u64 | 4u64) & 2u64 != 2u64,
{
}

} // verus!
