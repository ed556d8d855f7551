//! What holds of a program that was loaded.
use crate::kernel::elf;
use crate::kernel::elf::{LoadError, LoadedElf, LoadedProcess, PagePlan};
use crate::linux::elf::{ElfView, ProgramHeader, PT_LOAD};
use crate::mm::address::USER_ADDRESS_LIMIT;
use crate::mm::paging;
use crate::mm::paging::spaces;
use crate::mm::paging::{ENTRY_NO_EXECUTE, ENTRY_PRESENT, ENTRY_USER, ENTRY_WRITABLE};
use crate::mm::physical;
use crate::mm::physical::MemoryView;
use vstd::prelude::*;

verus! {

/// Plans of different user pages.
spec fn plans_sound(plans: Seq<PagePlan>) -> bool {
    &&& forall|i: int|
        0 <= i < plans.len() ==> spaces::is_user_page((#[trigger] plans[i]).address)
    &&& forall|i: int, j: int|
        0 <= i < j < plans.len() ==> (#[trigger] plans[i]).address != (#[trigger] plans[j]).address
}

proof fn lemma_plan_of(plans: Seq<PagePlan>, page: int, from: int)
    requires
        0 <= from <= plans.len(),
    ensures
        from <= elf::plan_of(plans, page, from) <= plans.len(),
        elf::plan_of(plans, page, from) < plans.len() ==> plans[elf::plan_of(
            plans,
            page,
            from,
        )].address == page,
        forall|i: int|
            from <= i < elf::plan_of(plans, page, from) ==> (#[trigger] plans[i]).address != page,
    decreases plans.len() - from,
{
    if from < plans.len() && plans[from].address != page {
        lemma_plan_of(plans, page, from + 1);
    }
}

/// There is a plan for a page that allows what a header wants.
spec fn planned_for(plans: Seq<PagePlan>, page: int, header: ProgramHeader) -> bool {
    exists|i: int|
        0 <= i < plans.len() && (#[trigger] plans[i]).address == page && (header.writable()
            ==> plans[i].writable) && (header.executable() ==> plans[i].executable)
}

/// The plans of one list are among those of another, which allow no less.
spec fn plans_grow(before: Seq<PagePlan>, after: Seq<PagePlan>) -> bool {
    &&& before.len() <= after.len()
    &&& forall|i: int|
        0 <= i < before.len() ==> (#[trigger] after[i]).address == before[i].address && (
        before[i].writable ==> after[i].writable) && (before[i].executable ==> after[i].executable)
}

proof fn lemma_planned_stays(
    before: Seq<PagePlan>,
    after: Seq<PagePlan>,
    page: int,
    header: ProgramHeader,
)
    requires
        plans_grow(before, after),
        planned_for(before, page, header),
    ensures
        planned_for(after, page, header),
{
    let i = choose|i: int|
        0 <= i < before.len() && (#[trigger] before[i]).address == page && (header.writable()
            ==> before[i].writable) && (header.executable() ==> before[i].executable);
    assert(after[i].address == page);
}

proof fn lemma_with_page(plans: Seq<PagePlan>, page: int, header: ProgramHeader)
    requires
        plans_sound(plans),
        page % 4096 == 0,
        0 <= page < USER_ADDRESS_LIMIT,
    ensures
        plans_sound(elf::with_page(plans, page, header)),
        plans_grow(plans, elf::with_page(plans, page, header)),
        planned_for(elf::with_page(plans, page, header), page, header),
{
    lemma_plan_of(plans, page, 0);
    let at = elf::plan_of(plans, page, 0);
    let after = elf::with_page(plans, page, header);
    assert(after[at].address == page);
}

proof fn lemma_pages_planned(plans: Seq<PagePlan>, header: ProgramHeader, page: int, end: int)
    requires
        plans_sound(plans),
        page % 4096 == 0,
        end % 4096 == 0,
        0 <= page,
        end <= USER_ADDRESS_LIMIT,
        elf::pages_planned(plans, header, page, end) is Ok,
    ensures
        ({
            let after = elf::pages_planned(plans, header, page, end)->Ok_0;
            &&& plans_sound(after)
            &&& plans_grow(plans, after)
            &&& forall|p: int|
                page <= p < end && p % 4096 == 0 ==> #[trigger] planned_for(after, p, header)
        }),
    decreases end - page + 4096,
{
    if page < end {
        let next = elf::with_page(plans, page, header);
        lemma_with_page(plans, page, header);
        lemma_pages_planned(next, header, page + 4096, end);
        let after = elf::pages_planned(plans, header, page, end)->Ok_0;
        assert forall|i: int| 0 <= i < plans.len() implies (#[trigger] after[i]).address
            == plans[i].address && (plans[i].writable ==> after[i].writable) && (
        plans[i].executable ==> after[i].executable) by {
            assert(next[i].address == plans[i].address);
        }
        assert forall|p: int| page <= p < end && p % 4096 == 0 implies #[trigger] planned_for(
            after,
            p,
            header,
        ) by {
            if p < page + 4096 {
                assert(p == page);
                lemma_planned_stays(next, after, page, header);
            }
        }
    }
}

/// The plans of an image are of different user pages, and there is one for each page that a
/// header takes.
proof fn lemma_image_planned(headers: Seq<ProgramHeader>, bias: u64, count: nat)
    requires
        count <= headers.len(),
        elf::image_planned(headers, bias, count) is Ok,
    ensures
        ({
            let plans = elf::image_planned(headers, bias, count)->Ok_0;
            &&& plans_sound(plans)
            &&& forall|h: int|
                0 <= h < count && elf::takes_memory(#[trigger] headers[h]) ==> {
                    let start = bias + headers[h].virtual_address;
                    let end = start + headers[h].memory_size;
                    &&& 4096 <= start < end <= USER_ADDRESS_LIMIT
                    &&& headers[h].offset % 4096 == headers[h].virtual_address % 4096
                    &&& forall|a: int|
                        start <= a < end ==> #[trigger] planned_for(
                            plans,
                            spaces::page_of(a) as int,
                            headers[h],
                        )
                }
        }),
    decreases count,
{
    if count > 0 {
        lemma_image_planned(headers, bias, (count - 1) as nat);
        let before = elf::image_planned(headers, bias, (count - 1) as nat)->Ok_0;
        let plans = elf::image_planned(headers, bias, count)->Ok_0;
        let header = headers[count - 1];
        if elf::takes_memory(header) {
            let start = bias + header.virtual_address;
            let end = start + header.memory_size;
            lemma_pages_planned(
                before,
                header,
                elf::page_floor(start),
                elf::page_floor(end + 4095),
            );
            assert forall|h: int| 0 <= h < count && elf::takes_memory(#[trigger] headers[h]) implies {
                let first = bias + headers[h].virtual_address;
                let last = first + headers[h].memory_size;
                &&& 4096 <= first < last <= USER_ADDRESS_LIMIT
                &&& headers[h].offset % 4096 == headers[h].virtual_address % 4096
                &&& forall|a: int|
                    first <= a < last ==> #[trigger] planned_for(
                        plans,
                        spaces::page_of(a) as int,
                        headers[h],
                    )
            } by {
                let first = bias + headers[h].virtual_address;
                let last = first + headers[h].memory_size;
                assert forall|a: int| first <= a < last implies #[trigger] planned_for(
                    plans,
                    spaces::page_of(a) as int,
                    headers[h],
                ) by {
                    let p = spaces::page_of(a) as int;
                    if h < count - 1 {
                        assert(planned_for(before, p, headers[h]));
                        lemma_planned_stays(before, plans, p, headers[h]);
                    } else {
                        assert(p % 4096 == 0);
                        assert(elf::page_floor(start) <= p < elf::page_floor(end + 4095));
                    }
                }
            }
        }
    }
}

/// The entry of level 1 of a page that was mapped for a plan.
spec fn leaf_for(plan: PagePlan) -> u64 {
    plan.physical.unwrap() | elf::plan_flags(plan).0 | ENTRY_PRESENT
}

/// The first plans have frames that are mapped.
spec fn plans_have(memory: MemoryView, root: u64, plans: Seq<PagePlan>, count: int) -> bool {
    forall|i: int|
        0 <= i < count ==> {
            let leaf = spaces::leaf_of(memory, root, (#[trigger] plans[i]).address);
            &&& plans[i].physical is Some
            &&& leaf == leaf_for(plans[i])
            &&& paging::is_present(leaf)
            &&& paging::target_of(leaf) == plans[i].physical.unwrap()
        }
}

proof fn lemma_plan_flags()
    by (bit_vector)
    ensures
        ((1u64 | 4u64) | (2u64 | 0x8000_0000_0000_0000u64)) & 0x000f_ffff_ffff_f000u64 == 0,
        ((1u64 | 4u64) | 0x8000_0000_0000_0000u64) & 0x000f_ffff_ffff_f000u64 == 0,
        (1u64 | 4u64) & 0x000f_ffff_ffff_f000u64 == 0,
        (1u64 | 2u64 | 4u64 | 0x8000_0000_0000_0000u64) & 0x000f_ffff_ffff_f000u64 == 0,
{
}

/// The same plans but for their frames.
spec fn same_plans(before: Seq<PagePlan>, after: Seq<PagePlan>) -> bool {
    &&& before.len() == after.len()
    &&& forall|i: int|
        0 <= i < before.len() ==> (#[trigger] after[i]).address == before[i].address
            && after[i].writable == before[i].writable && after[i].executable
            == before[i].executable && !(before[i].writable && before[i].executable)
}

/// Whether none of the plans from a number on is for a page.
spec fn unplanned(plans: Seq<PagePlan>, from: int, page: u64) -> bool {
    forall|i: int| from <= i < plans.len() ==> (#[trigger] plans[i]).address != page
}

proof fn lemma_outside_twice(
    before: MemoryView,
    middle: MemoryView,
    after: MemoryView,
    fresh: Set<int>,
)
    requires
        spaces::outside_kept(before, middle, fresh),
        spaces::outside_kept(middle, after, fresh),
    ensures
        spaces::outside_kept(before, after, fresh),
{
    assert forall|i: int| 0 <= i < physical::WORDS && !fresh.contains(i / 512) implies
        #[trigger] after.words[i] == before.words[i] by {
        assert(middle.words[i] == before.words[i]);
    }
}

/// Mapping the plans gives each its frame of zeros and leaves all other pages.
#[verifier::spinoff_prover]
#[verifier::rlimit(60)]
proof fn lemma_plans_mapped(
    memory: MemoryView,
    root: u64,
    plans: Seq<PagePlan>,
    done: int,
    fresh: Set<int>,
)
    requires
        spaces::is_own(memory, root, fresh),
        plans_sound(plans),
        0 <= done <= plans.len(),
        plans_have(memory, root, plans, done),
        forall|i: int|
            0 <= i < done ==> !((#[trigger] plans[i]).writable && plans[i].executable),
        elf::plans_mapped(memory, root, plans, done).1 is Ok,
    ensures
        ({
            let (after, result) = elf::plans_mapped(memory, root, plans, done);
            let given = result->Ok_0;
            &&& spaces::is_own(after, root, fresh)
            &&& spaces::outside_kept(memory, after, fresh)
            &&& same_plans(plans, given)
            &&& plans_sound(given)
            &&& plans_have(after, root, given, given.len() as int)
            &&& forall|q: u64|
                spaces::is_user_page(q) && unplanned(plans, done, q)
                    ==> #[trigger] spaces::leaf_of(after, root, q) == spaces::leaf_of(
                    memory,
                    root,
                    q,
                )
            &&& forall|a: int| #[trigger]
                spaces::has_page(memory, root, a) ==> unplanned(plans, done, spaces::page_of(a))
            &&& forall|a: int|
                spaces::has_page(memory, root, a) ==> #[trigger] spaces::space_byte(after, root, a)
                    == spaces::space_byte(memory, root, a)
            &&& forall|a: int|
                spaces::is_user_address(a) && !unplanned(plans, done, spaces::page_of(a))
                    ==> #[trigger] spaces::space_byte(after, root, a) == 0
        }),
    decreases plans.len() - done,
{
    if done < plans.len() {
        let plan = plans[done];
        let flags = elf::plan_flags(plan);
        let page = plan.address;
        lemma_plan_flags();
        let (taken, result) = memory.allocated();
        let frame = result->Ok_0.spec_u64();
        spaces::law_new_pages_are_zero(memory, root, page, flags, fresh);
        let next = paging::user_mapped(taken.zeroed(frame as int), root, page, frame, flags).0;
        let with_frame = PagePlan { physical: Some(frame), ..plan };
        let given = plans.update(done, with_frame);
        assert(elf::plan_flags(with_frame) == flags);
        assert forall|i: int| 0 <= i < done + 1 implies {
            let leaf = spaces::leaf_of(next, root, (#[trigger] given[i]).address);
            &&& given[i].physical is Some
            &&& leaf == leaf_for(given[i])
            &&& paging::is_present(leaf)
            &&& paging::target_of(leaf) == given[i].physical.unwrap()
        } by {
            if i < done {
                assert(plans[i].address != plans[done].address);
                assert(spaces::is_user_page(plans[i].address));
            }
        }
        assert forall|i: int| 0 <= i < done + 1 implies !((#[trigger] given[i]).writable
            && given[i].executable) by {
            if i < done {
                assert(!(plans[i].writable && plans[i].executable));
            }
        }
        assert forall|i: int, j: int| 0 <= i < j < given.len() implies (
        #[trigger] given[i]).address != (#[trigger] given[j]).address by {
            assert(plans[i].address != plans[j].address);
        }
        assert forall|i: int| 0 <= i < given.len() implies spaces::is_user_page(
            (#[trigger] given[i]).address,
        ) by {
            assert(spaces::is_user_page(plans[i].address));
        }
        lemma_plans_mapped(next, root, given, done + 1, fresh);
        let (after, last) = elf::plans_mapped(memory, root, plans, done);
        let end = last->Ok_0;
        lemma_outside_twice(memory, next, after, fresh);
        assert forall|i: int| 0 <= i < plans.len() implies (#[trigger] end[i]).address
            == plans[i].address && end[i].writable == plans[i].writable && end[i].executable
            == plans[i].executable && !(plans[i].writable && plans[i].executable) by {
            assert(given[i].address == plans[i].address);
        }
        assert forall|q: u64|
            spaces::is_user_page(q) && unplanned(plans, done, q) implies #[trigger] spaces::leaf_of(
            after,
            root,
            q,
        ) == spaces::leaf_of(memory, root, q) by {
            assert(plans[done].address != q);
            assert(unplanned(given, done + 1, q)) by {
                assert forall|i: int| done + 1 <= i < given.len() implies (
                #[trigger] given[i]).address != q by {
                    assert(plans[i].address != q);
                }
            }
            assert(spaces::leaf_of(next, root, q) == spaces::leaf_of(memory, root, q));
        }
        assert forall|a: int| spaces::has_page(memory, root, a) implies #[trigger]
            spaces::space_byte(after, root, a) == spaces::space_byte(memory, root, a) by {
            let q = spaces::page_of(a);
            assert(spaces::is_user_page(q));
            assert(q != page);
            assert(spaces::leaf_of(next, root, q) == spaces::leaf_of(memory, root, q));
            assert(spaces::has_page(next, root, a));
            assert(spaces::space_byte(next, root, a) == spaces::space_byte(memory, root, a));
        }
        assert forall|a: int| #[trigger] spaces::has_page(memory, root, a) implies unplanned(
            plans,
            done,
            spaces::page_of(a),
        ) by {
            let q = spaces::page_of(a);
            assert(spaces::is_user_page(q));
            assert(q != page);
            assert(spaces::leaf_of(next, root, q) == spaces::leaf_of(memory, root, q));
            assert(spaces::has_page(next, root, a));
            assert(unplanned(given, done + 1, q));
            assert forall|i: int| done <= i < plans.len() implies (#[trigger] plans[i]).address
                != q by {
                if i > done {
                    assert(given[i].address != q);
                }
            }
        }
        assert forall|a: int|
            spaces::is_user_address(a) && !unplanned(plans, done, spaces::page_of(a)) implies
            #[trigger] spaces::space_byte(after, root, a) == 0 by {
            let q = spaces::page_of(a);
            if q == page {
                assert(spaces::space_byte(next, root, a) == 0);
                assert(spaces::leaf_of(next, root, q) == frame | flags.0 | ENTRY_PRESENT);
                assert(spaces::has_page(next, root, a));
            } else {
                let i = choose|i: int|
                    done <= i < plans.len() && (#[trigger] plans[i]).address == q;
                assert(given[i].address == q);
                assert(!unplanned(given, done + 1, q));
            }
        }
    }
}

proof fn lemma_plans_stay(
    before: MemoryView,
    after: MemoryView,
    root: u64,
    plans: Seq<PagePlan>,
)
    requires
        plans_sound(plans),
        plans_have(before, root, plans, plans.len() as int),
        spaces::same_pages(before, after, root),
    ensures
        plans_have(after, root, plans, plans.len() as int),
{
    assert forall|i: int| 0 <= i < plans.len() implies {
        let leaf = spaces::leaf_of(after, root, (#[trigger] plans[i]).address);
        &&& plans[i].physical is Some
        &&& leaf == leaf_for(plans[i])
        &&& paging::is_present(leaf)
        &&& paging::target_of(leaf) == plans[i].physical.unwrap()
    } by {
        assert(spaces::is_user_page(plans[i].address));
    }
}

/// Whether one of the plans is for the page of an address.
spec fn planned(plans: Seq<PagePlan>, at: int) -> bool {
    spaces::is_user_address(at) && !unplanned(plans, 0, spaces::page_of(at))
}

/// Copying a segment writes its bytes to the pages of the plans, and nothing else.
#[verifier::spinoff_prover]
#[verifier::rlimit(40)]
proof fn lemma_segment_copied(
    memory: MemoryView,
    root: u64,
    plans: Seq<PagePlan>,
    start: int,
    data: Seq<u8>,
    done: int,
    fresh: Set<int>,
)
    requires
        spaces::is_own(memory, root, fresh),
        plans_sound(plans),
        plans_have(memory, root, plans, plans.len() as int),
        start >= 0,
        0 <= done <= data.len(),
        elf::segment_copied(memory, plans, start, data, done).1 is Ok,
    ensures
        ({
            let after = elf::segment_copied(memory, plans, start, data, done).0;
            &&& spaces::is_own(after, root, fresh)
            &&& spaces::outside_kept(memory, after, fresh)
            &&& spaces::same_pages(memory, after, root)
            &&& spaces::bytes_written(
                memory,
                after,
                root,
                start + done,
                data.subrange(done, data.len() as int),
            )
            &&& forall|a: int|
                start + done <= a < start + data.len() ==> #[trigger] planned(plans, a)
        }),
    decreases data.len() - done,
{
    if done < data.len() {
        let at = start + done;
        let plan = elf::plan_of(plans, elf::page_floor(at), 0);
        lemma_plan_of(plans, elf::page_floor(at), 0);
        let length = paging::chunk(at, data.len() - done);
        let part = data.subrange(done, done + length);
        let later = data.subrange(done + length, data.len() as int);
        let page = plans[plan].address;
        assert(spaces::is_user_page(page));
        assert(page == at - at % 4096);
        assert(spaces::page_of(at) == page);
        assert(spaces::has_page(memory, root, at));
        spaces::lemma_page_stored(memory, root, at, part, fresh);
        let next = MemoryView {
            words: physical::stored(
                memory.words,
                plans[plan].physical.unwrap() + at % 4096,
                part,
            ),
            ..memory
        };
        lemma_plans_stay(memory, next, root, plans);
        lemma_segment_copied(next, root, plans, start, data, done + length, fresh);
        let after = elf::segment_copied(memory, plans, start, data, done).0;
        spaces::lemma_two_writes(memory, next, after, root, at, part, later);
        assert(part + later =~= data.subrange(done, data.len() as int));
        lemma_outside_twice(memory, next, after, fresh);
        assert forall|a: int| at <= a < start + data.len() implies #[trigger] planned(
            plans,
            a,
        ) by {
            if a < at + length {
                assert(spaces::page_of(a) == page);
                assert(plans[plan].address == spaces::page_of(a));
            }
        }
    }
}

/// Whether the part of a header that is in the file holds an address.
pub open spec fn in_segment(header: ProgramHeader, bias: u64, at: int) -> bool {
    header.kind == PT_LOAD && bias + header.virtual_address <= at < bias + header.virtual_address
        + header.file_size
}

/// Whether the part of a header that takes memory holds an address.
pub open spec fn in_memory(header: ProgramHeader, bias: u64, at: int) -> bool {
    header.kind == PT_LOAD && bias + header.virtual_address <= at < bias + header.virtual_address
        + header.memory_size
}

/// The byte that the last of the first `count` headers whose part in the file holds an address
/// puts there; zero where none does.
spec fn image_byte(image: ElfView, bias: u64, count: nat, at: int) -> u8
    decreases count,
{
    if count == 0 {
        0
    } else {
        let header = image.headers[count - 1];
        if in_segment(header, bias, at) {
            image.image[header.offset + (at - bias - header.virtual_address)]
        } else {
            image_byte(image, bias, (count - 1) as nat, at)
        }
    }
}

/// Whether one of the first `count` headers puts a byte at an address.
spec fn in_file_part(image: ElfView, bias: u64, count: nat, at: int) -> bool {
    exists|h: int| 0 <= h < count && in_segment(#[trigger] image.headers[h], bias, at)
}

/// Copying the segments puts the bytes of the file where the headers say.
#[verifier::spinoff_prover]
#[verifier::rlimit(40)]
proof fn lemma_segments_copied(
    memory: MemoryView,
    root: u64,
    image: ElfView,
    plans: Seq<PagePlan>,
    bias: u64,
    count: nat,
    fresh: Set<int>,
)
    requires
        spaces::is_own(memory, root, fresh),
        plans_sound(plans),
        plans_have(memory, root, plans, plans.len() as int),
        count <= image.headers.len(),
        elf::segments_copied(memory, image, plans, bias, count).1 is Ok,
    ensures
        ({
            let after = elf::segments_copied(memory, image, plans, bias, count).0;
            &&& spaces::is_own(after, root, fresh)
            &&& spaces::outside_kept(memory, after, fresh)
            &&& spaces::same_pages(memory, after, root)
            &&& plans_have(after, root, plans, plans.len() as int)
            &&& forall|a: int|
                spaces::has_page(memory, root, a) ==> #[trigger] spaces::space_byte(after, root, a)
                    == (if in_file_part(image, bias, count, a) {
                    image_byte(image, bias, count, a)
                } else {
                    spaces::space_byte(memory, root, a)
                })
            &&& forall|a: int| #[trigger]
                in_file_part(image, bias, count, a) ==> planned(plans, a)
        }),
    decreases count,
{
    if count > 0 {
        let fewer = (count - 1) as nat;
        lemma_segments_copied(memory, root, image, plans, bias, fewer, fresh);
        let before = elf::segments_copied(memory, image, plans, bias, fewer).0;
        let after = elf::segments_copied(memory, image, plans, bias, count).0;
        let header = image.headers[count - 1];
        let start = bias + header.virtual_address;
        if header.kind == PT_LOAD && header.file_size != 0 {
            let data = image.image.subrange(
                header.offset as int,
                header.offset + header.file_size,
            );
            lemma_segment_copied(before, root, plans, start, data, 0, fresh);
            assert(data.subrange(0, data.len() as int) =~= data);
            lemma_plans_stay(before, after, root, plans);
            lemma_outside_twice(memory, before, after, fresh);
            assert forall|q: u64| spaces::is_user_page(q) implies #[trigger] spaces::leaf_of(
                after,
                root,
                q,
            ) == spaces::leaf_of(memory, root, q) by {
                assert(spaces::leaf_of(before, root, q) == spaces::leaf_of(memory, root, q));
            }
        }
        assert forall|a: int| #[trigger] in_file_part(image, bias, count, a) implies planned(
            plans,
            a,
        ) by {
            if in_segment(header, bias, a) {
                assert(planned(plans, a));
            } else {
                let h = choose|h: int|
                    0 <= h < count && in_segment(#[trigger] image.headers[h], bias, a);
                assert(in_segment(image.headers[h], bias, a));
                assert(in_file_part(image, bias, fewer, a));
            }
        }
        assert forall|a: int| spaces::has_page(memory, root, a) implies #[trigger]
            spaces::space_byte(after, root, a) == (if in_file_part(image, bias, count, a) {
            image_byte(image, bias, count, a)
        } else {
            spaces::space_byte(memory, root, a)
        }) by {
            assert(spaces::is_user_page(spaces::page_of(a)));
            assert(spaces::leaf_of(before, root, spaces::page_of(a)) == spaces::leaf_of(
                memory,
                root,
                spaces::page_of(a),
            ));
            assert(spaces::has_page(before, root, a));
            assert(spaces::space_byte(before, root, a) == spaces::space_byte(before, root, a));
            if in_segment(header, bias, a) {
                assert(in_segment(image.headers[count - 1], bias, a));
                assert(in_file_part(image, bias, count, a));
            } else {
                assert(in_file_part(image, bias, count, a) == in_file_part(
                    image,
                    bias,
                    fewer,
                    a,
                )) by {
                    if in_file_part(image, bias, count, a) {
                        let h = choose|h: int|
                            0 <= h < count && in_segment(#[trigger] image.headers[h], bias, a);
                        assert(h < fewer);
                    }
                    if in_file_part(image, bias, fewer, a) {
                        let h = choose|h: int|
                            0 <= h < fewer && in_segment(#[trigger] image.headers[h], bias, a);
                        assert(in_segment(image.headers[h], bias, a));
                    }
                }
            }
        }
    } else {
        assert forall|a: int| !#[trigger] in_file_part(image, bias, count, a) by {}
    }
}

proof fn lemma_image_byte(image: ElfView, bias: u64, count: nat, at: int, h: int)
    requires
        0 <= h < count,
        in_segment(image.headers[h], bias, at),
        forall|later: int|
            h < later < count ==> !in_segment(#[trigger] image.headers[later], bias, at),
    ensures
        image_byte(image, bias, count, at) == image.image[image.headers[h].offset + (at - bias
            - image.headers[h].virtual_address)],
    decreases count,
{
    if h < count - 1 {
        assert(!in_segment(image.headers[count - 1], bias, at));
        lemma_image_byte(image, bias, (count - 1) as nat, at, h);
    }
}

/// The pages that a space had are where they were and hold what they held.
spec fn space_kept(before: MemoryView, after: MemoryView, root: u64) -> bool {
    &&& forall|a: int| #[trigger]
        spaces::has_page(before, root, a) ==> spaces::leaf_of(after, root, spaces::page_of(a))
            == spaces::leaf_of(before, root, spaces::page_of(a))
    &&& forall|a: int|
        spaces::has_page(before, root, a) ==> #[trigger] spaces::space_byte(after, root, a)
            == spaces::space_byte(before, root, a)
}

proof fn lemma_kept_twice(before: MemoryView, middle: MemoryView, after: MemoryView, root: u64)
    requires
        space_kept(before, middle, root),
        space_kept(middle, after, root),
    ensures
        space_kept(before, after, root),
{
    assert forall|a: int| #[trigger] spaces::has_page(before, root, a) implies spaces::leaf_of(
        after,
        root,
        spaces::page_of(a),
    ) == spaces::leaf_of(before, root, spaces::page_of(a)) by {
        assert(spaces::has_page(middle, root, a));
    }
    assert forall|a: int| spaces::has_page(before, root, a) implies #[trigger] spaces::space_byte(
        after,
        root,
        a,
    ) == spaces::space_byte(before, root, a) by {
        assert(spaces::has_page(middle, root, a));
        assert(spaces::space_byte(middle, root, a) == spaces::space_byte(before, root, a));
    }
}

/// What a header of an image says of an address holds in a space.
spec fn holds_image(
    memory: MemoryView,
    root: u64,
    image: ElfView,
    bias: u64,
    h: int,
    at: int,
) -> bool {
    let leaf = spaces::leaf_of(memory, root, spaces::page_of(at));
    &&& 4096 <= at
    &&& spaces::has_page(memory, root, at)
    &&& leaf & ENTRY_USER != 0
    &&& image.headers[h].writable() ==> leaf & ENTRY_WRITABLE != 0
    &&& image.headers[h].executable() ==> leaf & ENTRY_NO_EXECUTE == 0
    &&& spaces::space_byte(memory, root, at) == (if in_file_part(
        image,
        bias,
        image.headers.len(),
        at,
    ) {
        image_byte(image, bias, image.headers.len(), at)
    } else {
        0
    })
}

/// An image is in a space.
spec fn image_in(memory: MemoryView, root: u64, image: ElfView, bias: u64) -> bool {
    forall|h: int, at: int|
        0 <= h < image.headers.len() && in_memory(image.headers[h], bias, at)
            ==> #[trigger] holds_image(memory, root, image, bias, h, at)
}

proof fn lemma_image_stays(
    before: MemoryView,
    after: MemoryView,
    root: u64,
    image: ElfView,
    bias: u64,
)
    requires
        image_in(before, root, image, bias),
        space_kept(before, after, root),
    ensures
        image_in(after, root, image, bias),
{
    assert forall|h: int, at: int|
        0 <= h < image.headers.len() && in_memory(image.headers[h], bias, at) implies #[trigger]
        holds_image(after, root, image, bias, h, at) by {
        assert(holds_image(before, root, image, bias, h, at));
        assert(spaces::has_page(before, root, at));
        assert(spaces::space_byte(after, root, at) == spaces::space_byte(before, root, at));
    }
}

proof fn lemma_plan_bits(physical: u64)
    by (bit_vector)
    ensures
        (physical | ((1u64 | 4u64) | (2u64 | 0x8000_0000_0000_0000u64)) | 1u64) & 4u64 != 0,
        (physical | ((1u64 | 4u64) | (2u64 | 0x8000_0000_0000_0000u64)) | 1u64) & 2u64 != 0,
        (physical | ((1u64 | 4u64) | 0x8000_0000_0000_0000u64) | 1u64) & 4u64 != 0,
        (physical | (1u64 | 4u64) | 1u64) & 4u64 != 0,
        physical < 0x10_0000_0000_0000 ==> (physical | (1u64 | 4u64) | 1u64) & 0x8000_0000_0000_0000u64
            == 0,
{
}

proof fn lemma_small_target(leaf: u64)
    by (bit_vector)
    ensures
        leaf & 0x000f_ffff_ffff_f000u64 < 0x10_0000_0000_0000,
{
}

/// The pages of the plans were added to a space, zeroed.
spec fn plans_filled(
    memory: MemoryView,
    mapped: MemoryView,
    root: u64,
    plans: Seq<PagePlan>,
) -> bool {
    &&& forall|q: u64|
        spaces::is_user_page(q) && unplanned(plans, 0, q) ==> #[trigger] spaces::leaf_of(
            mapped,
            root,
            q,
        ) == spaces::leaf_of(memory, root, q)
    &&& forall|a: int| #[trigger]
        spaces::has_page(memory, root, a) ==> unplanned(plans, 0, spaces::page_of(a))
    &&& forall|a: int|
        spaces::has_page(memory, root, a) ==> #[trigger] spaces::space_byte(mapped, root, a)
            == spaces::space_byte(memory, root, a)
    &&& forall|a: int|
        spaces::is_user_address(a) && !unplanned(plans, 0, spaces::page_of(a))
            ==> #[trigger] spaces::space_byte(mapped, root, a) == 0
}

/// The segments of an image were copied to the pages of the plans.
spec fn segments_in(
    mapped: MemoryView,
    after: MemoryView,
    root: u64,
    image: ElfView,
    plans: Seq<PagePlan>,
    bias: u64,
) -> bool {
    &&& spaces::same_pages(mapped, after, root)
    &&& forall|a: int|
        spaces::has_page(mapped, root, a) ==> #[trigger] spaces::space_byte(after, root, a) == (
        if in_file_part(image, bias, image.headers.len(), a) {
            image_byte(image, bias, image.headers.len(), a)
        } else {
            spaces::space_byte(mapped, root, a)
        })
    &&& forall|a: int| #[trigger]
        in_file_part(image, bias, image.headers.len(), a) ==> planned(plans, a)
}

proof fn lemma_same_unplanned(before: Seq<PagePlan>, after: Seq<PagePlan>, page: u64)
    requires
        same_plans(before, after),
    ensures
        unplanned(before, 0, page) == unplanned(after, 0, page),
{
    if unplanned(after, 0, page) {
        assert forall|i: int| 0 <= i < before.len() implies (#[trigger] before[i]).address
            != page by {
            assert(after[i].address != page);
        }
    }
    if unplanned(before, 0, page) {
        assert forall|i: int| 0 <= i < after.len() implies (#[trigger] after[i]).address
            != page by {
            assert(before[i].address != page);
        }
    }
}

proof fn lemma_others_stay(
    memory: MemoryView,
    mapped: MemoryView,
    after: MemoryView,
    root: u64,
    image: ElfView,
    before: Seq<PagePlan>,
    plans: Seq<PagePlan>,
    bias: u64,
)
    requires
        same_plans(before, plans),
        plans_filled(memory, mapped, root, before),
        segments_in(mapped, after, root, image, plans, bias),
    ensures
        space_kept(memory, after, root),
{
    assert forall|a: int| #[trigger] spaces::has_page(memory, root, a) implies spaces::leaf_of(
        after,
        root,
        spaces::page_of(a),
    ) == spaces::leaf_of(memory, root, spaces::page_of(a)) by {
        let q = spaces::page_of(a);
        assert(spaces::is_user_page(q));
        assert(spaces::leaf_of(mapped, root, q) == spaces::leaf_of(memory, root, q));
    }
    assert forall|a: int| spaces::has_page(memory, root, a) implies #[trigger] spaces::space_byte(
        after,
        root,
        a,
    ) == spaces::space_byte(memory, root, a) by {
        let q = spaces::page_of(a);
        assert(spaces::is_user_page(q));
        assert(spaces::leaf_of(mapped, root, q) == spaces::leaf_of(memory, root, q));
        assert(spaces::has_page(mapped, root, a));
        lemma_same_unplanned(before, plans, q);
        if in_file_part(image, bias, image.headers.len(), a) {
            assert(planned(plans, a));
        }
        assert(spaces::space_byte(mapped, root, a) == spaces::space_byte(memory, root, a));
    }
}

proof fn lemma_plan_holds(
    memory: MemoryView,
    mapped: MemoryView,
    after: MemoryView,
    root: u64,
    image: ElfView,
    before: Seq<PagePlan>,
    plans: Seq<PagePlan>,
    bias: u64,
    h: int,
    at: int,
)
    requires
        same_plans(before, plans),
        plans_filled(memory, mapped, root, before),
        segments_in(mapped, after, root, image, plans, bias),
        plans_sound(before),
        plans_have(after, root, plans, plans.len() as int),
        0 <= h < image.headers.len(),
        4096 <= at < USER_ADDRESS_LIMIT,
        planned_for(before, spaces::page_of(at) as int, image.headers[h]),
    ensures
        holds_image(after, root, image, bias, h, at),
{
    let header = image.headers[h];
    let q = spaces::page_of(at);
    let i = choose|i: int|
        0 <= i < before.len() && (#[trigger] before[i]).address == q as int && (header.writable()
            ==> before[i].writable) && (header.executable() ==> before[i].executable);
    assert(plans[i].address == q);
    assert(spaces::is_user_page(before[i].address));
    assert(!unplanned(before, 0, q));
    let leaf = spaces::leaf_of(after, root, q);
    assert(leaf == leaf_for(plans[i]));
    let physical = plans[i].physical.unwrap();
    lemma_plan_bits(physical);
    lemma_small_target(leaf);
    assert(spaces::leaf_of(mapped, root, q) == leaf);
    assert(spaces::has_page(mapped, root, at));
    assert(spaces::space_byte(mapped, root, at) == 0);
    assert(spaces::space_byte(after, root, at) == (if in_file_part(
        image,
        bias,
        image.headers.len(),
        at,
    ) {
        image_byte(image, bias, image.headers.len(), at)
    } else {
        0
    }));
}

/// Loading an image puts it in a space and leaves what was there.
#[verifier::spinoff_prover]
#[verifier::rlimit(40)]
proof fn lemma_image_mapped(
    memory: MemoryView,
    root: u64,
    image: ElfView,
    start: u64,
    end: u64,
    seed: u64,
    fresh: Set<int>,
)
    requires
        spaces::is_own(memory, root, fresh),
        elf::image_mapped(memory, root, image, start, end, seed).1 is Ok,
    ensures
        ({
            let (after, result) = elf::image_mapped(memory, root, image, start, end, seed);
            let loaded = result->Ok_0;
            &&& spaces::is_own(after, root, fresh)
            &&& spaces::outside_kept(memory, after, fresh)
            &&& space_kept(memory, after, root)
            &&& image_in(after, root, image, loaded.load_bias)
            &&& elf::load_bias(image, start, end, seed) == Ok::<u64, LoadError>(loaded.load_bias)
            &&& loaded.entry == loaded.load_bias + image.entry
            &&& loaded.program_header_count == image.headers.len() as usize
            &&& elf::table_address(image, loaded.load_bias) == Some(loaded.program_headers)
        }),
{
    let (after, result) = elf::image_mapped(memory, root, image, start, end, seed);
    let bias = elf::load_bias(image, start, end, seed)->Ok_0;
    let count = image.headers.len();
    let before = elf::image_planned(image.headers, bias, count)->Ok_0;
    let (mapped, given) = elf::plans_mapped(memory, root, before, 0);
    let plans = given->Ok_0;
    assert(elf::image_planned(image.headers, bias, count) is Ok && given is Ok
        && elf::segments_copied(mapped, image, plans, bias, count).1 is Ok && after
        == elf::segments_copied(mapped, image, plans, bias, count).0) by {
        reveal(elf::image_mapped);
    }
    lemma_image_planned(image.headers, bias, count);
    lemma_plans_mapped(memory, root, before, 0, fresh);
    assert(plans_filled(memory, mapped, root, before));
    lemma_segments_copied(mapped, root, image, plans, bias, count, fresh);
    assert(segments_in(mapped, after, root, image, plans, bias));
    lemma_outside_twice(memory, mapped, after, fresh);
    lemma_others_stay(memory, mapped, after, root, image, before, plans, bias);
    assert(elf::load_bias(image, start, end, seed) == Ok::<u64, LoadError>(
        result->Ok_0.load_bias,
    ) && result->Ok_0.entry == bias + image.entry && result->Ok_0.program_header_count
        == image.headers.len() as usize && elf::table_address(image, bias) == Some(
        result->Ok_0.program_headers,
    )) by {
        reveal(elf::image_mapped);
    }
    assert forall|h: int, at: int|
        0 <= h < count && in_memory(image.headers[h], bias, at) implies #[trigger] holds_image(
        after,
        root,
        image,
        bias,
        h,
        at,
    ) by {
        assert(elf::takes_memory(image.headers[h]));
        assert(planned_for(before, spaces::page_of(at) as int, image.headers[h]));
        lemma_plan_holds(memory, mapped, after, root, image, before, plans, bias, h, at);
    }
}

/// Mapping the pages of a stack leaves the pages that were there.
#[verifier::spinoff_prover]
proof fn lemma_stack_pages(
    memory: MemoryView,
    root: u64,
    bottom: u64,
    pages: int,
    done: int,
    fresh: Set<int>,
)
    requires
        spaces::is_own(memory, root, fresh),
        bottom % 4096 == 0,
        0 <= done <= pages,
        bottom + pages * 4096 <= USER_ADDRESS_LIMIT,
        paging::stack_pages_mapped(memory, root, bottom, pages, done).1 is Ok,
    ensures
        ({
            let after = paging::stack_pages_mapped(memory, root, bottom, pages, done).0;
            &&& spaces::is_own(after, root, fresh)
            &&& spaces::outside_kept(memory, after, fresh)
            &&& space_kept(memory, after, root)
            &&& forall|a: int| #[trigger]
                spaces::has_page(memory, root, a) ==> !(bottom + done * 4096 <= a < bottom + pages
                    * 4096)
        }),
    decreases pages - done,
{
    if done < pages {
        let page = (bottom + done * 4096) as u64;
        lemma_plan_flags();
        spaces::law_new_pages_are_zero(memory, root, page, paging::stack_flags(), fresh);
        let (taken, result) = memory.allocated();
        let frame = result->Ok_0.spec_u64();
        let next = paging::user_mapped(
            taken.zeroed(frame as int),
            root,
            page,
            frame,
            paging::stack_flags(),
        ).0;
        lemma_stack_pages(next, root, bottom, pages, done + 1, fresh);
        let after = paging::stack_pages_mapped(memory, root, bottom, pages, done).0;
        lemma_outside_twice(memory, next, after, fresh);
        assert(space_kept(memory, next, root)) by {
            assert forall|a: int| #[trigger] spaces::has_page(memory, root, a) implies
                spaces::leaf_of(next, root, spaces::page_of(a)) == spaces::leaf_of(
                memory,
                root,
                spaces::page_of(a),
            ) by {
                assert(spaces::is_user_page(spaces::page_of(a)));
            }
        }
        lemma_kept_twice(memory, next, after, root);
        assert forall|a: int| #[trigger] spaces::has_page(memory, root, a) implies !(bottom + done
            * 4096 <= a < bottom + pages * 4096) by {
            assert(spaces::is_user_page(spaces::page_of(a)));
            assert(spaces::page_of(a) != page);
            assert(spaces::leaf_of(next, root, spaces::page_of(a)) == spaces::leaf_of(
                memory,
                root,
                spaces::page_of(a),
            ));
            assert(spaces::has_page(next, root, a));
            assert(page % 4096 == 0);
        }
    }
}

/// Whether a user can read and write an address.
spec fn is_cell(memory: MemoryView, root: u64, at: int) -> bool {
    let leaf = spaces::leaf_of(memory, root, spaces::page_of(at));
    4096 <= at && spaces::has_page(memory, root, at) && leaf & ENTRY_USER != 0 && leaf
        & ENTRY_WRITABLE != 0
}

/// Bytes stand at an address of a space, where a user can read and write them.
spec fn bytes_here(memory: MemoryView, root: u64, at: int, bytes: Seq<u8>) -> bool {
    &&& forall|a: int| at <= a < at + bytes.len() ==> #[trigger] is_cell(memory, root, a)
    &&& forall|a: int|
        at <= a < at + bytes.len() ==> #[trigger] spaces::space_byte(memory, root, a) == bytes[a
            - at]
}

/// The pages of a space are the same, and so are the bytes outside a range.
spec fn range_changed(
    before: MemoryView,
    after: MemoryView,
    root: u64,
    low: int,
    high: int,
) -> bool {
    &&& spaces::same_pages(before, after, root)
    &&& forall|a: int|
        spaces::has_page(before, root, a) && !(low <= a < high) ==> #[trigger] spaces::space_byte(
            after,
            root,
            a,
        ) == spaces::space_byte(before, root, a)
}

proof fn lemma_same_page(before: MemoryView, after: MemoryView, root: u64, at: int)
    requires
        spaces::same_pages(before, after, root),
        spaces::is_user_address(at),
    ensures
        spaces::leaf_of(after, root, spaces::page_of(at)) == spaces::leaf_of(
            before,
            root,
            spaces::page_of(at),
        ),
        spaces::has_page(after, root, at) == spaces::has_page(before, root, at),
        is_cell(after, root, at) == is_cell(before, root, at),
{
    assert(spaces::is_user_page(spaces::page_of(at)));
}

proof fn lemma_changed_twice(
    before: MemoryView,
    middle: MemoryView,
    after: MemoryView,
    root: u64,
    low: int,
    between: int,
    high: int,
)
    requires
        low <= between <= high,
        range_changed(before, middle, root, between, high),
        range_changed(middle, after, root, low, between),
    ensures
        range_changed(before, after, root, low, high),
{
    assert forall|q: u64| spaces::is_user_page(q) implies #[trigger] spaces::leaf_of(
        after,
        root,
        q,
    ) == spaces::leaf_of(before, root, q) by {
        assert(spaces::leaf_of(middle, root, q) == spaces::leaf_of(before, root, q));
    }
    assert forall|a: int|
        spaces::has_page(before, root, a) && !(low <= a < high) implies #[trigger]
        spaces::space_byte(after, root, a) == spaces::space_byte(before, root, a) by {
        lemma_same_page(before, middle, root, a);
        assert(spaces::space_byte(middle, root, a) == spaces::space_byte(before, root, a));
    }
}

proof fn lemma_bytes_stay(
    before: MemoryView,
    after: MemoryView,
    root: u64,
    low: int,
    high: int,
    at: int,
    bytes: Seq<u8>,
)
    requires
        bytes_here(before, root, at, bytes),
        range_changed(before, after, root, low, high),
        high <= at || at + bytes.len() <= low,
    ensures
        bytes_here(after, root, at, bytes),
{
    assert forall|a: int| at <= a < at + bytes.len() implies #[trigger] is_cell(
        after,
        root,
        a,
    ) by {
        assert(is_cell(before, root, a));
        lemma_same_page(before, after, root, a);
    }
    assert forall|a: int| at <= a < at + bytes.len() implies #[trigger] spaces::space_byte(
        after,
        root,
        a,
    ) == bytes[a - at] by {
        assert(is_cell(before, root, a));
        assert(spaces::space_byte(before, root, a) == bytes[a - at]);
    }
}

/// Writing for a user puts the bytes there and changes no others.
proof fn lemma_bytes_put(
    memory: MemoryView,
    root: u64,
    at: u64,
    bytes: Seq<u8>,
    fresh: Set<int>,
)
    requires
        spaces::is_own(memory, root, fresh),
        bytes.len() <= isize::MAX,
        paging::copied_to_user(memory, root, at, bytes).1 is Ok,
    ensures
        ({
            let after = paging::copied_to_user(memory, root, at, bytes).0;
            &&& spaces::is_own(after, root, fresh)
            &&& spaces::outside_kept(memory, after, fresh)
            &&& range_changed(memory, after, root, at as int, at + bytes.len())
            &&& bytes_here(after, root, at as int, bytes)
        }),
{
    spaces::law_user_writes_change_what_they_name(memory, root, at, bytes, fresh);
    let after = paging::copied_to_user(memory, root, at, bytes).0;
    assert forall|a: int| at <= a < at + bytes.len() implies #[trigger] is_cell(
        after,
        root,
        a,
    ) by {
        assert(spaces::can_store(memory, root, a));
        spaces::law_own_spaces_are_seen(memory, root, fresh, a, true);
        lemma_same_page(memory, after, root, a);
    }
    assert forall|a: int| at <= a < at + bytes.len() implies #[trigger] spaces::space_byte(
        after,
        root,
        a,
    ) == bytes[a - at] by {
        assert(spaces::can_store(memory, root, a));
    }
}

/// A text and a zero stand in a range of a space.
spec fn text_in(
    memory: MemoryView,
    root: u64,
    at: u64,
    text: Seq<u8>,
    low: int,
    high: int,
) -> bool {
    low <= at && at + text.len() + 1 <= high && bytes_here(memory, root, at as int, text.push(0))
}

proof fn lemma_string_pushed(
    memory: MemoryView,
    root: u64,
    bottom: u64,
    top: u64,
    text: Seq<u8>,
    fresh: Set<int>,
)
    requires
        spaces::is_own(memory, root, fresh),
        text.len() < 256,
        elf::string_pushed(memory, root, bottom, top, text).1 is Ok,
    ensures
        ({
            let (after, result) = elf::string_pushed(memory, root, bottom, top, text);
            let place = result->Ok_0;
            &&& spaces::is_own(after, root, fresh)
            &&& spaces::outside_kept(memory, after, fresh)
            &&& bottom <= place
            &&& place + text.len() + 1 == top
            &&& range_changed(memory, after, root, place as int, top as int)
            &&& text_in(after, root, place, text, place as int, top as int)
        }),
{
    let (after, result) = elf::string_pushed(memory, root, bottom, top, text);
    let place = result->Ok_0;
    let middle = paging::copied_to_user(memory, root, place, text).0;
    let ending = (place + text.len()) as u64;
    lemma_bytes_put(memory, root, place, text, fresh);
    lemma_bytes_put(middle, root, ending, seq![0u8], fresh);
    lemma_outside_twice(memory, middle, after, fresh);
    lemma_bytes_stay(middle, after, root, ending as int, top as int, place as int, text);
    let whole = text.push(0);
    assert forall|a: int| place <= a < place + whole.len() implies #[trigger] is_cell(
        after,
        root,
        a,
    ) by {}
    assert forall|q: u64| spaces::is_user_page(q) implies #[trigger] spaces::leaf_of(
        after,
        root,
        q,
    ) == spaces::leaf_of(memory, root, q) by {
        assert(spaces::leaf_of(middle, root, q) == spaces::leaf_of(memory, root, q));
    }
    assert forall|a: int|
        spaces::has_page(memory, root, a) && !(place <= a < top) implies #[trigger]
        spaces::space_byte(after, root, a) == spaces::space_byte(memory, root, a) by {
        lemma_same_page(memory, middle, root, a);
        assert(spaces::space_byte(middle, root, a) == spaces::space_byte(memory, root, a));
    }
}

/// Pushing texts puts each where the result says.
proof fn lemma_strings_pushed(
    memory: MemoryView,
    root: u64,
    bottom: u64,
    top: u64,
    texts: Seq<Seq<u8>>,
    from: int,
    fresh: Set<int>,
)
    requires
        spaces::is_own(memory, root, fresh),
        0 <= from <= texts.len(),
        bottom <= top,
        forall|i: int| 0 <= i < texts.len() ==> (#[trigger] texts[i]).len() < 256,
        elf::strings_pushed(memory, root, bottom, top, texts, from).1 is Ok,
    ensures
        ({
            let (after, result) = elf::strings_pushed(memory, root, bottom, top, texts, from);
            let (above, places) = result->Ok_0;
            &&& spaces::is_own(after, root, fresh)
            &&& spaces::outside_kept(memory, after, fresh)
            &&& bottom <= above <= top
            &&& range_changed(memory, after, root, above as int, top as int)
            &&& places.len() == texts.len() - from
            &&& forall|i: int|
                0 <= i < places.len() ==> text_in(
                    after,
                    root,
                    #[trigger] places[i],
                    texts[from + i],
                    above as int,
                    top as int,
                )
        }),
    decreases texts.len() - from,
{
    if from < texts.len() {
        lemma_strings_pushed(memory, root, bottom, top, texts, from + 1, fresh);
        let (middle, first) = elf::strings_pushed(memory, root, bottom, top, texts, from + 1);
        let (above, places) = first->Ok_0;
        lemma_string_pushed(middle, root, bottom, above, texts[from], fresh);
        let (after, result) = elf::string_pushed(middle, root, bottom, above, texts[from]);
        let place = result->Ok_0;
        lemma_outside_twice(memory, middle, after, fresh);
        lemma_changed_twice(
            memory,
            middle,
            after,
            root,
            place as int,
            above as int,
            top as int,
        );
        let all = seq![place] + places;
        assert forall|i: int| 0 <= i < all.len() implies text_in(
            after,
            root,
            #[trigger] all[i],
            texts[from + i],
            place as int,
            top as int,
        ) by {
            if i > 0 {
                assert(all[i] == places[i - 1]);
                assert(text_in(
                    middle,
                    root,
                    places[i - 1],
                    texts[from + 1 + (i - 1)],
                    above as int,
                    top as int,
                ));
                lemma_bytes_stay(
                    middle,
                    after,
                    root,
                    place as int,
                    above as int,
                    places[i - 1] as int,
                    texts[from + i].push(0),
                );
            }
        }
    }
}

proof fn lemma_numbers(values: Seq<u64>)
    ensures
        elf::numbers_bytes(values).len() == 8 * values.len(),
    decreases values.len(),
{
    if values.len() > 0 {
        lemma_numbers(values.drop_last());
    }
}

proof fn lemma_number_byte(values: Seq<u64>, i: int, j: int)
    requires
        0 <= i < values.len(),
        0 <= j < 8,
    ensures
        elf::numbers_bytes(values).len() == 8 * values.len(),
        elf::numbers_bytes(values)[8 * i + j] == physical::byte_of(values[i], j),
    decreases values.len(),
{
    lemma_numbers(values);
    lemma_numbers(values.drop_last());
    if i < values.len() - 1 {
        lemma_number_byte(values.drop_last(), i, j);
    }
}

/// Where the bytes of numbers stand, the bytes of each stand in its place.
proof fn lemma_word_here(memory: MemoryView, root: u64, at: int, values: Seq<u64>, i: int)
    requires
        bytes_here(memory, root, at, elf::numbers_bytes(values)),
        0 <= i < values.len(),
    ensures
        bytes_here(memory, root, at + 8 * i, elf::number_bytes(values[i])),
{
    lemma_numbers(values);
    assert forall|a: int| at + 8 * i <= a < at + 8 * i + 8 implies #[trigger] spaces::space_byte(
        memory,
        root,
        a,
    ) == elf::number_bytes(values[i])[a - (at + 8 * i)] by {
        lemma_number_byte(values, i, a - (at + 8 * i));
        assert(spaces::space_byte(memory, root, a) == elf::numbers_bytes(values)[a - at]);
    }
}

/// The places of texts on a stack, each in a range.
spec fn places_hold(
    memory: MemoryView,
    root: u64,
    places: Seq<u64>,
    texts: Seq<Seq<u8>>,
    low: int,
    high: int,
) -> bool {
    &&& places.len() == texts.len()
    &&& forall|i: int|
        0 <= i < places.len() ==> text_in(memory, root, #[trigger] places[i], texts[i], low, high)
}

proof fn lemma_places_stay(
    before: MemoryView,
    after: MemoryView,
    root: u64,
    low: int,
    high: int,
    places: Seq<u64>,
    texts: Seq<Seq<u8>>,
    first: int,
    last: int,
)
    requires
        places_hold(before, root, places, texts, first, last),
        range_changed(before, after, root, low, high),
        high <= first,
    ensures
        places_hold(after, root, places, texts, first, last),
{
    assert forall|i: int| 0 <= i < places.len() implies text_in(
        after,
        root,
        #[trigger] places[i],
        texts[i],
        first,
        last,
    ) by {
        assert(text_in(before, root, places[i], texts[i], first, last));
        lemma_bytes_stay(before, after, root, low, high, places[i] as int, texts[i].push(0));
    }
}

/// The first stack of a program, with its parts where the words at its end say.
spec fn stack_holds(
    memory: MemoryView,
    root: u64,
    end: int,
    arguments: Seq<Seq<u8>>,
    environment: Seq<Seq<u8>>,
    argument_places: Seq<u64>,
    environment_places: Seq<u64>,
    random: u64,
    told: Seq<u64>,
    seed: u64,
) -> bool {
    &&& argument_places.len() == arguments.len()
    &&& environment_places.len() == environment.len()
    &&& forall|i: int|
        0 <= i < argument_places.len() ==> bytes_here(
            memory,
            root,
            #[trigger] argument_places[i] as int,
            arguments[i].push(0),
        )
    &&& forall|i: int|
        0 <= i < environment_places.len() ==> bytes_here(
            memory,
            root,
            #[trigger] environment_places[i] as int,
            environment[i].push(0),
        )
    &&& bytes_here(memory, root, random as int, elf::random_bytes(seed))
    &&& bytes_here(
        memory,
        root,
        end,
        elf::numbers_bytes(elf::stack_words(argument_places, environment_places, told)),
    )
}

/// The parts of a stack that were written one below the other all stand.
#[verifier::spinoff_prover]
proof fn lemma_stack_parts(
    memory: MemoryView,
    first: MemoryView,
    second: MemoryView,
    third: MemoryView,
    after: MemoryView,
    root: u64,
    bottom: int,
    end: int,
    random: u64,
    below: int,
    above: int,
    top: int,
    arguments: Seq<Seq<u8>>,
    environment: Seq<Seq<u8>>,
    argument_places: Seq<u64>,
    environment_places: Seq<u64>,
    told: Seq<u64>,
    seed: u64,
)
    requires
        bottom <= end,
        random <= below <= above <= top,
        end + elf::numbers_bytes(
            elf::stack_words(argument_places, environment_places, told),
        ).len() <= random,
        random + elf::random_bytes(seed).len() == below,
        range_changed(memory, first, root, above, top),
        range_changed(first, second, root, below, above),
        range_changed(second, third, root, random as int, below),
        range_changed(
            third,
            after,
            root,
            end,
            end + elf::numbers_bytes(
                elf::stack_words(argument_places, environment_places, told),
            ).len(),
        ),
        places_hold(first, root, environment_places, environment, above, top),
        places_hold(second, root, argument_places, arguments, below, above),
        bytes_here(third, root, random as int, elf::random_bytes(seed)),
        bytes_here(
            after,
            root,
            end,
            elf::numbers_bytes(elf::stack_words(argument_places, environment_places, told)),
        ),
    ensures
        range_changed(memory, after, root, bottom, top),
        stack_holds(
            after,
            root,
            end,
            arguments,
            environment,
            argument_places,
            environment_places,
            random,
            told,
            seed,
        ),
{
    let close = end + elf::numbers_bytes(
        elf::stack_words(argument_places, environment_places, told),
    ).len();
    let noise = elf::random_bytes(seed);
    lemma_places_stay(
        first,
        second,
        root,
        below,
        above,
        environment_places,
        environment,
        above,
        top,
    );
    lemma_places_stay(
        second,
        third,
        root,
        random as int,
        below,
        environment_places,
        environment,
        above,
        top,
    );
    lemma_places_stay(
        second,
        third,
        root,
        random as int,
        below,
        argument_places,
        arguments,
        below,
        above,
    );
    lemma_places_stay(
        third,
        after,
        root,
        end,
        close,
        environment_places,
        environment,
        above,
        top,
    );
    lemma_places_stay(
        third,
        after,
        root,
        end,
        close,
        argument_places,
        arguments,
        below,
        above,
    );
    lemma_bytes_stay(third, after, root, end, close, random as int, noise);
    assert(stack_holds(
        after,
        root,
        end,
        arguments,
        environment,
        argument_places,
        environment_places,
        random,
        told,
        seed,
    )) by {
        assert forall|i: int| 0 <= i < argument_places.len() implies bytes_here(
            after,
            root,
            #[trigger] argument_places[i] as int,
            arguments[i].push(0),
        ) by {
            assert(text_in(
                after,
                root,
                argument_places[i],
                arguments[i],
                below,
                above,
            ));
        }
        assert forall|i: int| 0 <= i < environment_places.len() implies bytes_here(
            after,
            root,
            #[trigger] environment_places[i] as int,
            environment[i].push(0),
        ) by {
            assert(text_in(
                after,
                root,
                environment_places[i],
                environment[i],
                above,
                top,
            ));
        }
    }
    lemma_changed_twice(memory, first, second, root, below, above, top);
    lemma_changed_twice(memory, second, third, root, random as int, below, top);
    lemma_changed_more(third, after, root, end, close, random as int);
    lemma_changed_twice(memory, third, after, root, end, random as int, top);
    lemma_changed_below(memory, after, root, end, top, bottom);
}

/// The states between the steps of building a stack.
spec fn stack_steps(
    memory: MemoryView,
    first: MemoryView,
    second: MemoryView,
    third: MemoryView,
    after: MemoryView,
    root: u64,
    bottom: u64,
    end: u64,
    random: u64,
    below: u64,
    above: u64,
    top: u64,
    arguments: Seq<Seq<u8>>,
    environment: Seq<Seq<u8>>,
    argument_places: Seq<u64>,
    environment_places: Seq<u64>,
    words: Seq<u64>,
    seed: u64,
) -> bool {
    let (expected_first, pushed) = elf::strings_pushed(memory, root, bottom, top, environment, 0);
    let (expected_second, more) = elf::strings_pushed(first, root, bottom, above, arguments, 0);
    let room = random - words.len() * 8;
    &&& pushed is Ok
    &&& first == expected_first
    &&& above == pushed->Ok_0.0
    &&& environment_places == pushed->Ok_0.1
    &&& more is Ok
    &&& second == expected_second
    &&& below == more->Ok_0.0
    &&& argument_places == more->Ok_0.1
    &&& below >= 16
    &&& random == (below - 16) as u64
    &&& paging::copied_to_user(second, root, random, elf::random_bytes(seed)).0 == third
    &&& paging::copied_to_user(second, root, random, elf::random_bytes(seed)).1 is Ok
    &&& room >= 0
    &&& end == (room - room % 16) as u64
    &&& bottom <= end
    &&& paging::copied_to_user(third, root, end, elf::numbers_bytes(words)).0 == after
    &&& paging::copied_to_user(third, root, end, elf::numbers_bytes(words)).1 is Ok
}

#[verifier::spinoff_prover]
#[verifier::rlimit(40)]
proof fn lemma_stack_steps(
    memory: MemoryView,
    root: u64,
    bottom: u64,
    top: u64,
    arguments: Seq<Seq<u8>>,
    environment: Seq<Seq<u8>>,
    main: LoadedElf,
    interpreter_bias: u64,
    vdso_base: u64,
    seed: u64,
)
    requires
        elf::stack_built(
            memory,
            root,
            bottom,
            top,
            arguments,
            environment,
            main,
            interpreter_bias,
            vdso_base,
            seed,
        ).1 is Ok,
    ensures
        ({
            let (after, result) = elf::stack_built(
                memory,
                root,
                bottom,
                top,
                arguments,
                environment,
                main,
                interpreter_bias,
                vdso_base,
                seed,
            );
            let (first, pushed) = elf::strings_pushed(memory, root, bottom, top, environment, 0);
            let (above, environment_places) = pushed->Ok_0;
            let (second, more) = elf::strings_pushed(first, root, bottom, above, arguments, 0);
            let (below, argument_places) = more->Ok_0;
            let random = (below - 16) as u64;
            let third = paging::copied_to_user(second, root, random, elf::random_bytes(seed)).0;
            let told = elf::auxiliary(
                main,
                interpreter_bias,
                vdso_base,
                random,
                argument_places[0],
            );
            stack_steps(
                memory,
                first,
                second,
                third,
                after,
                root,
                bottom,
                result->Ok_0,
                random,
                below,
                above,
                top,
                arguments,
                environment,
                argument_places,
                environment_places,
                elf::stack_words(argument_places, environment_places, told),
                seed,
            )
        }),
{
    reveal(elf::stack_built);
}

proof fn lemma_room(random: u64, count: nat, end: u64)
    requires
        random - count * 8 >= 0,
        end == ((random - count * 8) - (random - count * 8) % 16) as u64,
    ensures
        end + 8 * count <= random,
        end % 16 == 0,
{
}

#[verifier::spinoff_prover]
#[verifier::rlimit(60)]
proof fn lemma_steps_hold(
    memory: MemoryView,
    first: MemoryView,
    second: MemoryView,
    third: MemoryView,
    after: MemoryView,
    root: u64,
    bottom: u64,
    end: u64,
    random: u64,
    below: u64,
    above: u64,
    top: u64,
    arguments: Seq<Seq<u8>>,
    environment: Seq<Seq<u8>>,
    argument_places: Seq<u64>,
    environment_places: Seq<u64>,
    told: Seq<u64>,
    seed: u64,
    fresh: Set<int>,
)
    requires
        spaces::is_own(memory, root, fresh),
        bottom <= top,
        elf::arguments_ok(arguments, environment),
        told.len() == 30,
        stack_steps(
            memory,
            first,
            second,
            third,
            after,
            root,
            bottom,
            end,
            random,
            below,
            above,
            top,
            arguments,
            environment,
            argument_places,
            environment_places,
            elf::stack_words(argument_places, environment_places, told),
            seed,
        ),
    ensures
        spaces::is_own(after, root, fresh),
        spaces::outside_kept(memory, after, fresh),
        bottom <= end <= top,
        end % 16 == 0,
        range_changed(memory, after, root, bottom as int, top as int),
        stack_holds(
            after,
            root,
            end as int,
            arguments,
            environment,
            argument_places,
            environment_places,
            random,
            told,
            seed,
        ),
{
    let noise = elf::random_bytes(seed);
    let words = elf::stack_words(argument_places, environment_places, told);
    let written = elf::numbers_bytes(words);
    lemma_room(random, words.len(), end);
    let pushed = elf::strings_pushed(memory, root, bottom, top, environment, 0);
    let more = elf::strings_pushed(first, root, bottom, above, arguments, 0);
    assert(pushed == (
        first,
        Ok::<(u64, Seq<u64>), LoadError>((above, environment_places)),
    ));
    assert(more == (second, Ok::<(u64, Seq<u64>), LoadError>((below, argument_places))));
    assert forall|i: int| 0 <= i < environment.len() implies (#[trigger] environment[i]).len()
        < 256 by {
        assert(elf::text_ok(environment[i]));
    }
    assert forall|i: int| 0 <= i < arguments.len() implies (#[trigger] arguments[i]).len()
        < 256 by {
        assert(elf::text_ok(arguments[i]));
    }
    lemma_strings_pushed(memory, root, bottom, top, environment, 0, fresh);
    assert(places_hold(
        first,
        root,
        environment_places,
        environment,
        above as int,
        top as int,
    ));
    lemma_strings_pushed(first, root, bottom, above, arguments, 0, fresh);
    assert(places_hold(
        second,
        root,
        argument_places,
        arguments,
        below as int,
        above as int,
    ));
    lemma_bytes_put(second, root, random, noise, fresh);
    lemma_numbers(words);
    lemma_bytes_put(third, root, end, written, fresh);
    lemma_outside_twice(memory, first, second, fresh);
    lemma_outside_twice(memory, second, third, fresh);
    lemma_outside_twice(memory, third, after, fresh);
    lemma_stack_parts(
        memory,
        first,
        second,
        third,
        after,
        root,
        bottom as int,
        end as int,
        random,
        below as int,
        above as int,
        top as int,
        arguments,
        environment,
        argument_places,
        environment_places,
        told,
        seed,
    );
}

/// Building a stack puts its parts where the words at its end say.
#[verifier::spinoff_prover]
#[verifier::rlimit(40)]
proof fn lemma_stack_built(
    memory: MemoryView,
    root: u64,
    bottom: u64,
    top: u64,
    arguments: Seq<Seq<u8>>,
    environment: Seq<Seq<u8>>,
    main: LoadedElf,
    interpreter_bias: u64,
    vdso_base: u64,
    seed: u64,
    fresh: Set<int>,
)
    requires
        spaces::is_own(memory, root, fresh),
        bottom <= top,
        elf::arguments_ok(arguments, environment),
        elf::stack_built(
            memory,
            root,
            bottom,
            top,
            arguments,
            environment,
            main,
            interpreter_bias,
            vdso_base,
            seed,
        ).1 is Ok,
    ensures
        ({
            let (after, result) = elf::stack_built(
                memory,
                root,
                bottom,
                top,
                arguments,
                environment,
                main,
                interpreter_bias,
                vdso_base,
                seed,
            );
            let end = result->Ok_0;
            &&& spaces::is_own(after, root, fresh)
            &&& spaces::outside_kept(memory, after, fresh)
            &&& bottom <= end <= top
            &&& end % 16 == 0
            &&& range_changed(memory, after, root, bottom as int, top as int)
            &&& exists|argument_places: Seq<u64>, environment_places: Seq<u64>, random: u64|
                #[trigger] stack_holds(
                    after,
                    root,
                    end as int,
                    arguments,
                    environment,
                    argument_places,
                    environment_places,
                    random,
                    elf::auxiliary(
                        main,
                        interpreter_bias,
                        vdso_base,
                        random,
                        argument_places[0],
                    ),
                    seed,
                )
        }),
{
    let (after, result) = elf::stack_built(
        memory,
        root,
        bottom,
        top,
        arguments,
        environment,
        main,
        interpreter_bias,
        vdso_base,
        seed,
    );
    lemma_stack_steps(
        memory,
        root,
        bottom,
        top,
        arguments,
        environment,
        main,
        interpreter_bias,
        vdso_base,
        seed,
    );
    let (first, pushed) = elf::strings_pushed(memory, root, bottom, top, environment, 0);
    let (above, environment_places) = pushed->Ok_0;
    let (second, more) = elf::strings_pushed(first, root, bottom, above, arguments, 0);
    let (below, argument_places) = more->Ok_0;
    let random = (below - 16) as u64;
    let third = paging::copied_to_user(second, root, random, elf::random_bytes(seed)).0;
    let told = elf::auxiliary(main, interpreter_bias, vdso_base, random, argument_places[0]);
    lemma_steps_hold(
        memory,
        first,
        second,
        third,
        after,
        root,
        bottom,
        result->Ok_0,
        random,
        below,
        above,
        top,
        arguments,
        environment,
        argument_places,
        environment_places,
        told,
        seed,
        fresh,
    );
}

proof fn lemma_changed_more(
    before: MemoryView,
    after: MemoryView,
    root: u64,
    low: int,
    high: int,
    higher: int,
)
    requires
        range_changed(before, after, root, low, high),
        high <= higher,
    ensures
        range_changed(before, after, root, low, higher),
{
}

proof fn lemma_changed_below(
    before: MemoryView,
    after: MemoryView,
    root: u64,
    low: int,
    high: int,
    lower: int,
)
    requires
        range_changed(before, after, root, low, high),
        lower <= low,
    ensures
        range_changed(before, after, root, lower, high),
{
}

proof fn lemma_offset(value: u64)
    by (bit_vector)
    ensures
        value & 0x7f <= 0x7f,
{
}

/// The stack of a program is where no image was.
proof fn lemma_stack_apart(
    before: MemoryView,
    mapped: MemoryView,
    after: MemoryView,
    root: u64,
    low: int,
    high: int,
)
    requires
        space_kept(before, mapped, root),
        range_changed(mapped, after, root, low, high),
        forall|a: int| #[trigger] spaces::has_page(before, root, a) ==> !(low <= a < high),
    ensures
        space_kept(before, after, root),
{
    assert forall|a: int| #[trigger] spaces::has_page(before, root, a) implies spaces::leaf_of(
        after,
        root,
        spaces::page_of(a),
    ) == spaces::leaf_of(before, root, spaces::page_of(a)) by {
        lemma_same_page(mapped, after, root, a);
    }
    assert forall|a: int| spaces::has_page(before, root, a) implies #[trigger] spaces::space_byte(
        after,
        root,
        a,
    ) == spaces::space_byte(before, root, a) by {
        assert(spaces::has_page(mapped, root, a));
        assert(spaces::space_byte(mapped, root, a) == spaces::space_byte(before, root, a));
    }
}

/// The images of a program are in its space.
spec fn images_in(
    memory: MemoryView,
    root: u64,
    main: ElfView,
    source: Option<(Seq<u8>, Seq<u8>)>,
    vdso: ElfView,
    process: LoadedProcess,
) -> bool {
    &&& image_in(memory, root, main, process.load_bias)
    &&& image_in(memory, root, vdso, process.vdso_base)
    &&& main.interpreter is Some ==> image_in(
        memory,
        root,
        contents(source.unwrap().1),
        process.interpreter_bias,
    )
}

/// What a file says.
spec fn contents(image: Seq<u8>) -> ElfView {
    crate::linux::elf::elf_contents(image)
}

/// The states between the steps of filling a space.
spec fn filling_steps(
    memory: MemoryView,
    first: MemoryView,
    second: MemoryView,
    third: MemoryView,
    fourth: MemoryView,
    after: MemoryView,
    root: u64,
    main: ElfView,
    source: Option<(Seq<u8>, Seq<u8>)>,
    vdso: ElfView,
    arguments: Seq<Seq<u8>>,
    environment: Seq<Seq<u8>>,
    seed: u64,
    program: LoadedElf,
    bottom: u64,
    top: u64,
    process: LoadedProcess,
) -> bool {
    let started = elf::image_mapped(
        memory,
        root,
        main,
        elf::MAIN_ASLR_START,
        elf::MAIN_ASLR_END,
        seed,
    );
    let linked = elf::interpreter_mapped(first, root, main, program.entry, source, seed);
    let shared = elf::image_mapped(
        second,
        root,
        vdso,
        elf::VDSO_ASLR_START,
        elf::VDSO_ASLR_END,
        elf::rotated(seed, 47),
    );
    let stacked = paging::stack_mapped(
        third,
        root,
        elf::USER_STACK_TOP,
        elf::USER_STACK_PAGES,
    );
    let built = elf::stack_built(
        fourth,
        root,
        bottom,
        top,
        arguments,
        environment,
        program,
        process.interpreter_bias,
        process.vdso_base,
        seed,
    );
    &&& started.0 == first
    &&& started.1 is Ok
    &&& started.1->Ok_0 == program
    &&& linked.0 == second
    &&& linked.1 is Ok
    &&& linked.1->Ok_0.0 == process.entry
    &&& linked.1->Ok_0.1 == process.interpreter_bias
    &&& shared.0 == third
    &&& shared.1 is Ok
    &&& shared.1->Ok_0.load_bias == process.vdso_base
    &&& stacked.0 == fourth
    &&& stacked.1 is Ok
    &&& bottom == stacked.1->Ok_0.bottom
    &&& top == (stacked.1->Ok_0.top - (elf::mixed(seed) & 0x7f) * 16) as u64
    &&& built.0 == after
    &&& built.1 is Ok
    &&& process.stack_pointer == built.1->Ok_0
    &&& process.load_bias == program.load_bias
    &&& process.cr3 == root
}

#[verifier::spinoff_prover]
#[verifier::rlimit(40)]
proof fn lemma_filling_steps(
    memory: MemoryView,
    root: u64,
    main: ElfView,
    source: Option<(Seq<u8>, Seq<u8>)>,
    vdso: ElfView,
    arguments: Seq<Seq<u8>>,
    environment: Seq<Seq<u8>>,
    seed: u64,
)
    requires
        elf::process_filled(memory, root, main, source, vdso, arguments, environment, seed).1 is Ok,
    ensures
        ({
            let (after, result) = elf::process_filled(
                memory,
                root,
                main,
                source,
                vdso,
                arguments,
                environment,
                seed,
            );
            let (first, started) = elf::image_mapped(
                memory,
                root,
                main,
                elf::MAIN_ASLR_START,
                elf::MAIN_ASLR_END,
                seed,
            );
            let program = started->Ok_0;
            let second = elf::interpreter_mapped(
                first,
                root,
                main,
                program.entry,
                source,
                seed,
            ).0;
            let third = elf::image_mapped(
                second,
                root,
                vdso,
                elf::VDSO_ASLR_START,
                elf::VDSO_ASLR_END,
                elf::rotated(seed, 47),
            ).0;
            let (fourth, stacked) = paging::stack_mapped(
                third,
                root,
                elf::USER_STACK_TOP,
                elf::USER_STACK_PAGES,
            );
            filling_steps(
                memory,
                first,
                second,
                third,
                fourth,
                after,
                root,
                main,
                source,
                vdso,
                arguments,
                environment,
                seed,
                program,
                stacked->Ok_0.bottom,
                (stacked->Ok_0.top - (elf::mixed(seed) & 0x7f) * 16) as u64,
                result->Ok_0,
            )
        }),
{
    reveal(elf::process_filled);
}

/// What a space that was filled holds.
spec fn space_filled(
    memory: MemoryView,
    after: MemoryView,
    root: u64,
    main: ElfView,
    source: Option<(Seq<u8>, Seq<u8>)>,
    vdso: ElfView,
    arguments: Seq<Seq<u8>>,
    environment: Seq<Seq<u8>>,
    seed: u64,
    program: LoadedElf,
    process: LoadedProcess,
    argument_places: Seq<u64>,
    environment_places: Seq<u64>,
    random: u64,
    fresh: Set<int>,
) -> bool {
    &&& spaces::is_own(after, root, fresh)
    &&& spaces::outside_kept(memory, after, fresh)
    &&& images_in(after, root, main, source, vdso, process)
    &&& process.cr3 == root
    &&& process.stack_pointer % 16 == 0
    &&& program.entry == process.load_bias + main.entry
    &&& program.program_header_count == main.headers.len() as usize
    &&& elf::table_address(main, process.load_bias) == Some(program.program_headers)
    &&& main.interpreter is None ==> process.entry == program.entry && process.interpreter_bias
        == 0
    &&& main.interpreter is Some ==> source is Some && source.unwrap().0
        == main.interpreter.unwrap() && process.entry == process.interpreter_bias + contents(
        source.unwrap().1,
    ).entry
    &&& stack_holds(
        after,
        root,
        process.stack_pointer as int,
        arguments,
        environment,
        argument_places,
        environment_places,
        random,
        elf::auxiliary(
            program,
            process.interpreter_bias,
            process.vdso_base,
            random,
            argument_places[0],
        ),
        seed,
    )
}

/// Loading the interpreter leaves what is in the space.
proof fn lemma_interpreter_mapped(
    memory: MemoryView,
    root: u64,
    main: ElfView,
    entry: u64,
    source: Option<(Seq<u8>, Seq<u8>)>,
    seed: u64,
    fresh: Set<int>,
)
    requires
        spaces::is_own(memory, root, fresh),
        elf::interpreter_mapped(memory, root, main, entry, source, seed).1 is Ok,
    ensures
        ({
            let (after, result) = elf::interpreter_mapped(memory, root, main, entry, source, seed);
            let (start, bias) = result->Ok_0;
            &&& spaces::is_own(after, root, fresh)
            &&& spaces::outside_kept(memory, after, fresh)
            &&& space_kept(memory, after, root)
            &&& main.interpreter is None ==> start == entry && bias == 0
            &&& main.interpreter is Some ==> source is Some && source.unwrap().0
                == main.interpreter.unwrap() && start == bias + contents(source.unwrap().1).entry
                && image_in(after, root, contents(source.unwrap().1), bias)
        }),
{
    if main.interpreter is Some {
        lemma_image_mapped(
            memory,
            root,
            contents(source.unwrap().1),
            elf::INTERP_ASLR_START,
            elf::INTERP_ASLR_END,
            elf::rotated(seed, 29),
            fresh,
        );
    }
}

/// Filling a space puts the images and the stack in it.
#[verifier::spinoff_prover]
#[verifier::rlimit(40)]
proof fn lemma_process_filled(
    memory: MemoryView,
    first: MemoryView,
    second: MemoryView,
    third: MemoryView,
    fourth: MemoryView,
    after: MemoryView,
    root: u64,
    main: ElfView,
    source: Option<(Seq<u8>, Seq<u8>)>,
    vdso: ElfView,
    arguments: Seq<Seq<u8>>,
    environment: Seq<Seq<u8>>,
    seed: u64,
    program: LoadedElf,
    bottom: u64,
    top: u64,
    process: LoadedProcess,
    fresh: Set<int>,
)
    requires
        spaces::is_own(memory, root, fresh),
        elf::arguments_ok(arguments, environment),
        filling_steps(
            memory,
            first,
            second,
            third,
            fourth,
            after,
            root,
            main,
            source,
            vdso,
            arguments,
            environment,
            seed,
            program,
            bottom,
            top,
            process,
        ),
    ensures
        exists|argument_places: Seq<u64>, environment_places: Seq<u64>, random: u64| #[trigger]
            space_filled(
                memory,
                after,
                root,
                main,
                source,
                vdso,
                arguments,
                environment,
                seed,
                program,
                process,
                argument_places,
                environment_places,
                random,
                fresh,
            ),
{
    lemma_image_mapped(
        memory,
        root,
        main,
        elf::MAIN_ASLR_START,
        elf::MAIN_ASLR_END,
        seed,
        fresh,
    );
    lemma_interpreter_mapped(first, root, main, program.entry, source, seed, fresh);
    lemma_outside_twice(memory, first, second, fresh);
    lemma_image_mapped(
        second,
        root,
        vdso,
        elf::VDSO_ASLR_START,
        elf::VDSO_ASLR_END,
        elf::rotated(seed, 47),
        fresh,
    );
    lemma_outside_twice(memory, second, third, fresh);
    let stack_bottom = (elf::USER_STACK_TOP - elf::USER_STACK_PAGES * 4096) as u64;
    lemma_stack_pages(
        third,
        root,
        stack_bottom,
        elf::USER_STACK_PAGES as int,
        0,
        fresh,
    );
    lemma_outside_twice(memory, third, fourth, fresh);
    lemma_offset(elf::mixed(seed));
    lemma_stack_built(
        fourth,
        root,
        bottom,
        top,
        arguments,
        environment,
        program,
        process.interpreter_bias,
        process.vdso_base,
        seed,
        fresh,
    );
    lemma_outside_twice(memory, fourth, after, fresh);
    lemma_stack_apart(third, fourth, after, root, bottom as int, top as int);
    lemma_kept_twice(second, third, after, root);
    lemma_kept_twice(first, second, after, root);
    lemma_image_stays(first, after, root, main, process.load_bias);
    lemma_image_stays(third, after, root, vdso, process.vdso_base);
    if main.interpreter is Some {
        lemma_image_stays(
            second,
            after,
            root,
            contents(source.unwrap().1),
            process.interpreter_bias,
        );
    }
    let (argument_places, environment_places, random) = choose|
        argument_places: Seq<u64>,
        environment_places: Seq<u64>,
        random: u64,
    | #[trigger]
        stack_holds(
            after,
            root,
            process.stack_pointer as int,
            arguments,
            environment,
            argument_places,
            environment_places,
            random,
            elf::auxiliary(
                program,
                process.interpreter_bias,
                process.vdso_base,
                random,
                argument_places[0],
            ),
            seed,
        );
    assert(space_filled(
        memory,
        after,
        root,
        main,
        source,
        vdso,
        arguments,
        environment,
        seed,
        program,
        process,
        argument_places,
        environment_places,
        random,
        fresh,
    ));
}

/// Whether a user can read an address.
pub open spec fn can_read(memory: MemoryView, root: u64, at: int) -> bool {
    0 <= at < USER_ADDRESS_LIMIT && paging::user_mapping(memory, root, at as u64, false) is Ok
}

/// Whether a user can read addresses from one on.
pub open spec fn readable(memory: MemoryView, root: u64, at: int, count: int) -> bool {
    forall|a: int| at <= a < at + count ==> #[trigger] can_read(memory, root, a)
}

/// A user reads bytes from an address on.
pub open spec fn stands(memory: MemoryView, root: u64, at: int, bytes: Seq<u8>) -> bool {
    &&& readable(memory, root, at, bytes.len() as int)
    &&& forall|k: int|
        0 <= k < bytes.len() ==> paging::user_byte(memory, root, at + k) == #[trigger] bytes[k]
}

/// The number that a user reads from eight bytes, of which the first is the lowest.
#[verifier::opaque]
pub open spec fn word_at(memory: MemoryView, root: u64, at: int) -> int {
    paging::user_byte(memory, root, at) + 0x100 * paging::user_byte(memory, root, at + 1)
        + 0x1_0000 * paging::user_byte(memory, root, at + 2) + 0x100_0000 * paging::user_byte(
        memory,
        root,
        at + 3,
    ) + 0x1_0000_0000 * paging::user_byte(memory, root, at + 4) + 0x100_0000_0000
        * paging::user_byte(memory, root, at + 5) + 0x1_0000_0000_0000 * paging::user_byte(
        memory,
        root,
        at + 6,
    ) + 0x100_0000_0000_0000 * paging::user_byte(memory, root, at + 7)
}

/// A user reads a number at an address.
pub open spec fn has_word(memory: MemoryView, root: u64, at: int, value: int) -> bool {
    readable(memory, root, at, 8) && word_at(memory, root, at) == value
}

/// A user reads at an address where a text and a zero stand.
pub open spec fn has_text(memory: MemoryView, root: u64, at: int, text: Seq<u8>) -> bool {
    readable(memory, root, at, 8) && stands(
        memory,
        root,
        word_at(memory, root, at),
        text.push(0),
    )
}

/// A user reads from an address on where each of some texts stands, in their order, and a zero
/// behind the last.
pub open spec fn has_texts(memory: MemoryView, root: u64, at: int, texts: Seq<Seq<u8>>) -> bool {
    &&& forall|i: int|
        0 <= i < texts.len() ==> has_text(memory, root, at + 8 * i, #[trigger] texts[i])
    &&& has_word(memory, root, at + 8 * texts.len(), 0)
}

/// A user reads a key and its value at an address.
pub open spec fn has_pair(memory: MemoryView, root: u64, at: int, key: int, value: int) -> bool {
    has_word(memory, root, at, key) && has_word(memory, root, at + 8, value)
}

proof fn lemma_seen(memory: MemoryView, root: u64, at: int, bytes: Seq<u8>, fresh: Set<int>)
    requires
        spaces::is_own(memory, root, fresh),
        bytes_here(memory, root, at, bytes),
    ensures
        stands(memory, root, at, bytes),
{
    assert forall|a: int| at <= a < at + bytes.len() implies #[trigger] can_read(
        memory,
        root,
        a,
    ) by {
        assert(is_cell(memory, root, a));
        spaces::law_own_spaces_are_seen(memory, root, fresh, a, false);
    }
    assert forall|k: int| 0 <= k < bytes.len() implies paging::user_byte(memory, root, at + k)
        == #[trigger] bytes[k] by {
        assert(is_cell(memory, root, at + k));
        assert(spaces::space_byte(memory, root, at + k) == bytes[at + k - at]);
        spaces::law_own_spaces_are_seen(memory, root, fresh, at + k, false);
    }
}

proof fn lemma_parts_of_number(value: u64)
    by (bit_vector)
    ensures
        value == ((value >> 0u64) & 0xff) + 0x100 * ((value >> 8u64) & 0xff) + 0x1_0000 * ((value
            >> 16u64) & 0xff) + 0x100_0000 * ((value >> 24u64) & 0xff) + 0x1_0000_0000 * ((value
            >> 32u64) & 0xff) + 0x100_0000_0000 * ((value >> 40u64) & 0xff) + 0x1_0000_0000_0000
            * ((value >> 48u64) & 0xff) + 0x100_0000_0000_0000 * ((value >> 56u64) & 0xff),
        (value >> 0u64) & 0xff < 0x100,
        (value >> 8u64) & 0xff < 0x100,
        (value >> 16u64) & 0xff < 0x100,
        (value >> 24u64) & 0xff < 0x100,
        (value >> 32u64) & 0xff < 0x100,
        (value >> 40u64) & 0xff < 0x100,
        (value >> 48u64) & 0xff < 0x100,
        (value >> 56u64) & 0xff < 0x100,
{
}

proof fn lemma_seen_word(
    memory: MemoryView,
    root: u64,
    at: int,
    words: Seq<u64>,
    i: int,
    fresh: Set<int>,
)
    requires
        spaces::is_own(memory, root, fresh),
        bytes_here(memory, root, at, elf::numbers_bytes(words)),
        0 <= i < words.len(),
    ensures
        has_word(memory, root, at + 8 * i, words[i] as int),
{
    let value = words[i];
    let bytes = elf::number_bytes(value);
    let place = at + 8 * i;
    lemma_word_here(memory, root, at, words, i);
    lemma_seen(memory, root, place, bytes, fresh);
    lemma_parts_of_number(value);
    reveal(word_at);
    assert(paging::user_byte(memory, root, place + 0) == bytes[0]);
    assert(paging::user_byte(memory, root, place + 1) == bytes[1]);
    assert(paging::user_byte(memory, root, place + 2) == bytes[2]);
    assert(paging::user_byte(memory, root, place + 3) == bytes[3]);
    assert(paging::user_byte(memory, root, place + 4) == bytes[4]);
    assert(paging::user_byte(memory, root, place + 5) == bytes[5]);
    assert(paging::user_byte(memory, root, place + 6) == bytes[6]);
    assert(paging::user_byte(memory, root, place + 7) == bytes[7]);
}

/// The words at the end of a stack are the places of the texts.
#[verifier::spinoff_prover]
#[verifier::rlimit(40)]
proof fn lemma_stack_seen(
    memory: MemoryView,
    root: u64,
    end: int,
    arguments: Seq<Seq<u8>>,
    environment: Seq<Seq<u8>>,
    argument_places: Seq<u64>,
    environment_places: Seq<u64>,
    random: u64,
    told: Seq<u64>,
    seed: u64,
    fresh: Set<int>,
)
    requires
        spaces::is_own(memory, root, fresh),
        arguments.len() <= 8,
        stack_holds(
            memory,
            root,
            end,
            arguments,
            environment,
            argument_places,
            environment_places,
            random,
            told,
            seed,
        ),
    ensures
        has_word(memory, root, end, arguments.len() as int),
        has_texts(memory, root, end + 8, arguments),
        has_texts(memory, root, end + 8 * (2 + arguments.len()), environment),
        forall|i: int|
            0 <= i < arguments.len() ==> has_word(
                memory,
                root,
                end + 8 + 8 * i,
                #[trigger] argument_places[i] as int,
            ),
        forall|k: int|
            0 <= k < told.len() ==> has_word(
                memory,
                root,
                end + 8 * (3 + arguments.len() + environment.len()) + 8 * k,
                #[trigger] told[k] as int,
            ),
        stands(memory, root, random as int, elf::random_bytes(seed)),
{
    let words = elf::stack_words(argument_places, environment_places, told);
    let n = arguments.len();
    let m = environment.len();
    lemma_seen(memory, root, random as int, elf::random_bytes(seed), fresh);
    lemma_seen_word(memory, root, end, words, 0, fresh);
    assert forall|i: int| 0 <= i < n implies has_word(
        memory,
        root,
        end + 8 + 8 * i,
        #[trigger] argument_places[i] as int,
    ) by {
        lemma_seen_word(memory, root, end, words, 1 + i, fresh);
        assert(words[1 + i] == argument_places[i]);
    }
    assert forall|i: int| 0 <= i < n implies has_text(
        memory,
        root,
        end + 8 + 8 * i,
        #[trigger] arguments[i],
    ) by {
        assert(has_word(memory, root, end + 8 + 8 * i, argument_places[i] as int));
        lemma_seen(memory, root, argument_places[i] as int, arguments[i].push(0), fresh);
    }
    lemma_seen_word(memory, root, end, words, 1 + n as int, fresh);
    assert(words[1 + n as int] == 0);
    assert forall|i: int| 0 <= i < m implies has_text(
        memory,
        root,
        end + 8 * (2 + n) + 8 * i,
        #[trigger] environment[i],
    ) by {
        lemma_seen_word(memory, root, end, words, 2 + n + i, fresh);
        assert(words[2 + n + i] == environment_places[i]);
        assert(end + 8 * (2 + n + i) == end + 8 * (2 + n) + 8 * i);
        lemma_seen(memory, root, environment_places[i] as int, environment[i].push(0), fresh);
    }
    lemma_seen_word(memory, root, end, words, 2 + n + m as int, fresh);
    assert(words[2 + n + m as int] == 0);
    assert(end + 8 * (2 + n + m) == end + 8 * (2 + n) + 8 * m);
    assert forall|k: int| 0 <= k < told.len() implies has_word(
        memory,
        root,
        end + 8 * (3 + n + m) + 8 * k,
        #[trigger] told[k] as int,
    ) by {
        lemma_seen_word(memory, root, end, words, 3 + n + m + k, fresh);
        assert(words[3 + n + m + k] == told[k]);
        assert(end + 8 * (3 + n + m + k) == end + 8 * (3 + n + m) + 8 * k);
    }
}

/// A space that was filled for a program, in memory that was free.
spec fn process_made(
    memory: MemoryView,
    after: MemoryView,
    main: ElfView,
    source: Option<(Seq<u8>, Seq<u8>)>,
    vdso: ElfView,
    arguments: Seq<Seq<u8>>,
    environment: Seq<Seq<u8>>,
    seed: u64,
    program: LoadedElf,
    process: LoadedProcess,
    argument_places: Seq<u64>,
    environment_places: Seq<u64>,
    random: u64,
) -> bool {
    space_filled(
        memory,
        after,
        process.cr3,
        main,
        source,
        vdso,
        arguments,
        environment,
        seed,
        program,
        process,
        argument_places,
        environment_places,
        random,
        memory.frames.free,
    )
}

#[verifier::spinoff_prover]
#[verifier::rlimit(40)]
proof fn lemma_process_loaded(
    memory: MemoryView,
    main: Seq<u8>,
    source: Option<(Seq<u8>, Seq<u8>)>,
    vdso: Seq<u8>,
    arguments: Seq<Seq<u8>>,
    environment: Seq<Seq<u8>>,
    seed: u64,
)
    requires
        memory.wf(),
        elf::process_loaded(memory, main, source, vdso, arguments, environment, seed).1 is Ok,
    ensures
        elf::arguments_ok(arguments, environment),
        exists|
            program: LoadedElf,
            argument_places: Seq<u64>,
            environment_places: Seq<u64>,
            random: u64,
        | #[trigger]
            process_made(
                memory,
                elf::process_loaded(
                    memory,
                    main,
                    source,
                    vdso,
                    arguments,
                    environment,
                    seed,
                ).0,
                contents(main),
                source,
                contents(vdso),
                arguments,
                environment,
                seed,
                program,
                elf::process_loaded(
                    memory,
                    main,
                    source,
                    vdso,
                    arguments,
                    environment,
                    seed,
                ).1->Ok_0,
                argument_places,
                environment_places,
                random,
            ),
{
    let (created, given) = paging::space_created(memory);
    let root = given->Ok_0;
    spaces::law_new_spaces_are_empty(memory);
    let fresh = memory.frames.free;
    let whole = contents(main);
    let shared = contents(vdso);
    let (after, result) = elf::process_filled(
        created,
        root,
        whole,
        source,
        shared,
        arguments,
        environment,
        seed,
    );
    assert(elf::process_loaded(memory, main, source, vdso, arguments, environment, seed) == (
        after,
        result,
    ));
    lemma_filling_steps(
        created,
        root,
        whole,
        source,
        shared,
        arguments,
        environment,
        seed,
    );
    let (first, started) = elf::image_mapped(
        created,
        root,
        whole,
        elf::MAIN_ASLR_START,
        elf::MAIN_ASLR_END,
        seed,
    );
    let program = started->Ok_0;
    let second = elf::interpreter_mapped(first, root, whole, program.entry, source, seed).0;
    let third = elf::image_mapped(
        second,
        root,
        shared,
        elf::VDSO_ASLR_START,
        elf::VDSO_ASLR_END,
        elf::rotated(seed, 47),
    ).0;
    let (fourth, stacked) = paging::stack_mapped(
        third,
        root,
        elf::USER_STACK_TOP,
        elf::USER_STACK_PAGES,
    );
    let process = result->Ok_0;
    lemma_process_filled(
        created,
        first,
        second,
        third,
        fourth,
        after,
        root,
        whole,
        source,
        shared,
        arguments,
        environment,
        seed,
        program,
        stacked->Ok_0.bottom,
        (stacked->Ok_0.top - (elf::mixed(seed) & 0x7f) * 16) as u64,
        process,
        fresh,
    );
    let (argument_places, environment_places, random) = choose|
        argument_places: Seq<u64>,
        environment_places: Seq<u64>,
        random: u64,
    | #[trigger]
        space_filled(
            created,
            after,
            root,
            whole,
            source,
            shared,
            arguments,
            environment,
            seed,
            program,
            process,
            argument_places,
            environment_places,
            random,
            fresh,
        );
    lemma_outside_twice(memory, created, after, fresh);
    assert(process_made(
        memory,
        after,
        whole,
        source,
        shared,
        arguments,
        environment,
        seed,
        program,
        process,
        argument_places,
        environment_places,
        random,
    ));
}

/// A program that was loaded finds at its stack pointer how many arguments it has; behind that,
/// in their order, where each argument stands, with a zero behind its bytes; then a zero; then
/// the same for its environment; then pairs of a key and a value that tell it about itself.
#[verifier::spinoff_prover]
#[verifier::rlimit(40)]
pub proof fn law_programs_find_their_arguments(
    memory: MemoryView,
    main: Seq<u8>,
    source: Option<(Seq<u8>, Seq<u8>)>,
    vdso: Seq<u8>,
    arguments: Seq<Seq<u8>>,
    environment: Seq<Seq<u8>>,
    seed: u64,
)
    requires
        memory.wf(),
    ensures
        ({
            let (after, result) = elf::process_loaded(
                memory,
                main,
                source,
                vdso,
                arguments,
                environment,
                seed,
            );
            result matches Ok(process) ==> {
                let root = process.cr3;
                let end = process.stack_pointer as int;
                let told = end + 8 * (3 + arguments.len() + environment.len());
                let image = crate::linux::elf::elf_contents(main);
                &&& end % 16 == 0
                &&& has_word(after, root, end, arguments.len() as int)
                &&& has_texts(after, root, end + 8, arguments)
                &&& has_texts(after, root, end + 8 * (2 + arguments.len()), environment)
                &&& has_pair(
                    after,
                    root,
                    told,
                    3,
                    elf::table_address(image, process.load_bias).unwrap() as int,
                )
                &&& has_pair(after, root, told + 16, 4, 56)
                &&& has_pair(after, root, told + 32, 5, image.headers.len() as int)
                &&& has_pair(after, root, told + 48, 6, 4096)
                &&& has_pair(after, root, told + 64, 7, process.interpreter_bias as int)
                &&& has_pair(after, root, told + 80, 9, process.load_bias + image.entry)
                &&& has_pair(after, root, told + 96, 11, 0)
                &&& has_pair(after, root, told + 112, 12, 0)
                &&& has_pair(after, root, told + 128, 13, 0)
                &&& has_pair(after, root, told + 144, 14, 0)
                &&& has_pair(after, root, told + 160, 23, 0)
                &&& has_word(after, root, told + 176, 25)
                &&& readable(after, root, word_at(after, root, told + 184), 16)
                &&& has_pair(after, root, told + 192, 31, word_at(after, root, end + 8))
                &&& has_pair(after, root, told + 208, 33, process.vdso_base as int)
                &&& has_pair(after, root, told + 224, 0, 0)
            }
        }),
{
    let (after, result) = elf::process_loaded(memory, main, source, vdso, arguments, environment, seed);
    if result is Ok {
        lemma_process_loaded(memory, main, source, vdso, arguments, environment, seed);
        let process = result->Ok_0;
        let root = process.cr3;
        let end = process.stack_pointer as int;
        let image = contents(main);
        let (program, argument_places, environment_places, random) = choose|
            program: LoadedElf,
            argument_places: Seq<u64>,
            environment_places: Seq<u64>,
            random: u64,
        | #[trigger]
            process_made(
                memory,
                after,
                image,
                source,
                contents(vdso),
                arguments,
                environment,
                seed,
                program,
                process,
                argument_places,
                environment_places,
                random,
            );
        let told = elf::auxiliary(
            program,
            process.interpreter_bias,
            process.vdso_base,
            random,
            argument_places[0],
        );
        lemma_stack_seen(
            after,
            root,
            end,
            arguments,
            environment,
            argument_places,
            environment_places,
            random,
            told,
            seed,
            memory.frames.free,
        );
        let at = end + 8 * (3 + arguments.len() + environment.len());
        lemma_told_seen(after, root, at, told);
        assert(has_word(after, root, end + 8 + 8 * 0, argument_places[0] as int));
    }
}

/// Two words, one behind the other, are a pair.
proof fn lemma_pair_seen(memory: MemoryView, root: u64, at: int, told: Seq<u64>, j: int)
    requires
        0 <= 2 * j,
        2 * j + 1 < told.len(),
        forall|k: int|
            0 <= k < told.len() ==> has_word(memory, root, at + 8 * k, #[trigger] told[k] as int),
    ensures
        has_pair(memory, root, at + 16 * j, told[2 * j] as int, told[2 * j + 1] as int),
{
    assert(has_word(memory, root, at + 8 * (2 * j), told[2 * j] as int));
    assert(has_word(memory, root, at + 8 * (2 * j + 1), told[2 * j + 1] as int));
}

/// The words of pairs, each in its place.
#[verifier::spinoff_prover]
proof fn lemma_told_seen(memory: MemoryView, root: u64, at: int, told: Seq<u64>)
    requires
        told.len() == 30,
        forall|k: int|
            0 <= k < told.len() ==> has_word(memory, root, at + 8 * k, #[trigger] told[k] as int),
    ensures
        has_pair(memory, root, at, told[0] as int, told[1] as int),
        has_pair(memory, root, at + 16, told[2] as int, told[3] as int),
        has_pair(memory, root, at + 32, told[4] as int, told[5] as int),
        has_pair(memory, root, at + 48, told[6] as int, told[7] as int),
        has_pair(memory, root, at + 64, told[8] as int, told[9] as int),
        has_pair(memory, root, at + 80, told[10] as int, told[11] as int),
        has_pair(memory, root, at + 96, told[12] as int, told[13] as int),
        has_pair(memory, root, at + 112, told[14] as int, told[15] as int),
        has_pair(memory, root, at + 128, told[16] as int, told[17] as int),
        has_pair(memory, root, at + 144, told[18] as int, told[19] as int),
        has_pair(memory, root, at + 160, told[20] as int, told[21] as int),
        has_pair(memory, root, at + 176, told[22] as int, told[23] as int),
        has_pair(memory, root, at + 192, told[24] as int, told[25] as int),
        has_pair(memory, root, at + 208, told[26] as int, told[27] as int),
        has_pair(memory, root, at + 224, told[28] as int, told[29] as int),
{
    lemma_pair_seen(memory, root, at, told, 0);
    lemma_pair_seen(memory, root, at, told, 1);
    lemma_pair_seen(memory, root, at, told, 2);
    lemma_pair_seen(memory, root, at, told, 3);
    lemma_pair_seen(memory, root, at, told, 4);
    lemma_pair_seen(memory, root, at, told, 5);
    lemma_pair_seen(memory, root, at, told, 6);
    lemma_pair_seen(memory, root, at, told, 7);
    lemma_pair_seen(memory, root, at, told, 8);
    lemma_pair_seen(memory, root, at, told, 9);
    lemma_pair_seen(memory, root, at, told, 10);
    lemma_pair_seen(memory, root, at, told, 11);
    lemma_pair_seen(memory, root, at, told, 12);
    lemma_pair_seen(memory, root, at, told, 13);
    lemma_pair_seen(memory, root, at, told, 14);
}

/// Whether the last header that puts a byte at an address is a given one.
pub open spec fn is_last_at(
    headers: Seq<ProgramHeader>,
    bias: u64,
    h: int,
    at: int,
) -> bool {
    in_segment(headers[h], bias, at) && forall|later: int|
        h < later < headers.len() ==> !in_segment(#[trigger] headers[later], bias, at)
}

/// An image can be used in a space, moved by a bias: at each address that one of its headers
/// takes, a user reads the byte that the file holds for that address, or zero where the file
/// holds none, and can write and run it as the header says.
pub open spec fn image_is_usable(
    memory: MemoryView,
    root: u64,
    image: ElfView,
    bias: u64,
) -> bool {
    &&& forall|h: int, at: int|
        0 <= h < image.headers.len() && #[trigger] in_memory(image.headers[h], bias, at) ==> {
            let leaf = spaces::leaf_of(memory, root, spaces::page_of(at));
            &&& can_read(memory, root, at)
            &&& image.headers[h].writable() ==> paging::user_mapping(
                memory,
                root,
                at as u64,
                true,
            ) is Ok
            &&& image.headers[h].executable() ==> leaf & ENTRY_NO_EXECUTE == 0
            &&& (forall|k: int|
                0 <= k < image.headers.len() ==> !in_segment(#[trigger] image.headers[k], bias, at))
                ==> paging::user_byte(memory, root, at) == 0
        }
    &&& forall|h: int, at: int|
        0 <= h < image.headers.len() && in_memory(image.headers[h], bias, at)
            && #[trigger] is_last_at(image.headers, bias, h, at) ==> paging::user_byte(
            memory,
            root,
            at,
        ) == image.image[image.headers[h].offset + (at - bias - image.headers[h].virtual_address)]
}

proof fn lemma_image_usable(
    memory: MemoryView,
    root: u64,
    image: ElfView,
    bias: u64,
    fresh: Set<int>,
)
    requires
        spaces::is_own(memory, root, fresh),
        image_in(memory, root, image, bias),
    ensures
        image_is_usable(memory, root, image, bias),
{
    let count = image.headers.len();
    assert forall|h: int, at: int|
        0 <= h < count && #[trigger] in_memory(image.headers[h], bias, at) implies {
        let leaf = spaces::leaf_of(memory, root, spaces::page_of(at));
        &&& can_read(memory, root, at)
        &&& image.headers[h].writable() ==> paging::user_mapping(
            memory,
            root,
            at as u64,
            true,
        ) is Ok
        &&& image.headers[h].executable() ==> leaf & ENTRY_NO_EXECUTE == 0
        &&& (forall|k: int|
            0 <= k < image.headers.len() ==> !in_segment(#[trigger] image.headers[k], bias, at))
            ==> paging::user_byte(memory, root, at) == 0
    } by {
        assert(holds_image(memory, root, image, bias, h, at));
        spaces::law_own_spaces_are_seen(memory, root, fresh, at, true);
        spaces::law_own_spaces_are_seen(memory, root, fresh, at, false);
    }
    assert forall|h: int, at: int|
        0 <= h < count && in_memory(image.headers[h], bias, at) && #[trigger] is_last_at(
            image.headers,
            bias,
            h,
            at,
        ) implies paging::user_byte(memory, root, at) == image.image[image.headers[h].offset + (at
        - bias - image.headers[h].virtual_address)] by {
        assert(holds_image(memory, root, image, bias, h, at));
        spaces::law_own_spaces_are_seen(memory, root, fresh, at, false);
        lemma_image_byte(image, bias, count, at, h);
        assert(in_file_part(image, bias, count, at));
    }
}

/// The space of a program that was loaded holds the program, its interpreter if it names one,
/// and the shared object, each moved by its own bias; the program starts at the entry of its
/// interpreter if it has one, else at its own; and no frame that was in use has changed.
#[verifier::spinoff_prover]
#[verifier::rlimit(40)]
pub proof fn law_programs_are_loaded(
    memory: MemoryView,
    main: Seq<u8>,
    source: Option<(Seq<u8>, Seq<u8>)>,
    vdso: Seq<u8>,
    arguments: Seq<Seq<u8>>,
    environment: Seq<Seq<u8>>,
    seed: u64,
)
    requires
        memory.wf(),
    ensures
        ({
            let (after, result) = elf::process_loaded(
                memory,
                main,
                source,
                vdso,
                arguments,
                environment,
                seed,
            );
            let image = crate::linux::elf::elf_contents(main);
            let shared = crate::linux::elf::elf_contents(vdso);
            result matches Ok(process) ==> {
                &&& image_is_usable(after, process.cr3, image, process.load_bias)
                &&& image_is_usable(after, process.cr3, shared, process.vdso_base)
                &&& image.interpreter is None ==> process.entry == process.load_bias + image.entry
                    && process.interpreter_bias == 0
                &&& image.interpreter is Some ==> {
                    let linker = crate::linux::elf::elf_contents(source.unwrap().1);
                    &&& source is Some
                    &&& source.unwrap().0 == image.interpreter.unwrap()
                    &&& process.entry == process.interpreter_bias + linker.entry
                    &&& image_is_usable(after, process.cr3, linker, process.interpreter_bias)
                }
                &&& spaces::outside_kept(memory, after, memory.frames.free)
            }
        }),
{
    let (after, result) = elf::process_loaded(memory, main, source, vdso, arguments, environment, seed);
    if result is Ok {
        lemma_process_loaded(memory, main, source, vdso, arguments, environment, seed);
        let process = result->Ok_0;
        let root = process.cr3;
        let fresh = memory.frames.free;
        let image = contents(main);
        let (program, argument_places, environment_places, random) = choose|
            program: LoadedElf,
            argument_places: Seq<u64>,
            environment_places: Seq<u64>,
            random: u64,
        | #[trigger]
            process_made(
                memory,
                after,
                image,
                source,
                contents(vdso),
                arguments,
                environment,
                seed,
                program,
                process,
                argument_places,
                environment_places,
                random,
            );
        lemma_image_usable(after, root, image, process.load_bias, fresh);
        lemma_image_usable(after, root, contents(vdso), process.vdso_base, fresh);
        if image.interpreter is Some {
            lemma_image_usable(
                after,
                root,
                contents(source.unwrap().1),
                process.interpreter_bias,
                fresh,
            );
        }
    }
}

/// The bounds of an image hold each part that takes memory.
proof fn lemma_bounds(headers: Seq<ProgramHeader>, count: nat)
    requires
        count <= headers.len(),
    ensures
        elf::image_bounds(headers, count) matches Some((minimum, maximum)) ==> {
            &&& minimum % 4096 == 0 || minimum == u64::MAX
            &&& forall|h: int|
                0 <= h < count && elf::takes_memory(#[trigger] headers[h]) ==> {
                    &&& minimum % 4096 == 0
                    &&& minimum <= headers[h].virtual_address
                    &&& headers[h].virtual_address + headers[h].memory_size <= maximum
                }
        },
    decreases count,
{
    if count > 0 {
        lemma_bounds(headers, (count - 1) as nat);
    }
}

/// An image that can be moved lies in its window, moved by whole pages, so that each of its
/// parts begins where its address in a page says; one that cannot be moved stays where it is.
pub proof fn law_moved_images_lie_in_their_window(
    image: ElfView,
    start: u64,
    end: u64,
    seed: u64,
    h: int,
)
    requires
        start % 4096 == 0,
        0 <= h < image.headers.len(),
        elf::takes_memory(image.headers[h]),
    ensures
        elf::load_bias(image, start, end, seed) matches Ok(bias) ==> {
            let header = image.headers[h];
            &&& bias % 4096 == 0
            &&& image.elf_type == elf::ET_DYN ==> {
                &&& start <= bias + header.virtual_address
                &&& bias + header.virtual_address + header.memory_size <= end
            }
            &&& image.elf_type != elf::ET_DYN ==> bias == 0
        },
{
    if image.elf_type == elf::ET_DYN && elf::load_bias(image, start, end, seed) is Ok {
        let bounds = elf::image_bounds(image.headers, image.headers.len());
        lemma_bounds(image.headers, image.headers.len());
        let (minimum, maximum) = bounds->Some_0;
        let available = end - start - (maximum - minimum);
        let grain = elf::ASLR_GRANULARITY as int;
        let slots = available / grain + 1;
        let slot = elf::mixed(seed) as int % slots;
        assert(0 <= slot < slots);
        assert(slot * grain <= available / grain * grain <= available) by (nonlinear_arith)
            requires
                0 <= slot <= available / grain,
                grain == 0x20_0000,
                available >= 0,
        ;
        assert(slot * grain % 4096 == 0) by (nonlinear_arith)
            requires
                grain == 0x20_0000,
        ;
        let place = start + slot * grain;
        assert(place <= end);
        assert(place % 4096 == 0);
        assert((place - minimum) % 4096 == 0);
    }
}

} // verus!
