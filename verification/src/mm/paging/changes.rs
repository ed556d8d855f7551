//! What holds where the pages of a space are split or allow something else.
use crate::mm::address;
use crate::mm::paging;
use crate::mm::paging::laws;
use crate::mm::paging::{
    MapFlags, ADDRESS_MASK, ENTRY_HUGE, ENTRY_NO_EXECUTE, ENTRY_PRESENT, ENTRY_USER,
    ENTRY_WRITABLE, PAGE_2M_MASK,
};
use crate::mm::physical;
use crate::mm::physical::MemoryView;
use vstd::prelude::*;

verus! {

/// The entry that says where a page lies: that of a large page, or that of level 1.
pub open spec fn deciding(memory: MemoryView, table: u64, page: u64, level: int) -> u64
    decreases level,
{
    let entry = paging::entry_of(memory, table, address::table_index(page, level));
    if level <= 1 || !paging::is_present(entry) || (level <= 3 && paging::is_huge(entry)) {
        entry
    } else {
        deciding(memory, paging::target_of(entry), page, level - 1)
    }
}

/// The pages that one entry of level 2 covers.
pub open spec fn same_large_page(a: u64, b: u64) -> bool {
    a as int / 0x20_0000 == b as int / 0x20_0000
}

proof fn lemma_same_large_page(a: u64, b: u64)
    requires
        same_large_page(a, b),
    ensures
        address::table_index(a, 4) == address::table_index(b, 4),
        address::table_index(a, 3) == address::table_index(b, 3),
        address::table_index(a, 2) == address::table_index(b, 2),
        address::table_index(b, 1) == (b as int % 0x20_0000) / 4096,
{
    assert(a as int / 0x80_0000_0000 == (a as int / 0x20_0000) / 0x4_0000);
    assert(b as int / 0x80_0000_0000 == (b as int / 0x20_0000) / 0x4_0000);
    assert(a as int / 0x4000_0000 == (a as int / 0x20_0000) / 0x200);
    assert(b as int / 0x4000_0000 == (b as int / 0x20_0000) / 0x200);
    assert(b as int / 4096 % 512 == (b as int % 0x20_0000) / 4096);
}

/// The entries of a table that was filled, and those of all others.
proof fn lemma_filled(
    memory: MemoryView,
    table: u64,
    base: u64,
    flags: u64,
    count: int,
    other: u64,
    at: int,
)
    requires
        memory.words.len() == physical::WORDS,
        laws::is_table(table),
        laws::is_table(other),
        0 <= count <= 512,
        0 <= at < 512,
    ensures
        ({
            let after = paging::filled(memory, table, base, flags, count);
            &&& after.words.len() == physical::WORDS
            &&& paging::entry_of(after, other, at) == (if other == table && at < count {
                ((base + at * 4096) as u64) | flags | ENTRY_PRESENT
            } else {
                paging::entry_of(memory, other, at)
            })
        }),
    decreases count,
{
    if count > 0 {
        lemma_filled(memory, table, base, flags, count - 1, other, at);
        let before = paging::filled(memory, table, base, flags, count - 1);
        laws::lemma_write(
            before,
            table,
            count - 1,
            ((base + (count - 1) * 4096) as u64) | flags | ENTRY_PRESENT,
            other,
            at,
        );
    }
}

proof fn lemma_base_bits(entry: u64)
    by (bit_vector)
    ensures
        entry & 0x000f_ffff_ffe0_0000u64 <= 0x000f_ffff_ffe0_0000u64,
        (entry & 0x000f_ffff_ffe0_0000u64) % 0x20_0000 == 0,
{
}

proof fn lemma_split_bits(entry: u64, offset: u64, sum: u64, made: u64)
    by (bit_vector)
    requires
        offset < 0x20_0000,
        offset % 4096 == 0,
        made % 4096 == 0,
        made < 0x1_0000_0000,
        sum == (entry & 0x000f_ffff_ffe0_0000u64) + offset,
    ensures
        ({
            let flags = entry & !0x000f_ffff_ffff_f000u64 & !0x80u64;
            let leaf = sum | flags | 1u64;
            let way = made | 1u64 | 2u64 | (entry & 4u64);
            &&& leaf & 0x000f_ffff_ffff_f000u64 == sum
            &&& leaf & 1u64 != 0
            &&& leaf & 2u64 == entry & 2u64
            &&& leaf & 4u64 == entry & 4u64
            &&& leaf & 0x8000_0000_0000_0000u64 == entry & 0x8000_0000_0000_0000u64
            &&& way & 0x000f_ffff_ffff_f000u64 == made
            &&& way & 1u64 != 0
            &&& way & 0x80u64 == 0
        }),
{
}

/// Whether the entries for a page lead to a table of level 2.
spec fn leads_to(memory: MemoryView, root: u64, page: u64, third: u64, second: u64) -> bool {
    let e4 = paging::entry_of(memory, root, address::table_index(page, 4));
    let e3 = paging::entry_of(memory, third, address::table_index(page, 3));
    &&& paging::table_ok(root)
    &&& paging::is_present(e4)
    &&& third == paging::target_of(e4)
    &&& paging::table_ok(third)
    &&& paging::is_present(e3)
    &&& !paging::is_huge(e3)
    &&& second == paging::target_of(e3)
    &&& paging::table_ok(second)
}

proof fn lemma_large(memory: MemoryView, root: u64, page: u64, third: u64, second: u64)
    requires
        leads_to(memory, root, page, third, second),
        ({
            let entry = paging::entry_of(memory, second, address::table_index(page, 2));
            paging::is_present(entry) && paging::is_huge(entry)
        }),
    ensures
        ({
            let entry = paging::entry_of(memory, second, address::table_index(page, 2));
            &&& paging::translated(memory, root, page, 4) == paging::page_within(
                entry & PAGE_2M_MASK,
                page,
                0x20_0000,
            )
            &&& deciding(memory, root, page, 4) == entry
        }),
{
    reveal_with_fuel(paging::translated, 4);
    reveal_with_fuel(deciding, 4);
}

proof fn lemma_small(memory: MemoryView, root: u64, page: u64, third: u64, second: u64)
    requires
        leads_to(memory, root, page, third, second),
        ({
            let entry = paging::entry_of(memory, second, address::table_index(page, 2));
            let first = paging::target_of(entry);
            &&& paging::is_present(entry)
            &&& !paging::is_huge(entry)
            &&& paging::table_ok(first)
            &&& paging::is_present(
                paging::entry_of(memory, first, address::table_index(page, 1)),
            )
        }),
    ensures
        ({
            let first = paging::target_of(
                paging::entry_of(memory, second, address::table_index(page, 2)),
            );
            let leaf = paging::entry_of(memory, first, address::table_index(page, 1));
            &&& paging::translated(memory, root, page, 4) == Some(paging::target_of(leaf))
            &&& deciding(memory, root, page, 4) == leaf
        }),
{
    reveal_with_fuel(paging::translated, 5);
    reveal_with_fuel(deciding, 5);
}

/// A page of two megabytes that is split lies where it lay: each of its small pages is found where
/// it was found before, and can be read, written and run as before. The tables on the way to it
/// must be apart from each other, and their frames in use.
#[verifier::spinoff_prover]
#[verifier::rlimit(40)]
pub proof fn law_split_pages_stay(memory: MemoryView, root: u64, page: u64, small: u64)
    requires
        memory.wf(),
        laws::low_frames_reserved(memory),
        laws::separate(memory, root, page, 4, Set::empty()),
        small % 4096 == 0,
        same_large_page(page, small),
        paging::split(memory, root, page).1 is Ok,
    ensures
        ({
            let after = paging::split(memory, root, page).0;
            let old_entry = deciding(memory, root, small, 4);
            let new_entry = deciding(after, root, small, 4);
            &&& paging::translated(after, root, small, 4) == paging::translated(
                memory,
                root,
                small,
                4,
            )
            &&& paging::is_present(new_entry) == paging::is_present(old_entry)
            &&& new_entry & ENTRY_WRITABLE == old_entry & ENTRY_WRITABLE
            &&& new_entry & ENTRY_USER == old_entry & ENTRY_USER
            &&& new_entry & ENTRY_NO_EXECUTE == old_entry & ENTRY_NO_EXECUTE
            &&& !paging::is_huge(
                paging::entry_of(
                    after,
                    paging::target_of(
                        paging::entry_of(
                            after,
                            paging::target_of(
                                paging::entry_of(after, root, address::table_index(page, 4)),
                            ),
                            address::table_index(page, 3),
                        ),
                    ),
                    address::table_index(page, 2),
                ),
            )
        }),
{
    reveal(paging::split);
    reveal_with_fuel(laws::separate, 4);
    lemma_same_large_page(page, small);
    let i4 = address::table_index(page, 4);
    let i3 = address::table_index(page, 3);
    let i2 = address::table_index(page, 2);
    let i1 = address::table_index(small, 1);
    laws::lemma_index(page, 4);
    laws::lemma_index(page, 3);
    laws::lemma_index(page, 2);
    laws::lemma_index(small, 1);
    let t3 = paging::target_of(paging::entry_of(memory, root, i4));
    let t2 = paging::target_of(paging::entry_of(memory, t3, i3));
    let entry = paging::entry_of(memory, t2, i2);
    let after = paging::split(memory, root, page).0;
    if paging::is_huge(entry) {
        laws::lemma_allocated(memory);
        let (taken, result) = memory.allocated();
        let made = result->Ok_0.spec_u64();
        let zeroed = taken.zeroed(made as int);
        let base = entry & PAGE_2M_MASK;
        let flags = entry & !ADDRESS_MASK & !ENTRY_HUGE;
        let leaves = paging::filled(zeroed, made, base, flags, 512);
        let way = made | ENTRY_PRESENT | ENTRY_WRITABLE | (entry & ENTRY_USER);
        let written = paging::with_entry(leaves, t2, i2, way);
        assert(after.words == written.words);
        assert(made != root && made != t3 && made != t2);
        laws::lemma_zeroed(taken, made, root, i4);
        laws::lemma_zeroed(taken, made, t3, i3);
        lemma_filled(zeroed, made, base, flags, 512, root, i4);
        lemma_filled(zeroed, made, base, flags, 512, t3, i3);
        lemma_filled(zeroed, made, base, flags, 512, made, i1);
        laws::lemma_write(leaves, t2, i2, way, root, i4);
        laws::lemma_write(leaves, t2, i2, way, t3, i3);
        laws::lemma_write(leaves, t2, i2, way, t2, i2);
        laws::lemma_write(leaves, t2, i2, way, made, i1);
        let offset = (i1 * 4096) as u64;
        assert(offset == small as int % 0x20_0000);
        lemma_base_bits(entry);
        let sum = (base + offset) as u64;
        lemma_split_bits(entry, offset, sum, made);
        assert(paging::entry_of(after, root, i4) == paging::entry_of(memory, root, i4));
        assert(paging::entry_of(after, t3, i3) == paging::entry_of(memory, t3, i3));
        assert(paging::entry_of(after, t2, i2) == way);
        assert(paging::entry_of(after, made, i1) == ((base + offset) as u64) | flags
            | ENTRY_PRESENT);
        assert((base + offset) % 4096 == 0);
        assert(leads_to(memory, root, small, t3, t2));
        assert(leads_to(after, root, small, t3, t2));
        lemma_large(memory, root, small, t3, t2);
        lemma_small(after, root, small, t3, t2);
    } else {
        assert(after == memory);
    }
}

proof fn lemma_flag_bits(entry: u64, flags: u64)
    by (bit_vector)
    requires
        flags & 0x000f_ffff_ffff_f000u64 == 0,
    ensures
        ({
            let leaf = (entry & 0x000f_ffff_ffff_f000u64) | flags | 1u64;
            &&& leaf & 0x000f_ffff_ffff_f000u64 == entry & 0x000f_ffff_ffff_f000u64
            &&& leaf & 1u64 != 0
            &&& leaf & 2u64 == flags & 2u64
            &&& leaf & 4u64 == flags & 4u64
            &&& leaf & 0x8000_0000_0000_0000u64 == flags & 0x8000_0000_0000_0000u64
        }),
{
}

/// A page that is to allow something else lies where it lay, and allows just that. The tables on
/// the way to it must be apart from each other.
#[verifier::spinoff_prover]
#[verifier::rlimit(40)]
pub proof fn law_flags_leave_pages_in_place(
    memory: MemoryView,
    root: u64,
    page: u64,
    flags: MapFlags,
)
    requires
        memory.wf(),
        laws::separate(memory, root, page, 4, Set::empty()),
        flags.0 & ADDRESS_MASK == 0,
        paging::flags_set(memory, root, page, flags).1 is Ok,
    ensures
        ({
            let after = paging::flags_set(memory, root, page, flags).0;
            let entry = deciding(after, root, page, 4);
            &&& paging::translated(memory, root, page, 4) is Some
            &&& paging::translated(after, root, page, 4) == paging::translated(
                memory,
                root,
                page,
                4,
            )
            &&& paging::is_present(entry)
            &&& entry & ENTRY_WRITABLE == flags.0 & ENTRY_WRITABLE
            &&& entry & ENTRY_USER == flags.0 & ENTRY_USER
            &&& entry & ENTRY_NO_EXECUTE == flags.0 & ENTRY_NO_EXECUTE
        }),
{
    reveal(paging::flags_set);
    reveal_with_fuel(laws::separate, 5);
    let i4 = address::table_index(page, 4);
    let i3 = address::table_index(page, 3);
    let i2 = address::table_index(page, 2);
    let i1 = address::table_index(page, 1);
    laws::lemma_index(page, 4);
    laws::lemma_index(page, 3);
    laws::lemma_index(page, 2);
    laws::lemma_index(page, 1);
    let t3 = paging::target_of(paging::entry_of(memory, root, i4));
    let t2 = paging::target_of(paging::entry_of(memory, t3, i3));
    let t1 = paging::target_of(paging::entry_of(memory, t2, i2));
    let entry = paging::entry_of(memory, t1, i1);
    let leaf = paging::target_of(entry) | flags.0 | ENTRY_PRESENT;
    let after = paging::flags_set(memory, root, page, flags).0;
    assert(paging::leaf_table(memory, root, page) == Ok::<u64, paging::MapError>(t1));
    let written = paging::with_entry(memory, t1, i1, leaf);
    assert(after.words == written.words);
    laws::lemma_write(memory, t1, i1, leaf, root, i4);
    laws::lemma_write(memory, t1, i1, leaf, t3, i3);
    laws::lemma_write(memory, t1, i1, leaf, t2, i2);
    laws::lemma_write(memory, t1, i1, leaf, t1, i1);
    lemma_flag_bits(entry, flags.0);
    assert(paging::entry_of(after, root, i4) == paging::entry_of(memory, root, i4));
    assert(paging::entry_of(after, t3, i3) == paging::entry_of(memory, t3, i3));
    assert(paging::entry_of(after, t2, i2) == paging::entry_of(memory, t2, i2));
    assert(paging::entry_of(after, t1, i1) == leaf);
    assert(leads_to(memory, root, page, t3, t2));
    assert(leads_to(after, root, page, t3, t2));
    lemma_small(memory, root, page, t3, t2);
    lemma_small(after, root, page, t3, t2);
}

} // verus!
