//! What holds of page tables over several calls.
use crate::mm::address;
use crate::mm::address::USER_ADDRESS_LIMIT;
use crate::mm::frame;
use crate::mm::paging;
use crate::mm::paging::{
    MapError, MapFlags, ADDRESS_MASK, ENTRY_NO_EXECUTE, ENTRY_PRESENT, ENTRY_USER, ENTRY_WRITABLE,
};
use crate::mm::physical;
use crate::mm::physical::{Flush, MemoryView};
use vstd::prelude::*;

verus! {

/// A mapping that lets code be written and run is refused, and changes nothing.
pub proof fn law_nothing_is_both_written_and_run(
    memory: MemoryView,
    root: u64,
    page: u64,
    frame: u64,
    flags: MapFlags,
)
    requires
        flags.has(ENTRY_WRITABLE),
        !flags.has(ENTRY_NO_EXECUTE),
    ensures
        paging::mapped(memory, root, page, frame, flags).0 == memory,
        paging::mapped(memory, root, page, frame, flags).1 is Err,
        paging::flags_set(memory, root, page, flags) == (
            memory,
            Err::<(), MapError>(MapError::PermissionDenied),
        ),
{
    reveal(paging::mapped);
    reveal(paging::flags_set);
}

/// A page-aligned table in the range of tables.
pub open spec fn is_table(table: u64) -> bool {
    paging::table_ok(table) && table % 4096 == 0
}

/// The tables on the way to a page are tables, differ from each other and from those
/// above, and their frames are in use.
pub open spec fn separate(
    memory: MemoryView,
    table: u64,
    page: u64,
    level: int,
    above: Set<u64>,
) -> bool
    decreases level,
{
    let entry = paging::entry_of(memory, table, address::table_index(page, level));
    level < 1 || {
        &&& is_table(table)
        &&& !above.contains(table)
        &&& !memory.frames.free.contains(table as int / 4096)
        &&& level > 1 && paging::is_present(entry) && !paging::is_huge(entry) ==> separate(
            memory,
            paging::target_of(entry),
            page,
            level - 1,
            above.insert(table),
        )
    }
}

/// What is below the lowest frame that can be allocated is never free.
pub open spec fn low_frames_reserved(memory: MemoryView) -> bool {
    forall|f: int| #[trigger] memory.frames.free.contains(f) ==> f * 4096 >= frame::LOW_MEMORY_END
}

/// The table of level 1 that the entries for a page lead to, if they do.
pub open spec fn walked(memory: MemoryView, table: u64, page: u64, level: int) -> Option<u64>
    decreases level,
{
    let entry = paging::entry_of(memory, table, address::table_index(page, level));
    if level <= 1 {
        Some(table)
    } else if !paging::table_ok(table) || !paging::is_present(entry) || paging::is_huge(entry) {
        None
    } else {
        walked(memory, paging::target_of(entry), page, level - 1)
    }
}

pub proof fn lemma_index(page: u64, level: int)
    requires
        1 <= level <= 4,
    ensures
        0 <= address::table_index(page, level) < 512,
{
}

/// Writing one entry leaves all others.
pub proof fn lemma_write(memory: MemoryView, table: u64, index: int, value: u64, other: u64, at: int)
    requires
        memory.words.len() == physical::WORDS,
        is_table(table),
        is_table(other),
        0 <= index < 512,
        0 <= at < 512,
    ensures
        paging::entry_of(paging::with_entry(memory, table, index, value), other, at) == (
        if table == other && index == at {
            value
        } else {
            paging::entry_of(memory, other, at)
        }),
{
    assert((table + index * 8) / 8 == table as int / 8 + index);
    assert((other + at * 8) / 8 == other as int / 8 + at);
}

/// Clearing one frame leaves all others.
pub proof fn lemma_zeroed(memory: MemoryView, frame: u64, other: u64, at: int)
    requires
        memory.words.len() == physical::WORDS,
        is_table(frame),
        is_table(other),
        0 <= at < 512,
    ensures
        paging::entry_of(memory.zeroed(frame as int), other, at) == (if frame == other {
            0
        } else {
            paging::entry_of(memory, other, at)
        }),
{
    assert((other + at * 8) / 8 == other as int / 8 + at);
    assert((other as int / 8 + at) / 512 == other as int / 4096);
}

proof fn lemma_entry_bits(frame: u64, entry: u64, flags: u64)
    by (bit_vector)
    ensures
        frame % 4096 == 0 && frame < 0x1_0000_0000 ==> {
            &&& (frame | 1u64 | 2u64 | 0u64) & 0x000f_ffff_ffff_f000u64 == frame
            &&& (frame | 1u64 | 2u64 | 4u64) & 0x000f_ffff_ffff_f000u64 == frame
            &&& (frame | 1u64 | 2u64 | 0u64) & 1u64 != 0
            &&& (frame | 1u64 | 2u64 | 4u64) & 1u64 != 0
            &&& (frame | 1u64 | 2u64 | 0u64) & 0x80u64 == 0
            &&& (frame | 1u64 | 2u64 | 4u64) & 0x80u64 == 0
            &&& flags & 0x000f_ffff_ffff_f000u64 == 0 ==> (frame | flags | 1u64)
                & 0x000f_ffff_ffff_f000u64 == frame
        },
        (frame | flags | 1u64) & 1u64 != 0,
        (entry | 4u64) & 0x000f_ffff_ffff_f000u64 == entry & 0x000f_ffff_ffff_f000u64,
        (entry | 4u64) & 1u64 == entry & 1u64,
        (entry | 4u64) & 0x80u64 == entry & 0x80u64,
        0u64 & 1u64 == 0,
{
}

/// What asking for a frame gives.
pub proof fn lemma_allocated(memory: MemoryView)
    requires
        memory.wf(),
        low_frames_reserved(memory),
        memory.allocated().1 is Ok,
    ensures
        ({
            let (after, result) = memory.allocated();
            let frame = result->Ok_0.spec_u64();
            &&& is_table(frame)
            &&& memory.frames.free.contains(frame as int / 4096)
            &&& after.frames.free == memory.frames.free.remove(frame as int / 4096)
            &&& after.frames.allocated == memory.frames.allocated.insert(frame as int / 4096)
            &&& after == (MemoryView { frames: after.frames, ..memory })
            &&& after.frames.initialized == memory.frames.initialized
            &&& after.wf()
            &&& low_frames_reserved(after)
        }),
{
    let (after, result) = memory.allocated();
    frame::lemma_allocation_exists(memory.frames, memory.node);
    assert(frame::allocation_result(memory.frames, after.frames, memory.node, result));
    let (node, number) = choose|node: int, number: int|
        #![trigger memory.frames.is_first_free(node, number)]
        frame::frame_allocated(memory.frames, after.frames, memory.node, node, number)
            && result->Ok_0.spec_u64() == number * 4096;
    assert(memory.frames.is_first_free(node, number));
    assert(memory.frames.free.contains(number));
    frame::lemma_taken_consistent(memory.frames, node, number, node == memory.node);
}

/// A chain of tables depends only on the entries of those tables and on which frames are
/// free: it stands where those above keep apart and nothing of it changed.
proof fn lemma_separate_kept(
    memory: MemoryView,
    after: MemoryView,
    table: u64,
    page: u64,
    level: int,
    above: Set<u64>,
    more: Set<u64>,
)
    requires
        level <= 4,
        separate(memory, table, page, level, above),
        forall|t: u64|
            is_table(t) && !more.contains(t) && !memory.frames.free.contains(t as int / 4096)
                ==> !#[trigger] after.frames.free.contains(t as int / 4096),
        forall|t: u64, i: int|
            is_table(t) && !above.contains(t) && !memory.frames.free.contains(t as int / 4096)
                && 0 <= i < 512 ==> #[trigger] paging::entry_of(after, t, i) == paging::entry_of(
                memory,
                t,
                i,
            ),
        more.subset_of(above),
    ensures
        separate(after, table, page, level, above),
    decreases level,
{
    if level >= 1 {
        let index = address::table_index(page, level);
        lemma_index(page, level);
        let entry = paging::entry_of(memory, table, index);
        assert(paging::entry_of(after, table, index) == entry);
        if level > 1 && paging::is_present(entry) && !paging::is_huge(entry) {
            lemma_separate_kept(
                memory,
                after,
                paging::target_of(entry),
                page,
                level - 1,
                above.insert(table),
                more,
            );
        }
    }
}

/// What opening the tables for a page does: the entries lead to the table that it gives,
/// the tables keep apart, and tables above and frames in use elsewhere are as they were.
proof fn lemma_opened(
    memory: MemoryView,
    table: u64,
    page: u64,
    level: int,
    for_user: bool,
    above: Set<u64>,
)
    requires
        memory.wf(),
        low_frames_reserved(memory),
        1 <= level <= 4,
        separate(memory, table, page, level, above),
        forall|t: u64| #[trigger]
            above.contains(t) ==> is_table(t) && !memory.frames.free.contains(t as int / 4096),
        paging::opened(memory, table, page, level, for_user).1 is Ok,
    ensures
        ({
            let (after, leaf) = paging::opened(memory, table, page, level, for_user);
            &&& after.wf()
            &&& low_frames_reserved(after)
            &&& after == (MemoryView { words: after.words, frames: after.frames, ..memory })
            &&& walked(after, table, page, level) == Some(leaf->Ok_0)
            &&& separate(after, table, page, level, above)
            &&& forall|f: int|
                !memory.frames.free.contains(f) ==> !#[trigger] after.frames.free.contains(f)
            &&& forall|t: u64, i: int|
                above.contains(t) && 0 <= i < 512 ==> #[trigger] paging::entry_of(after, t, i)
                    == paging::entry_of(memory, t, i)
        }),
    decreases level,
{
    let index = address::table_index(page, level);
    lemma_index(page, level);
    if level >= 2 {
        let entry = paging::entry_of(memory, table, index);
        let below = above.insert(table);
        let user_bit = if for_user {
            ENTRY_USER
        } else {
            0
        };
        if !paging::is_present(entry) {
            lemma_allocated(memory);
            let (taken, result) = memory.allocated();
            let made = result->Ok_0.spec_u64();
            lemma_entry_bits(made, entry, 0);
            let value = made | ENTRY_PRESENT | ENTRY_WRITABLE | user_bit;
            let zeroed = taken.zeroed(made as int);
            let linked = paging::with_entry(zeroed, table, index, value);
            assert forall|t: u64, i: int| is_table(t) && 0 <= i < 512 implies #[trigger]
                paging::entry_of(linked, t, i) == (if t == table && i == index {
                value
            } else if t == made {
                0
            } else {
                paging::entry_of(memory, t, i)
            }) by {
                lemma_write(zeroed, table, index, value, t, i);
                lemma_zeroed(taken, made, t, i);
                assert(paging::entry_of(taken, t, i) == paging::entry_of(memory, t, i));
            }
            lemma_entry_bits(made, 0, 0);
            assert forall|i: int| 0 <= i < 512 implies !paging::is_present(
                #[trigger] paging::entry_of(linked, made, i),
            ) by {}
            assert(separate(linked, made, page, level - 1, below)) by {
                assert(!memory.frames.free.contains(table as int / 4096));
                if level - 1 >= 1 {
                    lemma_index(page, level - 1);
                    assert(!below.contains(made)) by {
                        if above.contains(made) {
                            assert(!memory.frames.free.contains(made as int / 4096));
                        }
                    }
                }
            }
            lemma_opened(linked, made, page, level - 1, for_user, below);
            let after = paging::opened(linked, made, page, level - 1, for_user).0;
            assert(paging::entry_of(after, table, index) == value);
            assert(paging::target_of(value) == made);
            lemma_separate_up(after, table, page, level, above, below);
            assert forall|t: u64, i: int| above.contains(t) && 0 <= i < 512 implies #[trigger]
                paging::entry_of(after, t, i) == paging::entry_of(memory, t, i) by {
                assert(below.contains(t));
                assert(!memory.frames.free.contains(t as int / 4096));
                assert(paging::entry_of(linked, t, i) == paging::entry_of(memory, t, i));
            }
        } else {
            let value = if for_user {
                entry | ENTRY_USER
            } else {
                entry
            };
            let linked = if for_user {
                paging::with_entry(memory, table, index, value)
            } else {
                memory
            };
            lemma_entry_bits(0, entry, 0);
            let next = paging::target_of(value);
            assert(next == paging::target_of(entry));
            assert forall|t: u64, i: int| is_table(t) && 0 <= i < 512 implies #[trigger]
                paging::entry_of(linked, t, i) == (if t == table && i == index {
                value
            } else {
                paging::entry_of(memory, t, i)
            }) by {
                if for_user {
                    lemma_write(memory, table, index, value, t, i);
                }
            }
            lemma_separate_kept(memory, linked, next, page, level - 1, below, below);
            lemma_opened(linked, next, page, level - 1, for_user, below);
            let after = paging::opened(linked, next, page, level - 1, for_user).0;
            assert(paging::entry_of(after, table, index) == value);
            lemma_separate_up(after, table, page, level, above, below);
            assert forall|t: u64, i: int| above.contains(t) && 0 <= i < 512 implies #[trigger]
                paging::entry_of(after, t, i) == paging::entry_of(memory, t, i) by {
                assert(below.contains(t));
                assert(is_table(t));
                assert(paging::entry_of(linked, t, i) == paging::entry_of(memory, t, i));
            }
        }
    }
}

/// A chain that keeps apart below a table keeps apart with it.
proof fn lemma_separate_up(
    memory: MemoryView,
    table: u64,
    page: u64,
    level: int,
    above: Set<u64>,
    below: Set<u64>,
)
    requires
        level >= 2,
        below == above.insert(table),
        is_table(table),
        !above.contains(table),
        !memory.frames.free.contains(table as int / 4096),
        separate(
            memory,
            paging::target_of(
                paging::entry_of(memory, table, address::table_index(page, level)),
            ),
            page,
            level - 1,
            below,
        ),
    ensures
        separate(memory, table, page, level, above),
{
}

/// Writing an entry of the table of level 1 leaves the way to it, and makes the page lie
/// where the entry says.
proof fn lemma_leaf_written(
    memory: MemoryView,
    table: u64,
    page: u64,
    level: int,
    above: Set<u64>,
    leaf: u64,
    value: u64,
)
    requires
        memory.wf(),
        1 <= level <= 4,
        separate(memory, table, page, level, above),
        walked(memory, table, page, level) == Some(leaf),
        is_table(leaf),
        above.contains(leaf) ==> false,
    ensures
        ({
            let after = paging::with_entry(memory, leaf, address::table_index(page, 1), value);
            &&& paging::translated(after, table, page, level) == (if paging::is_present(value) {
                Some(paging::target_of(value))
            } else {
                None
            })
        }),
    decreases level,
{
    let after = paging::with_entry(memory, leaf, address::table_index(page, 1), value);
    let index = address::table_index(page, level);
    lemma_index(page, level);
    lemma_index(page, 1);
    if level == 1 {
        lemma_write(memory, leaf, index, value, leaf, index);
    } else {
        let entry = paging::entry_of(memory, table, index);
        lemma_leaf_below(memory, paging::target_of(entry), page, level - 1, above.insert(table));
        assert(leaf != table);
        lemma_write(memory, leaf, address::table_index(page, 1), value, table, index);
        lemma_leaf_written(
            memory,
            paging::target_of(entry),
            page,
            level - 1,
            above.insert(table),
            leaf,
            value,
        );
    }
}

/// The table of level 1 is none of those above the chain.
proof fn lemma_leaf_below(memory: MemoryView, table: u64, page: u64, level: int, above: Set<u64>)
    requires
        1 <= level <= 4,
        separate(memory, table, page, level, above),
        walked(memory, table, page, level) is Some,
    ensures
        is_table(walked(memory, table, page, level).unwrap()),
        !above.contains(walked(memory, table, page, level).unwrap()),
    decreases level,
{
    if level > 1 {
        let entry = paging::entry_of(memory, table, address::table_index(page, level));
        lemma_leaf_below(memory, paging::target_of(entry), page, level - 1, above.insert(table));
    }
}

/// A page that was mapped lies where it was mapped. The tables on the way to it must be
/// apart from each other, and their frames in use.
pub proof fn law_mapped_pages_are_found(
    memory: MemoryView,
    root: u64,
    page: u64,
    frame: u64,
    flags: MapFlags,
)
    requires
        memory.wf(),
        low_frames_reserved(memory),
        separate(memory, root, page, 4, Set::empty()),
        frame % 4096 == 0,
        flags.0 & ADDRESS_MASK == 0,
        paging::mapped(memory, root, page, frame, flags).1 is Ok,
    ensures
        paging::translated(
            paging::mapped(memory, root, page, frame, flags).0,
            root,
            page,
            4,
        ) == Some(frame),
{
    reveal(paging::mapped);
    let for_user = flags.has(ENTRY_USER);
    lemma_opened(memory, root, page, 4, for_user, Set::empty());
    let (opened, leaf) = paging::opened(memory, root, page, 4, for_user);
    let value = frame | flags.0 | ENTRY_PRESENT;
    lemma_leaf_below(opened, root, page, 4, Set::empty());
    lemma_entry_bits(frame, 0, flags.0);
    lemma_leaf_written(opened, root, page, 4, Set::empty(), leaf->Ok_0, value);
    let written = paging::with_entry(
        opened,
        leaf->Ok_0,
        address::table_index(page, 1),
        value,
    );
    lemma_same_words(written, written.flushed(Flush::Page(page)), root, page, 4);
}

/// Where a page lies depends on the words alone.
proof fn lemma_same_words(a: MemoryView, b: MemoryView, table: u64, page: u64, level: int)
    requires
        a.words == b.words,
    ensures
        paging::translated(a, table, page, level) == paging::translated(b, table, page, level),
    decreases level,
{
    if level >= 1 {
        let entry = paging::entry_of(a, table, address::table_index(page, level));
        lemma_same_words(a, b, paging::target_of(entry), page, level - 1);
    }
}

/// What giving a frame back that is allocated gives.
proof fn lemma_deallocated(memory: MemoryView, table: u64)
    requires
        memory.wf(),
        memory.frames.initialized,
        is_table(table),
        table >= frame::LOW_MEMORY_END,
        memory.frames.allocated.contains(table as int / 4096),
    ensures
        ({
            let (after, result) = memory.deallocated(table);
            &&& result is Ok
            &&& after.frames.free == memory.frames.free.insert(table as int / 4096)
            &&& after.frames.allocated == memory.frames.allocated.remove(table as int / 4096)
            &&& after.frames.initialized
            &&& after == (MemoryView { frames: after.frames, ..memory })
            &&& after.wf()
        }),
{
    let (after, result) = memory.deallocated(table);
    frame::lemma_deallocation_exists(memory.frames, table);
    let number = table as int / 4096;
    let node = choose|node: int|
        0 <= node < 8 && (#[trigger] memory.frames.nodes[node]).contains(number) && after.frames
            == memory.frames.given_back(node, number);
    assert(memory.frames.nodes[node].contains(number));
    frame::lemma_given_back_consistent(memory.frames, node, number);
}

/// A page that was unmapped lies nowhere. The tables on the way to it must be apart from
/// each other.
pub proof fn law_unmapped_pages_are_gone(memory: MemoryView, root: u64, page: u64)
    requires
        memory.wf(),
        separate(memory, root, page, 4, Set::empty()),
        paging::unmapped(memory, root, page).1 is Ok,
    ensures
        paging::translated(paging::unmapped(memory, root, page).0, root, page, 4) is None,
{
    reveal(paging::unmapped);
    reveal_with_fuel(paging::parent_at, 4);
    reveal_with_fuel(paging::reclaimed, 5);
    reveal_with_fuel(separate, 5);
    reveal_with_fuel(paging::translated, 5);
    let i4 = address::table_index(page, 4);
    let i3 = address::table_index(page, 3);
    let i2 = address::table_index(page, 2);
    let i1 = address::table_index(page, 1);
    lemma_index(page, 4);
    lemma_index(page, 3);
    lemma_index(page, 2);
    lemma_index(page, 1);
    let t3 = paging::target_of(paging::entry_of(memory, root, i4));
    let t2 = paging::target_of(paging::entry_of(memory, t3, i3));
    let t1 = paging::target_of(paging::entry_of(memory, t2, i2));
    let parents = seq![
        root,
        paging::parent_at(memory, root, page, 1),
        paging::parent_at(memory, root, page, 2),
    ];
    assert(parents[0] == root && parents[1] == t3 && parents[2] == t2);
    lemma_entry_bits(0, 0, 0);
    let m1 = paging::with_entry(memory, t1, i1, 0).flushed(Flush::Page(page));
    assert(m1.words == paging::with_entry(memory, t1, i1, 0).words);
    lemma_write(memory, t1, i1, 0, root, i4);
    lemma_write(memory, t1, i1, 0, t3, i3);
    lemma_write(memory, t1, i1, 0, t2, i2);
    lemma_write(memory, t1, i1, 0, t1, i1);
    let d1 = m1.deallocated(t1).0;
    let m2 = paging::with_entry(d1, t2, i2, 0);
    lemma_write(d1, t2, i2, 0, root, i4);
    lemma_write(d1, t2, i2, 0, t3, i3);
    lemma_write(d1, t2, i2, 0, t2, i2);
    let d2 = m2.deallocated(t2).0;
    let m3 = paging::with_entry(d2, t3, i3, 0);
    lemma_write(d2, t3, i3, 0, root, i4);
    lemma_write(d2, t3, i3, 0, t3, i3);
    let d3 = m3.deallocated(t3).0;
    let m4 = paging::with_entry(d3, root, i4, 0);
    lemma_write(d3, root, i4, 0, root, i4);
    let end = paging::unmapped(memory, root, page).0;
    assert(end == m1 || end == m2 || end == m3 || end == m4);
}

/// A table that was made for a page, with those below it: its frame was free and is
/// allocated, and it has no entry but the one for the page.
pub open spec fn made_for(
    before: MemoryView,
    after: MemoryView,
    table: u64,
    page: u64,
    level: int,
) -> bool
    decreases level,
{
    let index = address::table_index(page, level);
    let entry = paging::entry_of(after, table, index);
    level < 1 || {
        &&& is_table(table)
        &&& before.frames.free.contains(table as int / 4096)
        &&& forall|i: int| 0 <= i < 512 && i != index ==> #[trigger] paging::entry_of(after, table, i)
            == 0
        &&& level == 1 ==> entry == 0
        &&& level > 1 ==> paging::is_present(entry) && !paging::is_huge(entry) && made_for(
            before,
            after,
            paging::target_of(entry),
            page,
            level - 1,
        )
    }
}

/// A table that was there before: its entry for the page leads where it led, or to a
/// table that was made for the page.
pub open spec fn extended(
    before: MemoryView,
    after: MemoryView,
    table: u64,
    page: u64,
    level: int,
) -> bool
    decreases level,
{
    let index = address::table_index(page, level);
    let entry = paging::entry_of(after, table, index);
    let next = paging::target_of(entry);
    level <= 1 || {
        &&& paging::is_present(entry)
        &&& !paging::is_huge(entry)
        &&& if paging::is_present(paging::entry_of(before, table, index)) {
            !paging::is_huge(paging::entry_of(before, table, index)) && next
                == paging::target_of(paging::entry_of(before, table, index)) && extended(
                before,
                after,
                next,
                page,
                level - 1,
            )
        } else {
            made_for(before, after, next, page, level - 1)
        }
    }
}

/// The frames of the tables below a table that were free before.
pub open spec fn new_frames(
    before: MemoryView,
    after: MemoryView,
    table: u64,
    page: u64,
    level: int,
) -> Set<int>
    decreases level,
{
    let next = paging::target_of(
        paging::entry_of(after, table, address::table_index(page, level)),
    );
    if level <= 1 {
        Set::empty()
    } else {
        let below = new_frames(before, after, next, page, level - 1);
        if before.frames.free.contains(next as int / 4096) {
            below.insert(next as int / 4096)
        } else {
            below
        }
    }
}

/// What opening the tables of a new table does.
proof fn lemma_opened_new(
    memory: MemoryView,
    start: MemoryView,
    table: u64,
    page: u64,
    level: int,
    for_user: bool,
)
    requires
        memory.wf(),
        low_frames_reserved(memory),
        1 <= level <= 4,
        is_table(table),
        !memory.frames.free.contains(table as int / 4096),
        start.frames.free.contains(table as int / 4096),
        memory.frames.free.subset_of(start.frames.free),
        forall|i: int| 0 <= i < 512 ==> #[trigger] paging::entry_of(memory, table, i) == 0,
        paging::opened(memory, table, page, level, for_user).1 is Ok,
    ensures
        ({
            let after = paging::opened(memory, table, page, level, for_user).0;
            &&& made_for(start, after, table, page, level)
            &&& forall|t: u64, i: int|
                is_table(t) && t != table && !memory.frames.free.contains(t as int / 4096) && 0 <= i
                    < 512 ==> #[trigger] paging::entry_of(after, t, i) == paging::entry_of(
                    memory,
                    t,
                    i,
                )
            &&& after.wf()
            &&& after.frames.initialized == memory.frames.initialized
            &&& after.frames.free.subset_of(memory.frames.free)
            &&& after.frames.free == memory.frames.free.difference(
                new_frames(start, after, table, page, level),
            )
            &&& after.frames.allocated == memory.frames.allocated.union(
                new_frames(start, after, table, page, level),
            )
            &&& new_frames(start, after, table, page, level).subset_of(memory.frames.free)
        }),
    decreases level,
{
    let index = address::table_index(page, level);
    lemma_index(page, level);
    lemma_entry_bits(0, 0, 0);
    let entry = paging::entry_of(memory, table, index);
    assert(entry == 0);
    if level >= 2 {
        lemma_allocated(memory);
        let user_bit = if for_user {
            ENTRY_USER
        } else {
            0
        };
        let (taken, result) = memory.allocated();
        let made = result->Ok_0.spec_u64();
        lemma_entry_bits(made, 0, 0);
        let value = made | ENTRY_PRESENT | ENTRY_WRITABLE | user_bit;
        let zeroed = taken.zeroed(made as int);
        let linked = paging::with_entry(zeroed, table, index, value);
        assert forall|t: u64, i: int| is_table(t) && 0 <= i < 512 implies #[trigger]
            paging::entry_of(linked, t, i) == (if t == table && i == index {
            value
        } else if t == made {
            0
        } else {
            paging::entry_of(memory, t, i)
        }) by {
            lemma_write(zeroed, table, index, value, t, i);
            lemma_zeroed(taken, made, t, i);
            assert(paging::entry_of(taken, t, i) == paging::entry_of(memory, t, i));
        }
        lemma_opened_new(linked, start, made, page, level - 1, for_user);
        let after = paging::opened(linked, made, page, level - 1, for_user).0;
        assert forall|i: int| 0 <= i < 512 implies #[trigger] paging::entry_of(after, table, i)
            == paging::entry_of(linked, table, i) by {}
        assert(paging::entry_of(after, table, index) == value);
        assert forall|i: int| 0 <= i < 512 && i != index implies #[trigger] paging::entry_of(
            after,
            table,
            i,
        ) == 0 by {
            assert(paging::entry_of(linked, table, i) == paging::entry_of(memory, table, i));
        }
        let below = new_frames(start, after, made, page, level - 1);
        let all = new_frames(start, after, table, page, level);
        assert(all =~= below.insert(made as int / 4096));
        assert(after.frames.free =~= memory.frames.free.difference(all));
        assert(after.frames.allocated =~= memory.frames.allocated.union(all));
        assert forall|t: u64, i: int|
            is_table(t) && t != table && !memory.frames.free.contains(t as int / 4096) && 0 <= i
                < 512 implies #[trigger] paging::entry_of(after, t, i) == paging::entry_of(
            memory,
            t,
            i,
        ) by {
            assert(paging::entry_of(after, t, i) == paging::entry_of(linked, t, i));
        }
    } else {
        let after = paging::opened(memory, table, page, level, for_user).0;
        let all = new_frames(start, after, table, page, level);
        assert(memory.frames.free.difference(all) =~= memory.frames.free);
        assert(memory.frames.allocated.union(all) =~= memory.frames.allocated);
    }
}

/// What opening the tables of a table does that was there.
proof fn lemma_opened_old(
    memory: MemoryView,
    start: MemoryView,
    table: u64,
    page: u64,
    level: int,
    for_user: bool,
    above: Set<u64>,
)
    requires
        memory.wf(),
        low_frames_reserved(memory),
        1 <= level <= 4,
        start.frames == memory.frames,
        separate(memory, table, page, level, above),
        forall|t: u64, i: int|
            is_table(t) && !above.contains(t) && 0 <= i < 512 ==> #[trigger] paging::entry_of(
                memory,
                t,
                i,
            ) == paging::entry_of(start, t, i),
        paging::opened(memory, table, page, level, for_user).1 is Ok,
    ensures
        ({
            let after = paging::opened(memory, table, page, level, for_user).0;
            &&& extended(start, after, table, page, level)
            &&& forall|t: u64, i: int|
                is_table(t) && !memory.frames.free.contains(t as int / 4096) && 0 <= i < 512
                    && paging::entry_of(memory, t, i) != 0 ==> #[trigger] paging::entry_of(
                    after,
                    t,
                    i,
                ) != 0
            &&& forall|t: u64, i: int|
                above.contains(t) && is_table(t) && !memory.frames.free.contains(t as int / 4096)
                    && 0 <= i < 512 ==> #[trigger] paging::entry_of(after, t, i)
                    == paging::entry_of(memory, t, i)
            &&& after.wf()
            &&& after.frames.initialized == memory.frames.initialized
            &&& after.frames.free == memory.frames.free.difference(
                new_frames(start, after, table, page, level),
            )
            &&& after.frames.allocated == memory.frames.allocated.union(
                new_frames(start, after, table, page, level),
            )
            &&& new_frames(start, after, table, page, level).subset_of(memory.frames.free)
        }),
    decreases level,
{
    let index = address::table_index(page, level);
    lemma_index(page, level);
    let after = paging::opened(memory, table, page, level, for_user).0;
    if level >= 2 {
        let entry = paging::entry_of(memory, table, index);
        assert(entry == paging::entry_of(start, table, index));
        let below = above.insert(table);
        let user_bit = if for_user {
            ENTRY_USER
        } else {
            0
        };
        if !paging::is_present(entry) {
            lemma_allocated(memory);
            let (taken, result) = memory.allocated();
            let made = result->Ok_0.spec_u64();
            lemma_entry_bits(made, entry, 0);
            let value = made | ENTRY_PRESENT | ENTRY_WRITABLE | user_bit;
            let zeroed = taken.zeroed(made as int);
            let linked = paging::with_entry(zeroed, table, index, value);
            assert forall|t: u64, i: int| is_table(t) && 0 <= i < 512 implies #[trigger]
                paging::entry_of(linked, t, i) == (if t == table && i == index {
                value
            } else if t == made {
                0
            } else {
                paging::entry_of(memory, t, i)
            }) by {
                lemma_write(zeroed, table, index, value, t, i);
                lemma_zeroed(taken, made, t, i);
                assert(paging::entry_of(taken, t, i) == paging::entry_of(memory, t, i));
            }
            lemma_opened_new(linked, start, made, page, level - 1, for_user);
            assert(paging::entry_of(after, table, index) == value);
            lemma_nonzero(value);
            let all = new_frames(start, after, table, page, level);
            let fewer = new_frames(start, after, made, page, level - 1);
            assert(all =~= fewer.insert(made as int / 4096));
            assert(after.frames.free =~= memory.frames.free.difference(all));
            assert(after.frames.allocated =~= memory.frames.allocated.union(all));
            assert forall|t: u64, i: int|
                is_table(t) && !memory.frames.free.contains(t as int / 4096) && 0 <= i < 512
                    && paging::entry_of(memory, t, i) != 0 implies #[trigger] paging::entry_of(
                after,
                t,
                i,
            ) != 0 by {
                assert(t != made);
                assert(paging::entry_of(after, t, i) == paging::entry_of(linked, t, i));
            }
        } else {
            let value = if for_user {
                entry | ENTRY_USER
            } else {
                entry
            };
            let linked = if for_user {
                paging::with_entry(memory, table, index, value)
            } else {
                memory
            };
            lemma_entry_bits(0, entry, 0);
            let next = paging::target_of(value);
            assert(next == paging::target_of(entry));
            assert forall|t: u64, i: int| is_table(t) && 0 <= i < 512 implies #[trigger]
                paging::entry_of(linked, t, i) == (if t == table && i == index {
                value
            } else {
                paging::entry_of(memory, t, i)
            }) by {
                if for_user {
                    lemma_write(memory, table, index, value, t, i);
                }
            }
            lemma_separate_kept(memory, linked, next, page, level - 1, below, below);
            lemma_opened_old(linked, start, next, page, level - 1, for_user, below);
            assert(paging::entry_of(after, table, index) == value);
            lemma_nonzero(value);
            let all = new_frames(start, after, table, page, level);
            let fewer = new_frames(start, after, next, page, level - 1);
            assert(!start.frames.free.contains(next as int / 4096));
            assert(all =~= fewer);
            assert forall|t: u64, i: int|
                is_table(t) && !memory.frames.free.contains(t as int / 4096) && 0 <= i < 512
                    && paging::entry_of(memory, t, i) != 0 implies #[trigger] paging::entry_of(
                after,
                t,
                i,
            ) != 0 by {
                assert(paging::entry_of(linked, t, i) != 0);
            }
        }
    } else {
        let all = new_frames(start, after, table, page, level);
        assert(memory.frames.free.difference(all) =~= memory.frames.free);
        assert(memory.frames.allocated.union(all) =~= memory.frames.allocated);
    }
}

/// An entry that is present is not zero.
proof fn lemma_nonzero(entry: u64)
    by (bit_vector)
    ensures
        entry & 1u64 != 0 ==> entry != 0,
{
}

/// The lowest table on the way to a page that is there is the root or has another entry.
pub open spec fn bottom_kept(memory: MemoryView, table: u64, page: u64, level: int) -> bool
    decreases level,
{
    let index = address::table_index(page, level);
    let entry = paging::entry_of(memory, table, index);
    if level > 1 && paging::is_present(entry) {
        bottom_kept(memory, paging::target_of(entry), page, level - 1)
    } else {
        level == 4 || exists|i: int|
            0 <= i < 512 && i != index && #[trigger] paging::entry_of(memory, table, i) != 0
    }
}

/// The tables on the way to a page, below the root.
pub open spec fn chain(memory: MemoryView, root: u64, page: u64) -> (u64, u64, u64) {
    let third = paging::target_of(
        paging::entry_of(memory, root, address::table_index(page, 4)),
    );
    let second = paging::target_of(
        paging::entry_of(memory, third, address::table_index(page, 3)),
    );
    let first = paging::target_of(
        paging::entry_of(memory, second, address::table_index(page, 2)),
    );
    (third, second, first)
}

/// How the chain after opening tables relates to the one before: from some level down all
/// tables are new, and the table above them has another entry.
proof fn lemma_chain(before: MemoryView, opened: MemoryView, root: u64, page: u64)
    requires
        before.wf(),
        separate(before, root, page, 4, Set::empty()),
        bottom_kept(before, root, page, 4),
        extended(before, opened, root, page, 4),
        forall|t: u64, i: int|
            is_table(t) && !before.frames.free.contains(t as int / 4096) && 0 <= i < 512
                && paging::entry_of(before, t, i) != 0 ==> #[trigger] paging::entry_of(
                opened,
                t,
                i,
            ) != 0,
    ensures
        ({
            let (t3, t2, t1) = chain(opened, root, page);
            let free = before.frames.free;
            let new3 = free.contains(t3 as int / 4096);
            let new2 = free.contains(t2 as int / 4096);
            let new1 = free.contains(t1 as int / 4096);
            &&& new3 ==> new2
            &&& new2 ==> new1
            &&& new3 ==> made_for(before, opened, t3, page, 3)
            &&& new2 ==> made_for(before, opened, t2, page, 2)
            &&& new1 ==> made_for(before, opened, t1, page, 1)
            &&& !new3 && new2 ==> exists|i: int|
                0 <= i < 512 && i != address::table_index(page, 3) && #[trigger] paging::entry_of(
                    opened,
                    t3,
                    i,
                ) != 0
            &&& !new2 && new1 ==> exists|i: int|
                0 <= i < 512 && i != address::table_index(page, 2) && #[trigger] paging::entry_of(
                    opened,
                    t2,
                    i,
                ) != 0
            &&& !new1 ==> exists|i: int|
                0 <= i < 512 && i != address::table_index(page, 1) && #[trigger] paging::entry_of(
                    opened,
                    t1,
                    i,
                ) != 0
            &&& new_frames(before, opened, root, page, 4) == (if new3 {
                set![t3 as int / 4096, t2 as int / 4096, t1 as int / 4096]
            } else if new2 {
                set![t2 as int / 4096, t1 as int / 4096]
            } else if new1 {
                set![t1 as int / 4096]
            } else {
                Set::empty()
            })
        }),
{
    reveal_with_fuel(separate, 5);
    reveal_with_fuel(bottom_kept, 5);
    reveal_with_fuel(extended, 5);
    reveal_with_fuel(made_for, 4);
    reveal_with_fuel(new_frames, 5);
    let (t3, t2, t1) = chain(opened, root, page);
    let free = before.frames.free;
    let all = new_frames(before, opened, root, page, 4);
    let i4 = address::table_index(page, 4);
    let i3 = address::table_index(page, 3);
    let i2 = address::table_index(page, 2);
    let i1 = address::table_index(page, 1);
    if !paging::is_present(paging::entry_of(before, root, i4)) {
        assert(all =~= set![t3 as int / 4096, t2 as int / 4096, t1 as int / 4096]);
    } else if !paging::is_present(paging::entry_of(before, t3, i3)) {
        let i = choose|i: int|
            0 <= i < 512 && i != i3 && #[trigger] paging::entry_of(before, t3, i) != 0;
        assert(paging::entry_of(opened, t3, i) != 0);
        assert(all =~= set![t2 as int / 4096, t1 as int / 4096]);
    } else if !paging::is_present(paging::entry_of(before, t2, i2)) {
        let i = choose|i: int|
            0 <= i < 512 && i != i2 && #[trigger] paging::entry_of(before, t2, i) != 0;
        assert(paging::entry_of(opened, t2, i) != 0);
        assert(all =~= set![t1 as int / 4096]);
    } else {
        let i = choose|i: int|
            0 <= i < 512 && i != i1 && #[trigger] paging::entry_of(before, t1, i) != 0;
        assert(paging::entry_of(opened, t1, i) != 0);
        assert(all =~= Set::empty());
    }
}

/// Giving back empty tables, one step: an empty child that is allocated goes.
proof fn lemma_reclaim_step(
    memory: MemoryView,
    parents: Seq<u64>,
    page: u64,
    child: u64,
    depth: int,
)
    requires
        memory.wf(),
        memory.frames.initialized,
        0 <= depth < 3,
        is_table(child),
        is_table(parents[depth]),
        paging::is_empty(memory, child),
        child >= frame::LOW_MEMORY_END,
        memory.frames.allocated.contains(child as int / 4096),
    ensures
        ({
            let next = paging::with_entry(
                memory.deallocated(child).0,
                parents[depth],
                address::table_index(page, 4 - depth),
                0,
            );
            &&& next.wf()
            &&& next.frames.initialized
            &&& next.frames.free == memory.frames.free.insert(child as int / 4096)
            &&& next.frames.allocated == memory.frames.allocated.remove(child as int / 4096)
            &&& paging::reclaimed(memory, parents, page, child, depth) == paging::reclaimed(
                next,
                parents,
                page,
                parents[depth],
                depth - 1,
            )
            &&& forall|t: u64, i: int|
                is_table(t) && 0 <= i < 512 ==> #[trigger] paging::entry_of(next, t, i) == (if t
                    == parents[depth] && i == address::table_index(page, 4 - depth) {
                    0
                } else {
                    paging::entry_of(memory, t, i)
                })
        }),
{
    lemma_deallocated(memory, child);
    lemma_index(page, 4 - depth);
    let freed = memory.deallocated(child).0;
    let index = address::table_index(page, 4 - depth);
    let next = paging::with_entry(freed, parents[depth], index, 0);
    assert forall|t: u64, i: int| is_table(t) && 0 <= i < 512 implies #[trigger] paging::entry_of(
        next,
        t,
        i,
    ) == (if t == parents[depth] && i == index {
        0
    } else {
        paging::entry_of(memory, t, i)
    }) by {
        lemma_write(freed, parents[depth], index, 0, t, i);
        assert(paging::entry_of(freed, t, i) == paging::entry_of(memory, t, i));
    }
}

/// Giving back empty tables ends at a table that is not empty.
proof fn lemma_reclaim_end(
    memory: MemoryView,
    parents: Seq<u64>,
    page: u64,
    child: u64,
    depth: int,
    used: int,
)
    requires
        paging::table_ok(child),
        0 <= used < 512,
        paging::entry_of(memory, child, used) != 0,
    ensures
        paging::reclaimed(memory, parents, page, child, depth) == (
            memory,
            Ok::<(), MapError>(()),
        ),
{
    assert(!paging::is_empty(memory, child));
}

/// A mapping that is undone leaves nothing behind: unmapping a page that was just mapped
/// gives its frame, and the frames that are free and allocated are those from before,
/// so no table stays that was made for it.
#[verifier::rlimit(60)]
pub proof fn law_unmapping_undoes_mapping(
    memory: MemoryView,
    root: u64,
    page: u64,
    frame: u64,
    flags: MapFlags,
)
    requires
        memory.wf(),
        memory.frames.initialized,
        low_frames_reserved(memory),
        separate(memory, root, page, 4, Set::empty()),
        bottom_kept(memory, root, page, 4),
        frame % 4096 == 0,
        flags.0 & ADDRESS_MASK == 0,
        paging::mapped(memory, root, page, frame, flags).1 is Ok,
    ensures
        ({
            let mapped = paging::mapped(memory, root, page, frame, flags).0;
            let (after, result) = paging::unmapped(mapped, root, page);
            &&& result == Ok::<u64, MapError>(frame)
            &&& after.frames.free == memory.frames.free
            &&& after.frames.allocated == memory.frames.allocated
        }),
{
    reveal(paging::mapped);
    reveal(paging::unmapped);
    let for_user = flags.has(ENTRY_USER);
    lemma_opened(memory, root, page, 4, for_user, Set::empty());
    lemma_opened_old(memory, memory, root, page, 4, for_user, Set::empty());
    let (opened, leaf) = paging::opened(memory, root, page, 4, for_user);
    lemma_chain(memory, opened, root, page);
    let (t3, t2, t1) = chain(opened, root, page);
    let i4 = address::table_index(page, 4);
    let i3 = address::table_index(page, 3);
    let i2 = address::table_index(page, 2);
    let i1 = address::table_index(page, 1);
    lemma_index(page, 4);
    lemma_index(page, 3);
    lemma_index(page, 2);
    lemma_index(page, 1);
    assert(leaf->Ok_0 == t1 && is_table(root) && is_table(t3) && is_table(t2) && is_table(t1)
        && root != t3 && root != t2 && root != t1 && t3 != t2 && t3 != t1 && t2 != t1) by {
        reveal_with_fuel(separate, 5);
        reveal_with_fuel(walked, 5);
    }
    let value = frame | flags.0 | ENTRY_PRESENT;
    lemma_entry_bits(frame, 0, flags.0);
    let mapped = paging::with_entry(opened, t1, i1, value).flushed(Flush::Page(page));
    assert forall|t: u64, i: int| is_table(t) && 0 <= i < 512 implies #[trigger] paging::entry_of(
        mapped,
        t,
        i,
    ) == (if t == t1 && i == i1 {
        value
    } else {
        paging::entry_of(opened, t, i)
    }) by {
        lemma_write(opened, t1, i1, value, t, i);
    }
    assert(paging::leaf_table(mapped, root, page) == Ok::<u64, MapError>(t1)) by {
        reveal_with_fuel(walked, 5);
        assert(paging::entry_of(mapped, root, i4) == paging::entry_of(opened, root, i4));
        assert(paging::entry_of(mapped, t3, i3) == paging::entry_of(opened, t3, i3));
        assert(paging::entry_of(mapped, t2, i2) == paging::entry_of(opened, t2, i2));
    }
    let cleared = paging::with_entry(mapped, t1, i1, 0).flushed(Flush::Page(page));
    assert forall|t: u64, i: int| is_table(t) && 0 <= i < 512 implies #[trigger] paging::entry_of(
        cleared,
        t,
        i,
    ) == (if t == t1 && i == i1 {
        0
    } else {
        paging::entry_of(opened, t, i)
    }) by {
        lemma_write(mapped, t1, i1, 0, t, i);
        assert(paging::entry_of(mapped, t, i) == paging::entry_of(mapped, t, i));
    }
    let parents = seq![
        root,
        paging::parent_at(mapped, root, page, 1),
        paging::parent_at(mapped, root, page, 2),
    ];
    assert(parents[0] == root && parents[1] == t3 && parents[2] == t2) by {
        reveal_with_fuel(paging::parent_at, 4);
        reveal_with_fuel(walked, 5);
        assert(paging::entry_of(mapped, root, i4) == paging::entry_of(opened, root, i4));
        assert(paging::entry_of(mapped, t3, i3) == paging::entry_of(opened, t3, i3));
    }
    lemma_reclaim_all(memory, opened, cleared, root, page, parents);
}

/// Giving back the tables that were made for a page.
proof fn lemma_reclaim_all(
    before: MemoryView,
    opened: MemoryView,
    cleared: MemoryView,
    root: u64,
    page: u64,
    parents: Seq<u64>,
)
    requires
        before.wf(),
        before.frames.initialized,
        low_frames_reserved(before),
        separate(before, root, page, 4, Set::empty()),
        bottom_kept(before, root, page, 4),
        extended(before, opened, root, page, 4),
        forall|t: u64, i: int|
            is_table(t) && !before.frames.free.contains(t as int / 4096) && 0 <= i < 512
                && paging::entry_of(before, t, i) != 0 ==> #[trigger] paging::entry_of(
                opened,
                t,
                i,
            ) != 0,
        opened.frames.free == before.frames.free.difference(
            new_frames(before, opened, root, page, 4),
        ),
        opened.frames.allocated == before.frames.allocated.union(
            new_frames(before, opened, root, page, 4),
        ),
        cleared.wf(),
        cleared.frames == opened.frames,
        cleared.frames.initialized,
        is_table(root),
        is_table(chain(opened, root, page).0),
        is_table(chain(opened, root, page).1),
        is_table(chain(opened, root, page).2),
        ({
            let (t3, t2, t1) = chain(opened, root, page);
            &&& root != t3 && root != t2 && root != t1 && t3 != t2 && t3 != t1 && t2 != t1
            &&& parents[0] == root && parents[1] == t3 && parents[2] == t2
            &&& forall|t: u64, i: int|
                is_table(t) && 0 <= i < 512 ==> #[trigger] paging::entry_of(cleared, t, i) == (if t
                    == t1 && i == address::table_index(page, 1) {
                    0
                } else {
                    paging::entry_of(opened, t, i)
                })
        }),
    ensures
        ({
            let t1 = chain(opened, root, page).2;
            let (after, result) = paging::reclaimed(cleared, parents, page, t1, 2);
            &&& result is Ok
            &&& after.frames.free == before.frames.free
            &&& after.frames.allocated == before.frames.allocated
        }),
{
    lemma_chain(before, opened, root, page);
    let (t3, t2, t1) = chain(opened, root, page);
    let i4 = address::table_index(page, 4);
    let i3 = address::table_index(page, 3);
    let i2 = address::table_index(page, 2);
    let i1 = address::table_index(page, 1);
    lemma_index(page, 4);
    lemma_index(page, 3);
    lemma_index(page, 2);
    lemma_index(page, 1);
    let free = before.frames.free;
    let f3 = t3 as int / 4096;
    let f2 = t2 as int / 4096;
    let f1 = t1 as int / 4096;
    if !free.contains(f1) {
        let used = choose|i: int|
            0 <= i < 512 && i != i1 && #[trigger] paging::entry_of(opened, t1, i) != 0;
        assert(paging::entry_of(cleared, t1, used) != 0);
        lemma_reclaim_end(cleared, parents, page, t1, 2, used);
        assert(opened.frames.free =~= free);
        assert(opened.frames.allocated =~= before.frames.allocated);
    } else {
        reveal_with_fuel(made_for, 2);
        assert forall|i: int| 0 <= i < 512 implies #[trigger] paging::entry_of(cleared, t1, i)
            == 0 by {
            assert(paging::entry_of(cleared, t1, i) == (if i == i1 {
                0
            } else {
                paging::entry_of(opened, t1, i)
            }));
        }
        lemma_reclaim_step(cleared, parents, page, t1, 2);
        let m2 = paging::with_entry(cleared.deallocated(t1).0, t2, i2, 0);
        if !free.contains(f2) {
            let used = choose|i: int|
                0 <= i < 512 && i != i2 && #[trigger] paging::entry_of(opened, t2, i) != 0;
            assert(paging::entry_of(m2, t2, used) == paging::entry_of(cleared, t2, used));
            lemma_reclaim_end(m2, parents, page, t2, 1, used);
            assert(m2.frames.free =~= free);
            assert(m2.frames.allocated =~= before.frames.allocated);
        } else {
            assert forall|i: int| 0 <= i < 512 implies #[trigger] paging::entry_of(m2, t2, i)
                == 0 by {
                if i != i2 {
                    assert(paging::entry_of(m2, t2, i) == paging::entry_of(cleared, t2, i));
                    assert(paging::entry_of(opened, t2, i) == 0);
                }
            }
            lemma_reclaim_step(m2, parents, page, t2, 1);
            let m3 = paging::with_entry(m2.deallocated(t2).0, t3, i3, 0);
            if !free.contains(f3) {
                let used = choose|i: int|
                    0 <= i < 512 && i != i3 && #[trigger] paging::entry_of(opened, t3, i) != 0;
                assert(paging::entry_of(m3, t3, used) == paging::entry_of(m2, t3, used));
                assert(paging::entry_of(m2, t3, used) == paging::entry_of(cleared, t3, used));
                lemma_reclaim_end(m3, parents, page, t3, 0, used);
                assert(m3.frames.free =~= free);
                assert(m3.frames.allocated =~= before.frames.allocated);
            } else {
                assert forall|i: int| 0 <= i < 512 implies #[trigger] paging::entry_of(m3, t3, i)
                    == 0 by {
                    if i != i3 {
                        assert(paging::entry_of(m3, t3, i) == paging::entry_of(m2, t3, i));
                        assert(paging::entry_of(m2, t3, i) == paging::entry_of(cleared, t3, i));
                        assert(paging::entry_of(opened, t3, i) == 0);
                    }
                }
                lemma_reclaim_step(m3, parents, page, t3, 0);
                let m4 = paging::with_entry(m3.deallocated(t3).0, root, i4, 0);
                assert(paging::reclaimed(m4, parents, page, root, -1) == (
                    m4,
                    Ok::<(), MapError>(()),
                ));
                assert(m4.frames.free =~= free);
                assert(m4.frames.allocated =~= before.frames.allocated);
            }
        }
    }
}

/// Whether a table is on the way to a page.
pub open spec fn on_way(memory: MemoryView, table: u64, page: u64, level: int, other: u64) -> bool
    decreases level,
{
    let entry = paging::entry_of(memory, table, address::table_index(page, level));
    level >= 1 && paging::table_ok(table) && (other == table || (level > 1 && on_way(
        memory,
        paging::target_of(entry),
        page,
        level - 1,
        other,
    )))
}

/// The page of an address.
pub open spec fn page_number(at: int) -> u64 {
    (at - at % 4096) as u64
}

/// The user may write all bytes from `at` to `end`, no page of them holds a table on the
/// way to another, and no frame is mapped at two of their pages.
pub open spec fn writable_apart(memory: MemoryView, root: u64, at: int, end: int) -> bool {
    &&& forall|a: int|
        at <= a < end ==> (#[trigger] paging::user_mapping(memory, root, a as u64, true)) is Ok
    &&& forall|a: int, b: int, t: u64|
        at <= a < end && at <= b < end && #[trigger] on_way(memory, root, page_number(b), 4, t)
            ==> t as int / 4096 != (#[trigger] paging::user_mapping(
            memory,
            root,
            a as u64,
            true,
        ))->Ok_0 as int / 4096
    &&& forall|a: int, b: int|
        at <= a < end && at <= b < end && (#[trigger] paging::user_mapping(
            memory,
            root,
            a as u64,
            true,
        ))->Ok_0 == (#[trigger] paging::user_mapping(memory, root, b as u64, true))->Ok_0 ==> a
            / 4096 == b / 4096
}

/// The way to a page depends on its tables alone.
proof fn lemma_way_kept(
    memory: MemoryView,
    after: MemoryView,
    table: u64,
    page: u64,
    write: bool,
    level: int,
)
    requires
        1 <= level <= 4,
        table % 4096 == 0,
        forall|t: u64, i: int|
            t % 4096 == 0 && on_way(memory, table, page, level, t) && 0 <= i < 512
                ==> #[trigger] paging::entry_of(after, t, i) == paging::entry_of(memory, t, i),
    ensures
        paging::user_frame(after, table, page, write, level) == paging::user_frame(
            memory,
            table,
            page,
            write,
            level,
        ),
        forall|t: u64|
            on_way(after, table, page, level, t) == #[trigger] on_way(
                memory,
                table,
                page,
                level,
                t,
            ),
    decreases level,
{
    let index = address::table_index(page, level);
    lemma_index(page, level);
    if paging::table_ok(table) {
        let entry = paging::entry_of(memory, table, index);
        assert(on_way(memory, table, page, level, table));
        assert(paging::entry_of(after, table, index) == entry);
        if level > 1 {
            paging::lemma_masks(entry);
            let next = paging::target_of(entry);
            assert forall|t: u64, i: int|
                t % 4096 == 0 && on_way(memory, next, page, level - 1, t) && 0 <= i < 512 implies #[trigger]
                paging::entry_of(after, t, i) == paging::entry_of(memory, t, i) by {
                assert(on_way(memory, table, page, level, t));
            }
            lemma_way_kept(memory, after, next, page, write, level - 1);
            assert forall|t: u64| on_way(after, table, page, level, t) == #[trigger] on_way(
                memory,
                table,
                page,
                level,
                t,
            ) by {
                assert(on_way(memory, next, page, level - 1, t) == on_way(
                    after,
                    next,
                    page,
                    level - 1,
                    t,
                ));
            }
        }
    }
}

/// Who may write may read the same.
proof fn lemma_write_reads(memory: MemoryView, table: u64, page: u64, level: int)
    ensures
        paging::user_frame(memory, table, page, true, level) is Ok ==> paging::user_frame(
            memory,
            table,
            page,
            false,
            level,
        ) == paging::user_frame(memory, table, page, true, level),
    decreases level,
{
    if level > 1 {
        let entry = paging::entry_of(memory, table, address::table_index(page, level));
        lemma_write_reads(memory, paging::target_of(entry), page, level - 1);
    }
}

/// The frame of a user page is a page.
proof fn lemma_frame_aligned(memory: MemoryView, table: u64, page: u64, write: bool, level: int)
    ensures
        paging::user_frame(memory, table, page, write, level) matches Ok(frame) ==> frame % 4096
            == 0,
    decreases level,
{
    let entry = paging::entry_of(memory, table, address::table_index(page, level));
    paging::lemma_masks(entry);
    if level > 1 {
        lemma_frame_aligned(memory, paging::target_of(entry), page, write, level - 1);
    }
}

/// Where a byte of the user lies.
spec fn place(memory: MemoryView, root: u64, at: int) -> int {
    paging::user_mapping(memory, root, at as u64, true)->Ok_0 + at % 4096
}

/// The state after bytes were stored in the page of a user.
spec fn chunk_stored(memory: MemoryView, root: u64, current: int, bytes: Seq<u8>) -> MemoryView {
    MemoryView {
        words: physical::stored(memory.words, place(memory, root, current), bytes),
        ..memory
    }
}

/// A user page that may be written is a page of memory.
proof fn lemma_place(memory: MemoryView, root: u64, start: int, end: int, at: int)
    requires
        writable_apart(memory, root, start, end),
        4096 <= start <= at < end <= USER_ADDRESS_LIMIT,
    ensures
        paging::user_mapping(memory, root, at as u64, true) is Ok,
        paging::user_mapping(memory, root, at as u64, true)->Ok_0 % 4096 == 0,
        paging::user_mapping(memory, root, at as u64, true)->Ok_0 <= 0x000f_ffff_ffff_f000,
{
    assert(paging::user_mapping(memory, root, at as u64, true) is Ok);
    paging::lemma_user_frame_range(memory, root, at as u64, true);
    lemma_frame_aligned(memory, root, page_number(at), true, 4);
}

/// Storing bytes for a user changes no table on the way to one of its bytes.
proof fn lemma_chunk_way(
    memory: MemoryView,
    root: u64,
    start: int,
    end: int,
    current: int,
    bytes: Seq<u8>,
    at: int,
)
    requires
        memory.wf(),
        root % 4096 == 0,
        4096 <= start <= current < end <= USER_ADDRESS_LIMIT,
        writable_apart(memory, root, start, end),
        current % 4096 + bytes.len() <= 4096,
        current + bytes.len() <= end,
        start <= at < end,
    ensures
        paging::user_mapping(
            chunk_stored(memory, root, current, bytes),
            root,
            at as u64,
            true,
        ) == paging::user_mapping(memory, root, at as u64, true),
        forall|t: u64|
            on_way(chunk_stored(memory, root, current, bytes), root, page_number(at), 4, t)
                == #[trigger] on_way(memory, root, page_number(at), 4, t),
{
    let frame = paging::user_mapping(memory, root, current as u64, true)->Ok_0;
    let base = place(memory, root, current);
    let after = chunk_stored(memory, root, current, bytes);
    lemma_place(memory, root, start, end, current);
    let page = page_number(at);
    assert forall|t: u64, i: int|
        t % 4096 == 0 && on_way(memory, root, page, 4, t) && 0 <= i < 512 implies #[trigger] paging::entry_of(
        after,
        t,
        i,
    ) == paging::entry_of(memory, t, i) by {
        lemma_on_way_ok(memory, root, page, 4, t);
        assert(t as int / 4096 != frame as int / 4096);
        let word = (t + i * 8) / 8;
        assert(word == t as int / 8 + i);
        physical::lemma_stored_words(memory.words, base, bytes, word);
    }
    lemma_way_kept(memory, after, root, page, true, 4);
}

/// Bytes behind each other that do not reach the end of a page lie in one page.
proof fn lemma_one_page(current: int, length: int, at: int)
    requires
        0 <= current <= at < current + length,
        current % 4096 + length <= 4096,
    ensures
        at - at % 4096 == current - current % 4096,
        at / 4096 == current / 4096,
{
}

/// A byte that is stored for a user lies as far behind the first as it is meant to.
#[verifier::spinoff_prover]
proof fn lemma_place_inside(memory: MemoryView, root: u64, current: int, length: int, at: int)
    requires
        0 <= current <= at < current + length <= USER_ADDRESS_LIMIT,
        current % 4096 + length <= 4096,
    ensures
        place(memory, root, at) == place(memory, root, current) + (at - current),
{
    lemma_one_page(current, length, at);
}

/// A byte of a user outside those that are stored lies outside of them in memory.
#[verifier::spinoff_prover]
#[verifier::rlimit(40)]
proof fn lemma_place_outside(
    memory: MemoryView,
    root: u64,
    start: int,
    end: int,
    current: int,
    length: int,
    at: int,
)
    requires
        memory.wf(),
        root % 4096 == 0,
        4096 <= start <= current < end <= USER_ADDRESS_LIMIT,
        writable_apart(memory, root, start, end),
        current % 4096 + length <= 4096,
        start <= at < end,
        at < current || current + length <= at,
        length >= 0,
    ensures
        place(memory, root, at) < place(memory, root, current) || place(memory, root, current)
            + length <= place(memory, root, at),
{
    lemma_place(memory, root, start, end, current);
    lemma_place(memory, root, start, end, at);
    let frame = paging::user_mapping(memory, root, current as u64, true)->Ok_0;
    if paging::user_mapping(memory, root, at as u64, true)->Ok_0 == frame {
        assert(at / 4096 == current / 4096);
    }
}

/// Storing bytes for a user changes those bytes and no other of its bytes.
#[verifier::spinoff_prover]
#[verifier::rlimit(40)]
proof fn lemma_chunk_byte(
    memory: MemoryView,
    root: u64,
    start: int,
    end: int,
    current: int,
    bytes: Seq<u8>,
    at: int,
)
    requires
        memory.wf(),
        root % 4096 == 0,
        4096 <= start <= current < end <= USER_ADDRESS_LIMIT,
        writable_apart(memory, root, start, end),
        current % 4096 + bytes.len() <= 4096,
        current + bytes.len() <= end,
        start <= at < end,
    ensures
        physical::byte_at(
            chunk_stored(memory, root, current, bytes).words,
            place(memory, root, at),
        ) == (if current <= at < current + bytes.len() {
            bytes[at - current]
        } else {
            physical::byte_at(memory.words, place(memory, root, at))
        }),
        chunk_stored(memory, root, current, bytes).wf(),
{
    let base = place(memory, root, current);
    lemma_place(memory, root, start, end, current);
    lemma_place(memory, root, start, end, at);
    physical::lemma_stored(memory.words, base, bytes, place(memory, root, at));
    if current <= at < current + bytes.len() {
        lemma_place_inside(memory, root, current, bytes.len() as int, at);
    } else {
        lemma_place_outside(memory, root, start, end, current, bytes.len() as int, at);
    }
}

/// Storing bytes for a user leaves its pages apart.
proof fn lemma_chunk_apart(
    memory: MemoryView,
    root: u64,
    start: int,
    end: int,
    current: int,
    bytes: Seq<u8>,
)
    requires
        memory.wf(),
        root % 4096 == 0,
        4096 <= start <= current < end <= USER_ADDRESS_LIMIT,
        writable_apart(memory, root, start, end),
        current % 4096 + bytes.len() <= 4096,
        current + bytes.len() <= end,
    ensures
        writable_apart(chunk_stored(memory, root, current, bytes), root, start, end),
{
    let after = chunk_stored(memory, root, current, bytes);
    assert forall|a: int| start <= a < end implies (#[trigger] paging::user_mapping(
        after,
        root,
        a as u64,
        true,
    )) is Ok by {
        lemma_chunk_way(memory, root, start, end, current, bytes, a);
        lemma_place(memory, root, start, end, a);
    }
    assert forall|a: int, b: int, t: u64|
        start <= a < end && start <= b < end && #[trigger] on_way(
            after,
            root,
            page_number(b),
            4,
            t,
        ) implies t as int / 4096 != (#[trigger] paging::user_mapping(
        after,
        root,
        a as u64,
        true,
    ))->Ok_0 as int / 4096 by {
        lemma_chunk_way(memory, root, start, end, current, bytes, a);
        lemma_chunk_way(memory, root, start, end, current, bytes, b);
        assert(on_way(memory, root, page_number(b), 4, t));
    }
    assert forall|a: int, b: int|
        start <= a < end && start <= b < end && (#[trigger] paging::user_mapping(
            after,
            root,
            a as u64,
            true,
        ))->Ok_0 == (#[trigger] paging::user_mapping(after, root, b as u64, true))->Ok_0 implies a
        / 4096 == b / 4096 by {
        lemma_chunk_way(memory, root, start, end, current, bytes, a);
        lemma_chunk_way(memory, root, start, end, current, bytes, b);
    }
}

proof fn lemma_on_way_ok(memory: MemoryView, table: u64, page: u64, level: int, other: u64)
    requires
        on_way(memory, table, page, level, other),
    ensures
        paging::table_ok(other),
    decreases level,
{
    if other != table {
        let entry = paging::entry_of(memory, table, address::table_index(page, level));
        lemma_on_way_ok(memory, paging::target_of(entry), page, level - 1, other);
    }
}

proof fn lemma_user_stored(memory: MemoryView, root: u64, at: u64, bytes: Seq<u8>, done: int)
    requires
        memory.wf(),
        root % 4096 == 0,
        4096 <= at,
        at + bytes.len() <= USER_ADDRESS_LIMIT,
        0 <= done <= bytes.len(),
        writable_apart(memory, root, at as int, at + bytes.len()),
    ensures
        ({
            let (after, result) = paging::user_stored(memory, root, at, bytes, done);
            &&& result is Ok
            &&& writable_apart(after, root, at as int, at + bytes.len())
            &&& forall|a: int|
                at <= a < at + bytes.len() ==> #[trigger] paging::user_mapping(
                    after,
                    root,
                    a as u64,
                    true,
                ) == paging::user_mapping(memory, root, a as u64, true)
            &&& forall|i: int|
                0 <= i < bytes.len() ==> #[trigger] physical::byte_at(
                    after.words,
                    place(memory, root, at + i),
                ) == (if i < done {
                    physical::byte_at(memory.words, place(memory, root, at + i))
                } else {
                    bytes[i]
                })
        }),
    decreases bytes.len() - done,
{
    if done < bytes.len() {
        let current = at + done;
        let length = paging::chunk(current, bytes.len() - done);
        let part = bytes.subrange(done, done + length);
        let end = at + bytes.len();
        assert(paging::user_mapping(memory, root, current as u64, true) is Ok);
        let next = chunk_stored(memory, root, current as int, part);
        lemma_chunk_apart(memory, root, at as int, end as int, current as int, part);
        lemma_chunk_byte(
            memory,
            root,
            at as int,
            end as int,
            current as int,
            part,
            current as int,
        );
        lemma_user_stored(next, root, at, bytes, done + length);
        let after = paging::user_stored(next, root, at, bytes, done + length).0;
        assert forall|a: int| at <= a < at + bytes.len() implies #[trigger] paging::user_mapping(
            after,
            root,
            a as u64,
            true,
        ) == paging::user_mapping(memory, root, a as u64, true) by {
            lemma_chunk_way(memory, root, at as int, end as int, current as int, part, a);
        }
        assert forall|i: int| 0 <= i < bytes.len() implies #[trigger] physical::byte_at(
            after.words,
            place(memory, root, at + i),
        ) == (if i < done {
            physical::byte_at(memory.words, place(memory, root, at + i))
        } else {
            bytes[i]
        }) by {
            lemma_chunk_way(memory, root, at as int, end as int, current as int, part, at + i);
            lemma_chunk_byte(memory, root, at as int, end as int, current as int, part, at + i);
            assert(place(next, root, at + i) == place(memory, root, at + i));
            assert(physical::byte_at(after.words, place(next, root, at + i)) == (if i < done
                + length {
                physical::byte_at(next.words, place(next, root, at + i))
            } else {
                bytes[i]
            }));
        }
    }
}

/// What was copied to a user is copied from there again, where the pages hold no tables
/// and no frame is mapped at two of them.
pub proof fn law_user_copies_come_back(memory: MemoryView, root: u64, at: u64, bytes: Seq<u8>)
    requires
        memory.wf(),
        root % 4096 == 0,
        0 < bytes.len() <= isize::MAX,
        4096 <= at,
        at + bytes.len() <= USER_ADDRESS_LIMIT,
        writable_apart(memory, root, at as int, at + bytes.len()),
    ensures
        ({
            let (after, result) = paging::copied_to_user(memory, root, at, bytes);
            &&& result is Ok
            &&& paging::access_checked(after, root, at, bytes.len() as usize, false) is Ok
            &&& forall|i: int|
                0 <= i < bytes.len() ==> #[trigger] paging::user_byte(after, root, at + i)
                    == bytes[i]
        }),
{
    let end = at + bytes.len();
    lemma_validated(memory, root, at as int, end as int, true, at as int);
    lemma_user_stored(memory, root, at, bytes, 0);
    let after = paging::user_stored(memory, root, at, bytes, 0).0;
    lemma_validated(after, root, at as int, end as int, false, at as int);
    assert forall|i: int| 0 <= i < bytes.len() implies #[trigger] paging::user_byte(
        after,
        root,
        at + i,
    ) == bytes[i] by {
        let a = at + i;
        assert(paging::user_mapping(after, root, a as u64, true) == paging::user_mapping(
            memory,
            root,
            a as u64,
            true,
        ));
        assert(paging::user_mapping(after, root, a as u64, true) is Ok);
        lemma_write_reads(after, root, page_number(a), 4);
        assert(physical::byte_at(after.words, place(memory, root, at + i)) == bytes[i]);
    }
}

proof fn lemma_validated(
    memory: MemoryView,
    root: u64,
    start: int,
    end: int,
    write: bool,
    at: int,
)
    requires
        4096 <= start <= at,
        end <= USER_ADDRESS_LIMIT,
        writable_apart(memory, root, start, end),
    ensures
        paging::range_validated(memory, root, at, end, write) is Ok,
    decreases end - at,
{
    if at < end {
        assert(paging::user_mapping(memory, root, at as u64, true) is Ok);
        lemma_write_reads(memory, root, page_number(at), 4);
        lemma_validated(memory, root, start, end, write, at + paging::chunk(at, end - at));
    }
}

} // verus!
