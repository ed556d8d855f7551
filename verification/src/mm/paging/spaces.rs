//! What holds of user address spaces as a whole: the tables below a root are a tree, and a
//! copy of a space reads as the space did.
use crate::mm::address;
use crate::mm::address::USER_ADDRESS_LIMIT;
use crate::mm::frame;
use crate::mm::paging;
use crate::mm::paging::laws;
use crate::mm::paging::{
    Cloning, MapFlags, UserCopyError, ADDRESS_MASK, ENTRY_NO_EXECUTE, ENTRY_PRESENT,
    ENTRY_USER, ENTRY_WRITABLE,
};
use crate::mm::physical;
use crate::mm::physical::{Flush, MemoryView};
use vstd::prelude::*;

verus! {

/// A page that a user may have.
pub open spec fn is_user_page(page: u64) -> bool {
    page % 4096 == 0 && page < USER_ADDRESS_LIMIT
}

/// Which entry of a level a page falls under, counted through all tables of the level.
spec fn part(page: u64, level: int) -> int {
    if level >= 5 {
        0
    } else {
        page as int / address::entry_span(level)
    }
}

proof fn lemma_part(page: u64, level: int)
    requires
        page < USER_ADDRESS_LIMIT,
        1 <= level <= 4,
    ensures
        address::table_index(page, level) == part(page, level) % 512,
        part(page, level + 1) == part(page, level) / 512,
        0 <= address::table_index(page, level) < 512,
        level == 4 ==> address::table_index(page, 4) < 256,
{
}

/// The table of a level on the way to a page.
pub open spec fn table_at(memory: MemoryView, root: u64, page: u64, level: int) -> Option<u64>
    decreases 4 - level,
{
    if level >= 4 {
        Some(root)
    } else {
        match table_at(memory, root, page, level + 1) {
            None => None,
            Some(table) => {
                let entry = paging::entry_of(
                    memory,
                    table,
                    address::table_index(page, level + 1),
                );
                if paging::is_present(entry) && !paging::is_huge(entry) {
                    Some(paging::target_of(entry))
                } else {
                    None
                }
            },
        }
    }
}

/// The entry of level 1 for a page; zero if there is none.
pub open spec fn leaf_of(memory: MemoryView, root: u64, page: u64) -> u64 {
    match table_at(memory, root, page, 1) {
        None => 0,
        Some(table) => paging::entry_of(memory, table, address::table_index(page, 1)),
    }
}

proof fn lemma_same_part(memory: MemoryView, root: u64, p: u64, q: u64, level: int)
    requires
        is_user_page(p),
        is_user_page(q),
        1 <= level <= 4,
        part(p, level + 1) == part(q, level + 1),
    ensures
        table_at(memory, root, p, level) == table_at(memory, root, q, level),
    decreases 4 - level,
{
    if level < 4 {
        lemma_part(p, level + 1);
        lemma_part(q, level + 1);
        lemma_same_part(memory, root, p, q, level + 1);
    }
}

/// Every table on the way to a user page is among these, and is a table.
spec fn tables_listed(memory: MemoryView, root: u64, tables: Set<int>) -> bool {
    forall|page: u64, level: int|
        is_user_page(page) && 1 <= level <= 4 ==> (#[trigger] table_at(memory, root, page, level)
            matches Some(table) ==> laws::is_table(table) && tables.contains(table as int / 4096))
}

/// No table is at two places.
spec fn tables_differ(memory: MemoryView, root: u64) -> bool {
    forall|p: u64, q: u64, l: int, m: int|
        is_user_page(p) && is_user_page(q) && 1 <= l <= 4 && 1 <= m <= 4 && #[trigger] table_at(
            memory,
            root,
            p,
            l,
        ) is Some && table_at(memory, root, p, l) == #[trigger] table_at(memory, root, q, m) ==> l
            == m && part(p, l + 1) == part(q, l + 1)
}

/// An entry above level 1 that is there lets a user in, and write.
spec fn ways_open(memory: MemoryView, root: u64) -> bool {
    forall|page: u64, level: int|
        is_user_page(page) && 2 <= level <= 4 ==> (#[trigger] table_at(memory, root, page, level)
            matches Some(table) ==> {
            let entry = paging::entry_of(memory, table, address::table_index(page, level));
            paging::is_present(entry) ==> !paging::is_huge(entry) && entry & ENTRY_USER != 0
                && entry & ENTRY_WRITABLE != 0
        })
}

/// The frames of user pages are in use, hold no table, and were not in use before.
spec fn leaves_apart(memory: MemoryView, root: u64, tables: Set<int>, fresh: Set<int>) -> bool {
    &&& forall|page: u64|
        is_user_page(page) && paging::is_present(#[trigger] leaf_of(memory, root, page)) ==> {
            let number = paging::target_of(leaf_of(memory, root, page)) as int / 4096;
            fresh.contains(number) && !tables.contains(number) && !memory.frames.free.contains(
                number,
            )
        }
    &&& forall|p: u64, q: u64|
        is_user_page(p) && is_user_page(q) && paging::is_present(
            #[trigger] leaf_of(memory, root, p),
        ) && paging::is_present(#[trigger] leaf_of(memory, root, q)) && paging::target_of(
            leaf_of(memory, root, p),
        ) as int / 4096 == paging::target_of(leaf_of(memory, root, q)) as int / 4096 ==> p == q
}

/// The tables below a root are a tree of tables of its own.
#[verifier::opaque]
spec fn sound(memory: MemoryView, root: u64, tables: Set<int>, fresh: Set<int>) -> bool {
    &&& memory.wf()
    &&& tables_listed(memory, root, tables)
    &&& tables_differ(memory, root)
    &&& ways_open(memory, root)
    &&& leaves_apart(memory, root, tables, fresh)
    &&& tables.disjoint(memory.frames.free)
    &&& tables.subset_of(fresh)
    &&& memory.frames.free.subset_of(fresh)
}

/// What asking for a frame gives.
proof fn lemma_taken(memory: MemoryView)
    requires
        memory.wf(),
        memory.allocated().1 is Ok,
    ensures
        ({
            let (after, result) = memory.allocated();
            let taken = result->Ok_0.spec_u64();
            &&& laws::is_table(taken)
            &&& memory.frames.free.contains(taken as int / 4096)
            &&& after.frames.free == memory.frames.free.remove(taken as int / 4096)
            &&& after == (MemoryView { frames: after.frames, ..memory })
            &&& after.wf()
        }),
{
    frame::lemma_allocation_exists(memory.frames, memory.node);
    assert(memory.frames.initialized);
    assert(laws::low_frames_reserved(memory));
    laws::lemma_allocated(memory);
}

/// The tree depends on the words of its tables alone.
proof fn lemma_same_tables(
    a: MemoryView,
    b: MemoryView,
    root: u64,
    tables: Set<int>,
    page: u64,
    level: int,
)
    requires
        tables_listed(a, root, tables),
        forall|i: int|
            0 <= i < physical::WORDS && tables.contains(i / 512) ==> #[trigger] b.words[i]
                == a.words[i],
        is_user_page(page),
        1 <= level <= 4,
    ensures
        table_at(b, root, page, level) == table_at(a, root, page, level),
        table_at(a, root, page, level) matches Some(table) ==> forall|i: int|
            0 <= i < 512 ==> #[trigger] paging::entry_of(b, table, i) == paging::entry_of(
                a,
                table,
                i,
            ),
    decreases 4 - level,
{
    if level < 4 {
        lemma_same_tables(a, b, root, tables, page, level + 1);
        lemma_part(page, level + 1);
    }
    if let Some(table) = table_at(a, root, page, level) {
        assert forall|i: int| 0 <= i < 512 implies #[trigger] paging::entry_of(b, table, i)
            == paging::entry_of(a, table, i) by {
            assert((table + i * 8) / 8 == table as int / 8 + i);
            assert((table as int / 8 + i) / 512 == table as int / 4096);
        }
    }
}

/// A tree whose tables keep their words is the same tree, as long as no more becomes free.
proof fn lemma_tree_kept(a: MemoryView, b: MemoryView, root: u64, tables: Set<int>, fresh: Set<int>)
    requires
        sound(a, root, tables, fresh),
        forall|i: int|
            0 <= i < physical::WORDS && tables.contains(i / 512) ==> #[trigger] b.words[i]
                == a.words[i],
        b.wf(),
        b.frames.free.subset_of(a.frames.free),
    ensures
        sound(b, root, tables, fresh),
        forall|page: u64|
            is_user_page(page) ==> #[trigger] leaf_of(b, root, page) == leaf_of(a, root, page),
        forall|page: u64, level: int|
            is_user_page(page) && 1 <= level <= 4 ==> #[trigger] table_at(b, root, page, level)
                == table_at(a, root, page, level),
{
    reveal(sound);
    assert forall|page: u64, level: int| is_user_page(page) && 1 <= level <= 4 implies #[trigger]
        table_at(b, root, page, level) == table_at(a, root, page, level) by {
        lemma_same_tables(a, b, root, tables, page, level);
    }
    assert forall|page: u64| is_user_page(page) implies #[trigger] leaf_of(b, root, page)
        == leaf_of(a, root, page) by {
        lemma_same_tables(a, b, root, tables, page, 1);
        lemma_part(page, 1);
    }
    assert forall|page: u64, level: int| is_user_page(page) && 2 <= level <= 4 implies (
    #[trigger] table_at(b, root, page, level) matches Some(table) ==> {
        let entry = paging::entry_of(b, table, address::table_index(page, level));
        paging::is_present(entry) ==> !paging::is_huge(entry) && entry & ENTRY_USER != 0 && entry
            & ENTRY_WRITABLE != 0
    }) by {
        lemma_same_tables(a, b, root, tables, page, level);
        lemma_part(page, level);
        assert(table_at(a, root, page, level) == table_at(b, root, page, level));
    }
    assert(tables_listed(b, root, tables)) by {
        assert forall|page: u64, level: int| is_user_page(page) && 1 <= level <= 4 implies (
        #[trigger] table_at(b, root, page, level) matches Some(table) ==> laws::is_table(table)
            && tables.contains(table as int / 4096)) by {
            assert(table_at(a, root, page, level) == table_at(b, root, page, level));
        }
    }
    assert(tables_differ(b, root)) by {
        assert forall|p: u64, q: u64, l: int, m: int|
            is_user_page(p) && is_user_page(q) && 1 <= l <= 4 && 1 <= m <= 4
                && #[trigger] table_at(b, root, p, l) is Some && table_at(b, root, p, l)
                == #[trigger] table_at(b, root, q, m) implies l == m && part(p, l + 1) == part(
            q,
            l + 1,
        ) by {
            assert(table_at(a, root, p, l) == table_at(b, root, p, l));
            assert(table_at(a, root, q, m) == table_at(b, root, q, m));
        }
    }
    assert(leaves_apart(b, root, tables, fresh));
}

proof fn lemma_entry_made(frame: u64, entry: u64)
    by (bit_vector)
    ensures
        frame % 4096 == 0 && frame < 0x1_0000_0000 ==> {
            &&& (frame | 1u64 | 2u64 | 4u64) & 0x000f_ffff_ffff_f000u64 == frame
            &&& (frame | 1u64 | 2u64 | 4u64) & 1u64 != 0
            &&& (frame | 1u64 | 2u64 | 4u64) & 2u64 != 0
            &&& (frame | 1u64 | 2u64 | 4u64) & 4u64 != 0
            &&& (frame | 1u64 | 2u64 | 4u64) & 0x80u64 == 0
        },
        entry & 4u64 != 0 ==> entry | 4u64 == entry,
        0u64 & 1u64 == 0,
{
}

/// The state with a new table below a table of the tree.
spec fn table_added(memory: MemoryView, table: u64, page: u64, level: int) -> MemoryView {
    let (after, result) = memory.allocated();
    let made = result->Ok_0.spec_u64();
    paging::with_entry(
        after.zeroed(made as int),
        table,
        address::table_index(page, level),
        made | ENTRY_PRESENT | ENTRY_WRITABLE | ENTRY_USER,
    )
}

/// What a new table changes: the entry that leads to it, and its own entries, which are zero.
proof fn lemma_added_words(memory: MemoryView, table: u64, page: u64, level: int)
    requires
        memory.wf(),
        memory.allocated().1 is Ok,
        laws::is_table(table),
        !memory.frames.free.contains(table as int / 4096),
        page < USER_ADDRESS_LIMIT,
        2 <= level <= 4,
    ensures
        ({
            let after = table_added(memory, table, page, level);
            let made = memory.allocated().1->Ok_0.spec_u64();
            let index = address::table_index(page, level);
            &&& after.wf()
            &&& after.frames.free == memory.frames.free.remove(made as int / 4096)
            &&& after == (MemoryView { words: after.words, frames: after.frames, ..memory })
            &&& made != table
            &&& forall|t: u64, i: int|
                laws::is_table(t) && 0 <= i < 512 ==> #[trigger] paging::entry_of(after, t, i) == (
                if t == table && i == index {
                    made | ENTRY_PRESENT | ENTRY_WRITABLE | ENTRY_USER
                } else if t == made {
                    0
                } else {
                    paging::entry_of(memory, t, i)
                })
            &&& forall|i: int|
                0 <= i < physical::WORDS && i / 512 != made as int / 4096 && i / 512 != table as int
                    / 4096 ==> #[trigger] after.words[i] == memory.words[i]
        }),
{
    lemma_taken(memory);
    lemma_part(page, level);
    let (taken, result) = memory.allocated();
    let made = result->Ok_0.spec_u64();
    let index = address::table_index(page, level);
    let value = made | ENTRY_PRESENT | ENTRY_WRITABLE | ENTRY_USER;
    let zeroed = taken.zeroed(made as int);
    let after = table_added(memory, table, page, level);
    assert(made as int / 4096 != table as int / 4096);
    assert forall|t: u64, i: int| laws::is_table(t) && 0 <= i < 512 implies #[trigger]
        paging::entry_of(after, t, i) == (if t == table && i == index {
        value
    } else if t == made {
        0
    } else {
        paging::entry_of(memory, t, i)
    }) by {
        laws::lemma_write(zeroed, table, index, value, t, i);
        laws::lemma_zeroed(taken, made, t, i);
        assert(paging::entry_of(taken, t, i) == paging::entry_of(memory, t, i));
    }
    assert((table + index * 8) / 8 == table as int / 8 + index);
    assert((table as int / 8 + index) / 512 == table as int / 4096);
}

/// The tables after one was added: it is where the entry leads, and all others stay.
proof fn lemma_added_at(
    memory: MemoryView,
    root: u64,
    page: u64,
    level: int,
    tables: Set<int>,
    q: u64,
    m: int,
)
    requires
        memory.wf(),
        tables_listed(memory, root, tables),
        tables_differ(memory, root),
        tables.disjoint(memory.frames.free),
        memory.allocated().1 is Ok,
        is_user_page(page),
        is_user_page(q),
        2 <= level <= 4,
        1 <= m <= 4,
        table_at(memory, root, page, level) is Some,
        !paging::is_present(
            paging::entry_of(
                memory,
                table_at(memory, root, page, level).unwrap(),
                address::table_index(page, level),
            ),
        ),
    ensures
        ({
            let table = table_at(memory, root, page, level).unwrap();
            let made = memory.allocated().1->Ok_0.spec_u64();
            table_at(table_added(memory, table, page, level), root, q, m) == (if m == level - 1
                && part(q, level) == part(page, level) {
                Some(made)
            } else {
                table_at(memory, root, q, m)
            })
        }),
    decreases 4 - m,
{
    let table = table_at(memory, root, page, level).unwrap();
    let made = memory.allocated().1->Ok_0.spec_u64();
    let after = table_added(memory, table, page, level);
    lemma_taken(memory);
    lemma_added_words(memory, table, page, level);
    if m < 4 {
        lemma_added_at(memory, root, page, level, tables, q, m + 1);
        lemma_part(q, m + 1);
        lemma_part(page, level);
        lemma_part(q, level);
        lemma_entry_made(made, 0);
        let index = address::table_index(q, m + 1);
        let up = table_at(memory, root, q, m + 1);
        if part(q, level) == part(page, level) {
            lemma_same_part(memory, root, page, q, level);
        }
        if m + 1 == level - 1 && part(q, level) == part(page, level) {
            assert(paging::entry_of(after, made, index) == 0);
            assert(table_at(memory, root, q, level) == Some(table));
            assert(table_at(memory, root, q, level - 1) is None);
        } else if let Some(above) = up {
            assert(tables.contains(above as int / 4096));
            assert(above != made);
            if above == table {
                assert(table_at(memory, root, page, level) == table_at(memory, root, q, m + 1));
                assert(m + 1 == level && part(page, level + 1) == part(q, level + 1));
                assert(part(q, level) == 512 * (part(q, level) / 512) + part(q, level) % 512);
                assert(part(page, level) == 512 * (part(page, level) / 512) + part(page, level)
                    % 512);
            }
            if m == level - 1 && part(q, level) == part(page, level) {
                assert(above == table);
            }
        }
    }
}

/// Adding a table keeps a tree a tree, and adds no page.
#[verifier::spinoff_prover]
#[verifier::rlimit(40)]
proof fn lemma_added(
    memory: MemoryView,
    root: u64,
    page: u64,
    level: int,
    tables: Set<int>,
    fresh: Set<int>,
)
    requires
        sound(memory, root, tables, fresh),
        memory.allocated().1 is Ok,
        is_user_page(page),
        2 <= level <= 4,
        table_at(memory, root, page, level) is Some,
        !paging::is_present(
            paging::entry_of(
                memory,
                table_at(memory, root, page, level).unwrap(),
                address::table_index(page, level),
            ),
        ),
    ensures
        ({
            let table = table_at(memory, root, page, level).unwrap();
            let made = memory.allocated().1->Ok_0.spec_u64();
            let after = table_added(memory, table, page, level);
            &&& sound(after, root, tables.insert(made as int / 4096), fresh)
            &&& after.frames.free == memory.frames.free.remove(made as int / 4096)
            &&& memory.frames.free.contains(made as int / 4096)
            &&& after == (MemoryView { words: after.words, frames: after.frames, ..memory })
            &&& table_at(after, root, page, level - 1) == Some(made)
            &&& forall|q: u64|
                is_user_page(q) ==> #[trigger] leaf_of(after, root, q) == leaf_of(memory, root, q)
            &&& forall|i: int|
                0 <= i < physical::WORDS && !memory.frames.free.contains(i / 512)
                    && !tables.contains(i / 512) ==> #[trigger] after.words[i] == memory.words[i]
        }),
{
    reveal(sound);
    let table = table_at(memory, root, page, level).unwrap();
    let made = memory.allocated().1->Ok_0.spec_u64();
    let after = table_added(memory, table, page, level);
    let more = tables.insert(made as int / 4096);
    lemma_taken(memory);
    lemma_added_words(memory, table, page, level);
    lemma_entry_made(made, 0);
    assert forall|q: u64, m: int| is_user_page(q) && 1 <= m <= 4 implies #[trigger] table_at(
        after,
        root,
        q,
        m,
    ) == (if m == level - 1 && part(q, level) == part(page, level) {
        Some(made)
    } else {
        table_at(memory, root, q, m)
    }) by {
        lemma_added_at(memory, root, page, level, tables, q, m);
    }
    assert forall|q: u64| is_user_page(q) implies #[trigger] leaf_of(after, root, q) == leaf_of(
        memory,
        root,
        q,
    ) by {
        lemma_part(q, 1);
        lemma_part(q, level);
        let index = address::table_index(q, 1);
        let now = table_at(after, root, q, 1);
        if level == 2 && part(q, 2) == part(page, 2) {
            lemma_part(page, 2);
            lemma_same_part(memory, root, page, q, 2);
            assert(table_at(memory, root, q, 2) == Some(table));
            assert(table_at(memory, root, q, 1) is None);
            assert(paging::entry_of(after, made, index) == 0);
        } else if let Some(leaf) = now {
            assert(table_at(memory, root, q, 1) == Some(leaf));
            assert(tables.contains(leaf as int / 4096));
            if leaf == table {
                assert(table_at(memory, root, q, 1) == table_at(memory, root, page, level));
            }
            assert(paging::entry_of(after, leaf, index) == paging::entry_of(memory, leaf, index));
        }
    }
    assert(tables_listed(after, root, more)) by {
        assert forall|q: u64, m: int| is_user_page(q) && 1 <= m <= 4 implies (
        #[trigger] table_at(after, root, q, m) matches Some(t) ==> laws::is_table(t)
            && more.contains(t as int / 4096)) by {
            assert(table_at(memory, root, q, m) matches Some(t) ==> tables.contains(
                t as int / 4096,
            ));
        }
    }
    assert(tables_differ(after, root)) by {
        assert forall|p: u64, q: u64, l: int, m: int|
            is_user_page(p) && is_user_page(q) && 1 <= l <= 4 && 1 <= m <= 4
                && #[trigger] table_at(after, root, p, l) is Some && table_at(after, root, p, l)
                == #[trigger] table_at(after, root, q, m) implies l == m && part(p, l + 1)
            == part(q, l + 1) by {
            let one = table_at(memory, root, p, l);
            let two = table_at(memory, root, q, m);
            assert(one matches Some(t) ==> tables.contains(t as int / 4096));
            assert(two matches Some(t) ==> tables.contains(t as int / 4096));
        }
    }
    assert(ways_open(after, root)) by {
        assert forall|q: u64, m: int| is_user_page(q) && 2 <= m <= 4 implies (
        #[trigger] table_at(after, root, q, m) matches Some(t) ==> {
            let entry = paging::entry_of(after, t, address::table_index(q, m));
            paging::is_present(entry) ==> !paging::is_huge(entry) && entry & ENTRY_USER != 0
                && entry & ENTRY_WRITABLE != 0
        }) by {
            lemma_part(q, m);
            let was = table_at(memory, root, q, m);
            if let Some(t) = table_at(after, root, q, m) {
                assert(more.contains(t as int / 4096));
                if t != made {
                    assert(was == Some(t));
                }
            }
        }
    }
    assert(leaves_apart(after, root, more, fresh)) by {
        assert forall|q: u64|
            is_user_page(q) && paging::is_present(#[trigger] leaf_of(after, root, q)) implies {
            let number = paging::target_of(leaf_of(after, root, q)) as int / 4096;
            fresh.contains(number) && !more.contains(number) && !after.frames.free.contains(number)
        } by {
            assert(paging::is_present(leaf_of(memory, root, q)));
        }
    }
    lemma_part(page, level);
    assert(table_at(after, root, page, level - 1) == Some(made));
}

/// Opening the tables for a page keeps a tree a tree, and adds no page.
proof fn lemma_opened_tree(
    memory: MemoryView,
    root: u64,
    page: u64,
    level: int,
    tables: Set<int>,
    fresh: Set<int>,
) -> (more: Set<int>)
    requires
        sound(memory, root, tables, fresh),
        is_user_page(page),
        1 <= level <= 4,
        table_at(memory, root, page, level) is Some,
        paging::opened(
            memory,
            table_at(memory, root, page, level).unwrap(),
            page,
            level,
            true,
        ).1 is Ok,
    ensures
        ({
            let (after, leaf) = paging::opened(
                memory,
                table_at(memory, root, page, level).unwrap(),
                page,
                level,
                true,
            );
            &&& sound(after, root, more, fresh)
            &&& table_at(after, root, page, 1) == Some(leaf->Ok_0)
            &&& after == (MemoryView { words: after.words, frames: after.frames, ..memory })
            &&& after.frames.free.subset_of(memory.frames.free)
            &&& tables.subset_of(more)
            &&& forall|g: int|
                #[trigger] more.contains(g) ==> tables.contains(g) || memory.frames.free.contains(g)
            &&& forall|q: u64|
                is_user_page(q) ==> #[trigger] leaf_of(after, root, q) == leaf_of(memory, root, q)
            &&& forall|i: int|
                0 <= i < physical::WORDS && !memory.frames.free.contains(i / 512)
                    && !tables.contains(i / 512) ==> #[trigger] after.words[i] == memory.words[i]
        }),
    decreases level,
{
    let table = table_at(memory, root, page, level).unwrap();
    assert(memory.wf() && laws::is_table(table)) by {
        reveal(sound);
        assert(table_at(memory, root, page, level) == Some(table));
    }
    if level < 2 {
        tables
    } else {
        lemma_part(page, level);
        let index = address::table_index(page, level);
        let entry = paging::entry_of(memory, table, index);
        if !paging::is_present(entry) {
            lemma_added(memory, root, page, level, tables, fresh);
            lemma_taken(memory);
            let made = memory.allocated().1->Ok_0.spec_u64();
            lemma_entry_made(made, 0);
            let after = table_added(memory, table, page, level);
            lemma_opened_tree(
                after,
                root,
                page,
                level - 1,
                tables.insert(made as int / 4096),
                fresh,
            )
        } else {
            assert(!paging::is_huge(entry) && entry & ENTRY_USER != 0) by {
                reveal(sound);
                assert(table_at(memory, root, page, level) == Some(table));
            }
            lemma_entry_made(0, entry);
            let same = paging::with_entry(memory, table, index, entry | ENTRY_USER);
            assert((table + index * 8) / 8 == table as int / 8 + index);
            assert(same.words =~= memory.words);
            assert(same == memory);
            assert(table_at(memory, root, page, level - 1) == Some(paging::target_of(entry)));
            lemma_opened_tree(memory, root, page, level - 1, tables, fresh)
        }
    }
}

pub proof fn lemma_leaf_bits(frame: u64, flags: u64)
    by (bit_vector)
    ensures
        frame % 4096 == 0 && frame < 0x1_0000_0000 && flags & 0x000f_ffff_ffff_f000u64 == 0 ==> {
            &&& (frame | flags | 1u64) & 0x000f_ffff_ffff_f000u64 == frame
            &&& (frame | flags | 1u64) & 2u64 == flags & 2u64
            &&& (frame | flags | 1u64) & 4u64 == flags & 4u64
            &&& (frame | flags | 1u64) & 0x8000_0000_0000_0000u64 == flags
                & 0x8000_0000_0000_0000u64
        },
        (frame | flags | 1u64) & 1u64 != 0,
        flags & 4u64 == 4u64 ==> flags & 4u64 != 0,
{
}

/// A frame that no page of a tree has, and that no table is in.
spec fn unmapped_frame(
    memory: MemoryView,
    root: u64,
    frame: u64,
    tables: Set<int>,
    fresh: Set<int>,
) -> bool {
    &&& frame % 4096 == 0
    &&& fresh.contains(frame as int / 4096)
    &&& !tables.contains(frame as int / 4096)
    &&& !memory.frames.free.contains(frame as int / 4096)
    &&& forall|q: u64|
        is_user_page(q) && paging::is_present(#[trigger] leaf_of(memory, root, q))
            ==> paging::target_of(leaf_of(memory, root, q)) as int / 4096 != frame as int / 4096
}

/// Writing an entry of level 1 changes the page of that entry and nothing else.
#[verifier::spinoff_prover]
#[verifier::rlimit(40)]
proof fn lemma_leaf_set(
    memory: MemoryView,
    root: u64,
    page: u64,
    value: u64,
    tables: Set<int>,
    fresh: Set<int>,
)
    requires
        sound(memory, root, tables, fresh),
        is_user_page(page),
        table_at(memory, root, page, 1) is Some,
        paging::is_present(value),
        unmapped_frame(memory, root, paging::target_of(value), tables, fresh),
    ensures
        ({
            let table = table_at(memory, root, page, 1).unwrap();
            let after = paging::with_entry(
                memory,
                table,
                address::table_index(page, 1),
                value,
            );
            &&& sound(after, root, tables, fresh)
            &&& forall|q: u64|
                is_user_page(q) ==> #[trigger] leaf_of(after, root, q) == (if q == page {
                    value
                } else {
                    leaf_of(memory, root, q)
                })
            &&& forall|i: int|
                0 <= i < physical::WORDS && !tables.contains(i / 512)
                    ==> #[trigger] after.words[i] == memory.words[i]
        }),
{
    reveal(sound);
    let table = table_at(memory, root, page, 1).unwrap();
    let index = address::table_index(page, 1);
    let after = paging::with_entry(memory, table, index, value);
    lemma_part(page, 1);
    assert(laws::is_table(table) && tables.contains(table as int / 4096));
    assert((table + index * 8) / 8 == table as int / 8 + index);
    assert((table as int / 8 + index) / 512 == table as int / 4096);
    assert forall|t: u64, i: int| laws::is_table(t) && 0 <= i < 512 implies #[trigger]
        paging::entry_of(after, t, i) == (if t == table && i == index {
        value
    } else {
        paging::entry_of(memory, t, i)
    }) by {
        laws::lemma_write(memory, table, index, value, t, i);
    }
    assert forall|q: u64, m: int| is_user_page(q) && 1 <= m <= 4 implies #[trigger] table_at(
        after,
        root,
        q,
        m,
    ) == table_at(memory, root, q, m) by {
        lemma_leaf_tables(memory, after, root, page, q, m, tables);
    }
    assert forall|q: u64| is_user_page(q) implies #[trigger] leaf_of(after, root, q) == (if q
        == page {
        value
    } else {
        leaf_of(memory, root, q)
    }) by {
        lemma_part(q, 1);
        if let Some(t) = table_at(memory, root, q, 1) {
            assert(table_at(after, root, q, 1) == Some(t));
            if t == table && address::table_index(q, 1) == index {
                assert(table_at(memory, root, page, 1) == table_at(memory, root, q, 1));
                assert(part(page, 2) == part(q, 2));
                assert(part(q, 1) == 512 * (part(q, 1) / 512) + part(q, 1) % 512);
                assert(part(page, 1) == 512 * (part(page, 1) / 512) + part(page, 1) % 512);
                assert(part(q, 1) == part(page, 1));
                assert(q as int / 4096 == page as int / 4096);
                assert(q == page);
            }
        } else {
            assert(table_at(after, root, q, 1) is None);
            assert(q != page);
        }
    }
    assert(tables_listed(after, root, tables)) by {
        assert forall|q: u64, m: int| is_user_page(q) && 1 <= m <= 4 implies (
        #[trigger] table_at(after, root, q, m) matches Some(t) ==> laws::is_table(t)
            && tables.contains(t as int / 4096)) by {
            assert(table_at(memory, root, q, m) == table_at(after, root, q, m));
        }
    }
    assert(tables_differ(after, root)) by {
        assert forall|p: u64, q: u64, l: int, m: int|
            is_user_page(p) && is_user_page(q) && 1 <= l <= 4 && 1 <= m <= 4
                && #[trigger] table_at(after, root, p, l) is Some && table_at(after, root, p, l)
                == #[trigger] table_at(after, root, q, m) implies l == m && part(p, l + 1)
            == part(q, l + 1) by {
            assert(table_at(memory, root, p, l) == table_at(after, root, p, l));
            assert(table_at(memory, root, q, m) == table_at(after, root, q, m));
        }
    }
    assert(ways_open(after, root)) by {
        assert forall|q: u64, m: int| is_user_page(q) && 2 <= m <= 4 implies (
        #[trigger] table_at(after, root, q, m) matches Some(t) ==> {
            let entry = paging::entry_of(after, t, address::table_index(q, m));
            paging::is_present(entry) ==> !paging::is_huge(entry) && entry & ENTRY_USER != 0
                && entry & ENTRY_WRITABLE != 0
        }) by {
            lemma_part(q, m);
            assert(table_at(memory, root, q, m) == table_at(after, root, q, m));
            if table_at(memory, root, q, m) == Some(table) {
                assert(table_at(memory, root, q, m) == table_at(memory, root, page, 1));
            }
        }
    }
    assert(leaves_apart(after, root, tables, fresh)) by {
        assert forall|q: u64|
            is_user_page(q) && paging::is_present(#[trigger] leaf_of(after, root, q)) implies {
            let number = paging::target_of(leaf_of(after, root, q)) as int / 4096;
            fresh.contains(number) && !tables.contains(number) && !after.frames.free.contains(
                number,
            )
        } by {
            if q != page {
                assert(paging::is_present(leaf_of(memory, root, q)));
            }
        }
        assert forall|p: u64, q: u64|
            is_user_page(p) && is_user_page(q) && paging::is_present(
                #[trigger] leaf_of(after, root, p),
            ) && paging::is_present(#[trigger] leaf_of(after, root, q)) && paging::target_of(
                leaf_of(after, root, p),
            ) as int / 4096 == paging::target_of(leaf_of(after, root, q)) as int / 4096 implies p
            == q by {
            if p != page {
                assert(paging::is_present(leaf_of(memory, root, p)));
            }
            if q != page {
                assert(paging::is_present(leaf_of(memory, root, q)));
            }
        }
    }
}

/// Writing an entry of level 1 moves no table.
proof fn lemma_leaf_tables(
    memory: MemoryView,
    after: MemoryView,
    root: u64,
    page: u64,
    q: u64,
    m: int,
    tables: Set<int>,
)
    requires
        tables_listed(memory, root, tables),
        tables_differ(memory, root),
        is_user_page(page),
        is_user_page(q),
        1 <= m <= 4,
        table_at(memory, root, page, 1) is Some,
        forall|t: u64, i: int|
            laws::is_table(t) && 0 <= i < 512 && t != table_at(memory, root, page, 1).unwrap()
                ==> #[trigger] paging::entry_of(after, t, i) == paging::entry_of(memory, t, i),
    ensures
        table_at(after, root, q, m) == table_at(memory, root, q, m),
    decreases 4 - m,
{
    if m < 4 {
        lemma_leaf_tables(memory, after, root, page, q, m + 1, tables);
        lemma_part(q, m + 1);
        if let Some(t) = table_at(memory, root, q, m + 1) {
            if Some(t) == table_at(memory, root, page, 1) {
                assert(table_at(memory, root, page, 1) == table_at(memory, root, q, m + 1));
            }
        }
    }
}

/// Mapping a frame in a tree gives the page that frame and changes no other page.
proof fn lemma_mapped_tree(
    memory: MemoryView,
    root: u64,
    page: u64,
    frame: u64,
    flags: MapFlags,
    tables: Set<int>,
    fresh: Set<int>,
) -> (more: Set<int>)
    requires
        sound(memory, root, tables, fresh),
        is_user_page(page),
        unmapped_frame(memory, root, frame, tables, fresh),
        flags.has(ENTRY_USER),
        flags.0 & ADDRESS_MASK == 0,
        paging::mapped(memory, root, page, frame, flags).1 is Ok,
    ensures
        ({
            let after = paging::mapped(memory, root, page, frame, flags).0;
            &&& sound(after, root, more, fresh)
            &&& after.frames.free.subset_of(memory.frames.free)
            &&& after.root == memory.root && after.node == memory.node
            &&& tables.subset_of(more)
            &&& forall|g: int|
                #[trigger] more.contains(g) ==> tables.contains(g) || memory.frames.free.contains(g)
            &&& !paging::is_present(leaf_of(memory, root, page))
            &&& forall|q: u64|
                is_user_page(q) ==> #[trigger] leaf_of(after, root, q) == (if q == page {
                    frame | flags.0 | ENTRY_PRESENT
                } else {
                    leaf_of(memory, root, q)
                })
            &&& forall|i: int|
                0 <= i < physical::WORDS && !memory.frames.free.contains(i / 512)
                    && !tables.contains(i / 512) ==> #[trigger] after.words[i] == memory.words[i]
        }),
{
    reveal(paging::mapped);
    let more = lemma_opened_tree(memory, root, page, 4, tables, fresh);
    let (opened, leaf) = paging::opened(memory, root, page, 4, true);
    let value = frame | flags.0 | ENTRY_PRESENT;
    lemma_leaf_bits(frame, flags.0);
    assert(leaf_of(opened, root, page) == leaf_of(memory, root, page));
    assert(unmapped_frame(opened, root, frame, more, fresh)) by {
        assert forall|q: u64|
            is_user_page(q) && paging::is_present(#[trigger] leaf_of(opened, root, q)) implies
            paging::target_of(leaf_of(opened, root, q)) as int / 4096 != frame as int / 4096 by {
            assert(leaf_of(opened, root, q) == leaf_of(memory, root, q));
        }
    }
    lemma_leaf_set(opened, root, page, value, more, fresh);
    let set = paging::with_entry(opened, leaf->Ok_0, address::table_index(page, 1), value);
    let after = set.flushed(Flush::Page(page));
    assert(after.wf()) by {
        reveal(sound);
    }
    lemma_tree_kept(set, after, root, more, fresh);
    assert forall|q: u64| is_user_page(q) implies #[trigger] leaf_of(after, root, q) == (if q
        == page {
        value
    } else {
        leaf_of(memory, root, q)
    }) by {
        assert(leaf_of(set, root, q) == leaf_of(after, root, q));
        assert(leaf_of(opened, root, q) == leaf_of(memory, root, q));
    }
    assert forall|i: int|
        0 <= i < physical::WORDS && !memory.frames.free.contains(i / 512) && !tables.contains(
            i / 512,
        ) implies #[trigger] after.words[i] == memory.words[i] by {
        assert(!more.contains(i / 512));
        assert(set.words[i] == opened.words[i]);
        assert(opened.words[i] == memory.words[i]);
    }
    more
}

/// Copying the upper half of a table to another leaves all but the upper half of that one.
proof fn lemma_upper(memory: MemoryView, source: u64, target: u64, count: int)
    requires
        memory.words.len() == physical::WORDS,
        laws::is_table(target),
        0 <= count <= 256,
    ensures
        ({
            let after = paging::upper_copied(memory, source, target, count);
            &&& after == (MemoryView { words: after.words, ..memory })
            &&& after.words.len() == memory.words.len()
            &&& forall|i: int|
                0 <= i < physical::WORDS && !(target as int / 8 + 256 <= i < target as int / 8
                    + 512) ==> #[trigger] after.words[i] == memory.words[i]
        }),
    decreases count,
{
    if count > 0 {
        lemma_upper(memory, source, target, count - 1);
        assert((target + (255 + count) * 8) / 8 == target as int / 8 + 255 + count);
    }
}

/// A new address space is a tree with no page.
proof fn lemma_created(memory: MemoryView)
    requires
        memory.wf(),
        paging::space_created(memory).1 is Ok,
    ensures
        ({
            let (after, root) = paging::space_created(memory);
            let root = root->Ok_0;
            &&& laws::is_table(root)
            &&& memory.frames.free.contains(root as int / 4096)
            &&& sound(after, root, set![root as int / 4096], memory.frames.free)
            &&& after.frames.free == memory.frames.free.remove(root as int / 4096)
            &&& after.root == memory.root && after.node == memory.node
            &&& forall|q: u64| is_user_page(q) ==> #[trigger] leaf_of(after, root, q) == 0
            &&& forall|i: int|
                0 <= i < physical::WORDS && !memory.frames.free.contains(i / 512)
                    ==> #[trigger] after.words[i] == memory.words[i]
        }),
{
    lemma_taken(memory);
    let (taken, result) = memory.allocated();
    let root = result->Ok_0.spec_u64();
    let zeroed = taken.zeroed(root as int);
    let kernel = paging::target_of(memory.root);
    lemma_upper(zeroed, kernel, root, 256);
    let after = paging::space_created(memory).0;
    let tables = set![root as int / 4096];
    lemma_entry_made(0, 0);
    assert forall|q: u64, m: int| is_user_page(q) && 1 <= m <= 4 implies #[trigger] table_at(
        after,
        root,
        q,
        m,
    ) == (if m == 4 {
        Some(root)
    } else {
        None
    }) by {
        lemma_nothing_below(after, root, q, m);
    }
    assert(sound(after, root, tables, memory.frames.free)) by {
        reveal(sound);
        assert forall|q: u64| is_user_page(q) implies #[trigger] leaf_of(after, root, q) == 0 by {
            assert(table_at(after, root, q, 1) is None);
        }
        assert forall|p: u64, q: u64, l: int, m: int|
            is_user_page(p) && is_user_page(q) && 1 <= l <= 4 && 1 <= m <= 4
                && #[trigger] table_at(after, root, p, l) is Some && table_at(after, root, p, l)
                == #[trigger] table_at(after, root, q, m) implies l == m && part(p, l + 1)
            == part(q, l + 1) by {}
        assert forall|q: u64, m: int| is_user_page(q) && 2 <= m <= 4 implies (
        #[trigger] table_at(after, root, q, m) matches Some(t) ==> {
            let entry = paging::entry_of(after, t, address::table_index(q, m));
            paging::is_present(entry) ==> !paging::is_huge(entry) && entry & ENTRY_USER != 0
                && entry & ENTRY_WRITABLE != 0
        }) by {
            if m == 4 {
                lemma_lower_zero(after, root, q);
            }
        }
    }
    assert forall|q: u64| is_user_page(q) implies #[trigger] leaf_of(after, root, q) == 0 by {
        assert(table_at(after, root, q, 1) is None);
    }
    assert forall|i: int|
        0 <= i < physical::WORDS && !memory.frames.free.contains(i / 512) implies
        #[trigger] after.words[i] == memory.words[i] by {
        assert(i / 512 != root as int / 4096);
        if root as int / 8 + 256 <= i < root as int / 8 + 512 {
            assert(i / 512 == root as int / 4096);
        }
        assert(zeroed.words[i] == memory.words[i]);
    }
}

/// The lower half of a root whose words there are zero has no entry for a user page.
proof fn lemma_lower_zero(memory: MemoryView, root: u64, page: u64)
    requires
        laws::is_table(root),
        memory.words.len() == physical::WORDS,
        is_user_page(page),
        forall|i: int|
            root as int / 8 <= i < root as int / 8 + 256 ==> #[trigger] memory.words[i] == 0,
    ensures
        paging::entry_of(memory, root, address::table_index(page, 4)) == 0,
{
    lemma_part(page, 4);
    let index = address::table_index(page, 4);
    assert((root + index * 8) / 8 == root as int / 8 + index);
}

proof fn lemma_nothing_below(memory: MemoryView, root: u64, page: u64, level: int)
    requires
        laws::is_table(root),
        memory.words.len() == physical::WORDS,
        is_user_page(page),
        1 <= level <= 4,
        forall|i: int|
            root as int / 8 <= i < root as int / 8 + 256 ==> #[trigger] memory.words[i] == 0,
    ensures
        table_at(memory, root, page, level) == (if level == 4 {
            Some(root)
        } else {
            None
        }),
    decreases 4 - level,
{
    if level < 4 {
        lemma_nothing_below(memory, root, page, level + 1);
        lemma_lower_zero(memory, root, page);
        lemma_entry_made(0, 0);
    }
}

/// What a space uses is not free: the tables on the way to its user pages, and the frames of
/// the pages.
pub open spec fn in_use(memory: MemoryView, root: u64) -> bool {
    &&& forall|page: u64, level: int|
        is_user_page(page) && 1 <= level <= 4 ==> (#[trigger] table_at(memory, root, page, level)
            matches Some(table) ==> !memory.frames.free.contains(table as int / 4096))
    &&& forall|page: u64|
        is_user_page(page) && paging::is_present(#[trigger] leaf_of(memory, root, page))
            ==> !memory.frames.free.contains(
            paging::target_of(leaf_of(memory, root, page)) as int / 4096,
        )
}

/// What was in use holds what it held.
pub open spec fn used_kept(before: MemoryView, after: MemoryView) -> bool {
    forall|i: int|
        0 <= i < physical::WORDS && !before.frames.free.contains(i / 512)
            ==> #[trigger] after.words[i] == before.words[i]
}

/// The bits of an entry of level 1 that its copy has too.
spec fn copied_bits() -> u64 {
    0x8000_0000_0000_001f
}

/// Whether an entry of level 1 lets a user in.
spec fn is_user_leaf(leaf: u64) -> bool {
    leaf & 5u64 == 5u64
}

/// The page of one space is a copy of that of another, as it was.
spec fn page_copied(
    start: MemoryView,
    source: u64,
    now: MemoryView,
    target: u64,
    page: u64,
) -> bool {
    let from = leaf_of(start, source, page);
    let to = leaf_of(now, target, page);
    &&& paging::is_present(to)
    &&& to & copied_bits() == from & copied_bits()
    &&& forall|j: int|
        0 <= j < 512 ==> #[trigger] now.words[paging::target_of(to) as int / 8 + j]
            == start.words[paging::target_of(from) as int / 8 + j]
}

proof fn lemma_copied_bits(leaf: u64, frame: u64)
    by (bit_vector)
    ensures
        leaf & (1u64 | 2u64 | 4u64 | 8u64 | 16u64 | 0x8000_0000_0000_0000u64) == leaf
            & 0x8000_0000_0000_001fu64,
        (leaf & 0x8000_0000_0000_001fu64) & 0x000f_ffff_ffff_f000u64 == 0,
        leaf & 5u64 == 5u64 ==> (leaf & 0x8000_0000_0000_001fu64) & 4u64 == 4u64,
        leaf & 5u64 == 5u64 && frame % 4096 == 0 && frame < 0x1_0000_0000 ==> (frame | (leaf
            & 0x8000_0000_0000_001fu64) | 1u64) & 0x8000_0000_0000_001fu64 == leaf
            & 0x8000_0000_0000_001fu64,
        (leaf & 0x000f_ffff_ffff_f000u64) % 4096 == 0,
        leaf & 0x000f_ffff_ffff_f000u64 <= 0x000f_ffff_ffff_f000u64,
        (leaf & 5u64 == 5u64) == (leaf & 1u64 != 0 && leaf & 4u64 != 0),
        1u64 | 4u64 == 5u64,
{
}

/// Copying one page: it becomes a page of the target, and nothing else changes there.
#[verifier::spinoff_prover]
#[verifier::rlimit(40)]
proof fn lemma_page_cloned(
    start: MemoryView,
    source: u64,
    state: Cloning,
    target: u64,
    page: u64,
    tables: Set<int>,
) -> (more: Set<int>)
    requires
        in_use(start, source),
        is_user_page(page),
        state.failure is None,
        used_kept(start, state.memory),
        start.words.len() == physical::WORDS,
        sound(state.memory, target, tables, start.frames.free),
        paging::page_cloned(
            state,
            target,
            page,
            leaf_of(start, source, page),
        ).failure is None,
    ensures
        ({
            let leaf = leaf_of(start, source, page);
            let after = paging::page_cloned(state, target, page, leaf).memory;
            &&& sound(after, target, more, start.frames.free)
            &&& used_kept(start, after)
            &&& after.frames.free.subset_of(state.memory.frames.free)
            &&& is_user_leaf(leaf) ==> page_copied(start, source, after, target, page)
            &&& !is_user_leaf(leaf) ==> leaf_of(after, target, page) == leaf_of(
                state.memory,
                target,
                page,
            )
            &&& forall|q: u64|
                is_user_page(q) && q != page ==> #[trigger] leaf_of(after, target, q) == leaf_of(
                    state.memory,
                    target,
                    q,
                )
            &&& forall|g: int|
                #[trigger] more.contains(g) ==> tables.contains(g)
                    || state.memory.frames.free.contains(g)
            &&& forall|i: int|
                0 <= i < physical::WORDS && !state.memory.frames.free.contains(i / 512)
                    && !tables.contains(i / 512) ==> #[trigger] after.words[i]
                    == state.memory.words[i]
        }),
{
    let leaf = leaf_of(start, source, page);
    let memory = state.memory;
    let fresh = start.frames.free;
    lemma_copied_bits(leaf, 0);
    if !is_user_leaf(leaf) {
        tables
    } else {
        assert(memory.wf() && tables.disjoint(memory.frames.free) && tables.subset_of(fresh)
            && memory.frames.free.subset_of(fresh)) by {
            reveal(sound);
        }
        lemma_taken(memory);
        let (taken, result) = memory.allocated();
        let frame = result->Ok_0.spec_u64();
        let from = paging::target_of(leaf);
        let copied = taken.copied(from as int, frame as int);
        let flags = paging::copied_flags(leaf);
        lemma_copied_bits(leaf, frame);
        assert(copied.wf());
        assert forall|i: int| 0 <= i < physical::WORDS && tables.contains(i / 512) implies
            #[trigger] copied.words[i] == memory.words[i] by {
            assert(i / 512 != frame as int / 4096);
        }
        lemma_tree_kept(memory, copied, target, tables, fresh);
        assert(unmapped_frame(copied, target, frame, tables, fresh)) by {
            reveal(sound);
            assert forall|q: u64|
                is_user_page(q) && paging::is_present(
                    #[trigger] leaf_of(copied, target, q),
                ) implies paging::target_of(leaf_of(copied, target, q)) as int / 4096
                != frame as int / 4096 by {
                assert(leaf_of(copied, target, q) == leaf_of(memory, target, q));
                assert(paging::is_present(leaf_of(memory, target, q)));
            }
        }
        let more = lemma_mapped_tree(copied, target, page, frame, flags, tables, fresh);
        let after = paging::mapped(copied, target, page, frame, flags).0;
        lemma_leaf_bits(frame, flags.0);
        assert(leaf_of(after, target, page) == frame | flags.0 | ENTRY_PRESENT);
        assert(paging::is_present(leaf));
        assert(!fresh.contains(from as int / 4096));
        assert forall|j: int| 0 <= j < 512 implies #[trigger] after.words[frame as int / 8 + j]
            == start.words[from as int / 8 + j] by {
            let i = frame as int / 8 + j;
            assert(i / 512 == frame as int / 4096);
            assert(i % 512 == j);
            assert(after.words[i] == copied.words[i]);
            assert(copied.words[i] == memory.words[from as int / 8 + j]);
            assert((from as int / 8 + j) / 512 == from as int / 4096);
            assert(memory.words[from as int / 8 + j] == start.words[from as int / 8 + j]);
        }
        assert(page_copied(start, source, after, target, page));
        assert forall|i: int|
            0 <= i < physical::WORDS && !memory.frames.free.contains(i / 512)
                && !tables.contains(i / 512) implies #[trigger] after.words[i]
            == memory.words[i] by {
            assert(copied.words[i] == memory.words[i]);
        }
        assert forall|i: int| 0 <= i < physical::WORDS && !fresh.contains(i / 512) implies
            #[trigger] after.words[i] == start.words[i] by {
            assert(!memory.frames.free.contains(i / 512));
            assert(!tables.contains(i / 512));
            assert(after.words[i] == memory.words[i]);
        }
        assert forall|q: u64| is_user_page(q) && q != page implies #[trigger] leaf_of(
            after,
            target,
            q,
        ) == leaf_of(memory, target, q) by {
            assert(leaf_of(copied, target, q) == leaf_of(memory, target, q));
        }
        more
    }
}

/// The span of memory that a table of a level covers.
spec fn table_span(level: int) -> int {
    512 * address::entry_span(level)
}

/// Where entry `k` of the table of a page leads.
#[verifier::spinoff_prover]
#[verifier::rlimit(40)]
proof fn lemma_entry_place(page: int, level: int, k: int)
    requires
        1 <= level <= 4,
        0 <= page,
        page % table_span(level) == 0,
        0 <= k < 512,
        page + k * address::entry_span(level) < USER_ADDRESS_LIMIT,
    ensures
        ({
            let span = address::entry_span(level);
            let at = page + k * span;
            &&& page < USER_ADDRESS_LIMIT
            &&& page % 4096 == 0
            &&& at % 4096 == 0
            &&& at % span == 0
            &&& address::table_index(at as u64, level) == k
            &&& part(at as u64, level + 1) == part(page as u64, level + 1)
            &&& level > 1 ==> table_span(level - 1) == span
        }),
{
    let span = address::entry_span(level);
    let at = page + k * span;
    if level == 1 {
        assert(page % 0x20_0000 == 0);
        assert(k * span == k * 0x1000);
        assert(at / 0x1000 == page / 0x1000 + k);
        assert(at / 0x20_0000 == page / 0x20_0000);
    } else if level == 2 {
        assert(page % 0x4000_0000 == 0);
        assert(k * span == k * 0x20_0000);
        assert(at / 0x20_0000 == page / 0x20_0000 + k);
        assert(at / 0x4000_0000 == page / 0x4000_0000);
    } else if level == 3 {
        assert(page % 0x80_0000_0000 == 0);
        assert(k * span == k * 0x4000_0000);
        assert(at / 0x4000_0000 == page / 0x4000_0000 + k);
        assert(at / 0x80_0000_0000 == page / 0x80_0000_0000);
    } else {
        assert(page % 0x1_0000_0000_0000 == 0);
        assert(k * span == k * 0x80_0000_0000);
        assert(page == 0) by {
            assert(k * 0x80_0000_0000 >= 0);
        }
        assert(at / 0x80_0000_0000 == k);
    }
}

/// The pages that an entry covers are those of its part.
proof fn lemma_covered(at: int, level: int, q: u64)
    requires
        1 <= level <= 4,
        0 <= at < USER_ADDRESS_LIMIT,
        at % address::entry_span(level) == 0,
        is_user_page(q),
    ensures
        at <= q < at + address::entry_span(level) <==> part(q, level) == part(at as u64, level),
{
}

/// What copying the entries of a table has done to the pages that they cover.
spec fn pages_copied(
    start: MemoryView,
    source: u64,
    before: MemoryView,
    after: MemoryView,
    target: u64,
    from: int,
    to: int,
) -> bool {
    forall|q: u64|
        is_user_page(q) ==> if from <= q < to && is_user_leaf(leaf_of(start, source, q)) {
            page_copied(start, source, after, target, q)
        } else {
            #[trigger] leaf_of(after, target, q) == leaf_of(before, target, q)
        }
}

/// A copy of a page stays one while what is in use and holds no table stays.
proof fn lemma_copy_stays(
    start: MemoryView,
    source: u64,
    before: MemoryView,
    after: MemoryView,
    target: u64,
    tables: Set<int>,
    fresh: Set<int>,
    q: u64,
)
    requires
        sound(before, target, tables, fresh),
        is_user_page(q),
        page_copied(start, source, before, target, q),
        leaf_of(after, target, q) == leaf_of(before, target, q),
        forall|i: int|
            0 <= i < physical::WORDS && !before.frames.free.contains(i / 512)
                && !tables.contains(i / 512) ==> #[trigger] after.words[i] == before.words[i],
    ensures
        page_copied(start, source, after, target, q),
{
    reveal(sound);
    let from = leaf_of(start, source, q);
    let to = leaf_of(before, target, q);
    lemma_copied_bits(to, 0);
    let number = paging::target_of(to) as int / 4096;
    assert(!tables.contains(number) && !before.frames.free.contains(number));
    assert forall|j: int| 0 <= j < 512 implies #[trigger] after.words[paging::target_of(to) as int
        / 8 + j] == start.words[paging::target_of(from) as int / 8 + j] by {
        let i = paging::target_of(to) as int / 8 + j;
        assert(i / 512 == number);
        assert(before.words[i] == start.words[paging::target_of(from) as int / 8 + j]);
    }
}

proof fn lemma_failure_stays(
    state: Cloning,
    target: u64,
    table: u64,
    page: int,
    level: int,
    count: int,
)
    requires
        count > 0,
        level >= 1,
        paging::table_cloned(state, target, table, page, level, count).failure is None,
    ensures
        paging::table_cloned(state, target, table, page, level, count - 1).failure is None,
{
}

/// Copying the first entries of a table of the source copies the user pages that they cover,
/// and changes no other page of the target.
#[verifier::spinoff_prover]
#[verifier::rlimit(60)]
proof fn lemma_table_cloned(
    start: MemoryView,
    source: u64,
    state: Cloning,
    target: u64,
    table: u64,
    page: int,
    level: int,
    count: int,
    tables: Set<int>,
) -> (more: Set<int>)
    requires
        start.wf(),
        in_use(start, source),
        1 <= level <= 4,
        0 <= count <= 512,
        0 <= page < USER_ADDRESS_LIMIT,
        page % table_span(level) == 0,
        page + count * address::entry_span(level) <= USER_ADDRESS_LIMIT,
        laws::is_table(table),
        table_at(start, source, page as u64, level) == Some(table),
        state.failure is None,
        used_kept(start, state.memory),
        sound(state.memory, target, tables, start.frames.free),
        paging::table_cloned(state, target, table, page, level, count).failure is None,
    ensures
        ({
            let after = paging::table_cloned(state, target, table, page, level, count).memory;
            &&& sound(after, target, more, start.frames.free)
            &&& used_kept(start, after)
            &&& after.frames.free.subset_of(state.memory.frames.free)
            &&& pages_copied(
                start,
                source,
                state.memory,
                after,
                target,
                page,
                page + count * address::entry_span(level),
            )
            &&& forall|g: int|
                #[trigger] more.contains(g) ==> tables.contains(g)
                    || state.memory.frames.free.contains(g)
            &&& forall|i: int|
                0 <= i < physical::WORDS && !state.memory.frames.free.contains(i / 512)
                    && !tables.contains(i / 512) ==> #[trigger] after.words[i]
                    == state.memory.words[i]
        }),
    decreases level, count,
{
    if count == 0 {
        tables
    } else {
        let span = address::entry_span(level);
        let k = count - 1;
        assert(count * span == k * span + span) by (nonlinear_arith)
            requires
                count == k + 1,
        ;
        assert(span > 0);
        let at = page + k * span;
        lemma_failure_stays(state, target, table, page, level, count);
        let middle = lemma_table_cloned(
            start,
            source,
            state,
            target,
            table,
            page,
            level,
            k,
            tables,
        );
        let before = paging::table_cloned(state, target, table, page, level, k);
        lemma_entry_place(page, level, k);
        let here = at as u64;
        assert(is_user_page(here) && is_user_page(page as u64));
        lemma_same_part(start, source, here, page as u64, level);
        assert(table_at(start, source, here, level) == Some(table));
        assert(!start.frames.free.contains(table as int / 4096));
        assert((table + k * 8) / 8 == table as int / 8 + k);
        assert((table as int / 8 + k) / 512 == table as int / 4096);
        let entry = paging::entry_of(before.memory, table, k);
        assert(entry == paging::entry_of(start, table, k));
        let after = paging::table_cloned(state, target, table, page, level, count);
        let fresh = start.frames.free;
        let last = if level == 1 {
            assert(entry == leaf_of(start, source, here));
            let last = lemma_page_cloned(start, source, before, target, here, middle);
            assert forall|q: u64| is_user_page(q) implies (at <= q < at + 4096) == (q == here) by {}
            assert forall|q: u64| is_user_page(q) implies if at <= q < at + span && is_user_leaf(
                leaf_of(start, source, q),
            ) {
                page_copied(start, source, after.memory, target, q)
            } else {
                #[trigger] leaf_of(after.memory, target, q) == leaf_of(before.memory, target, q)
            } by {}
            last
        } else if !paging::is_present(entry) {
            assert forall|q: u64| is_user_page(q) && at <= q < at + span implies leaf_of(
                start,
                source,
                q,
            ) == 0 by {
                lemma_covered(at, level, q);
                lemma_empty_below(start, source, here, q, level);
            }
            lemma_copied_bits(0, 0);
            assert(0u64 & 5u64 == 0) by (bit_vector);
            middle
        } else {
            let child = paging::target_of(entry);
            lemma_copied_bits(entry, 0);
            assert(table_at(start, source, here, level - 1) == Some(child));
            assert(512 * address::entry_span(level - 1) == span);
            lemma_table_cloned(
                start,
                source,
                before,
                target,
                child,
                at,
                level - 1,
                512,
                middle,
            )
        };
        assert(pages_copied(
            start,
            source,
            before.memory,
            after.memory,
            target,
            at,
            at + span,
        ));
        assert forall|q: u64| is_user_page(q) implies if page <= q < page + count * span
            && is_user_leaf(leaf_of(start, source, q)) {
            page_copied(start, source, after.memory, target, q)
        } else {
            #[trigger] leaf_of(after.memory, target, q) == leaf_of(state.memory, target, q)
        } by {
            assert(leaf_of(before.memory, target, q) == leaf_of(before.memory, target, q));
            if page <= q < at && is_user_leaf(leaf_of(start, source, q)) {
                assert(page_copied(start, source, before.memory, target, q));
                assert(leaf_of(after.memory, target, q) == leaf_of(before.memory, target, q));
                lemma_copy_stays(
                    start,
                    source,
                    before.memory,
                    after.memory,
                    target,
                    middle,
                    fresh,
                    q,
                );
            }
        }
        assert forall|i: int|
            0 <= i < physical::WORDS && !state.memory.frames.free.contains(i / 512)
                && !tables.contains(i / 512) implies #[trigger] after.memory.words[i]
            == state.memory.words[i] by {
            assert(!middle.contains(i / 512));
            assert(before.memory.words[i] == state.memory.words[i]);
        }
        last
    }
}

/// Below an entry that is not there is no page.
proof fn lemma_empty_below(memory: MemoryView, root: u64, page: u64, q: u64, level: int)
    requires
        is_user_page(page),
        is_user_page(q),
        2 <= level <= 4,
        part(q, level) == part(page, level),
        table_at(memory, root, page, level) matches Some(table) && !paging::is_present(
            paging::entry_of(memory, table, address::table_index(page, level)),
        ),
    ensures
        leaf_of(memory, root, q) == 0,
{
    lemma_part(q, level);
    lemma_part(page, level);
    lemma_same_part(memory, root, page, q, level);
    reveal_with_fuel(table_at, 5);
    assert(table_at(memory, root, q, level - 1) is None);
    if level == 4 {
        assert(table_at(memory, root, q, 2) is None);
        assert(table_at(memory, root, q, 1) is None);
    } else if level == 3 {
        assert(table_at(memory, root, q, 1) is None);
    }
}

proof fn lemma_leaf_present(leaf: u64)
    by (bit_vector)
    ensures
        leaf & 1u64 != 0 && leaf & 4u64 != 0 ==> leaf & 5u64 == 5u64,
        0u64 & 1u64 == 0,
{
}

/// Where a user sees a page is where the entry of level 1 leads.
proof fn lemma_seen(memory: MemoryView, root: u64, page: u64, write: bool, level: int)
    requires
        is_user_page(page),
        1 <= level <= 4,
        table_at(memory, root, page, level) is Some,
        paging::user_frame(
            memory,
            table_at(memory, root, page, level).unwrap(),
            page,
            write,
            level,
        ) is Ok,
    ensures
        ({
            let leaf = leaf_of(memory, root, page);
            &&& paging::user_frame(
                memory,
                table_at(memory, root, page, level).unwrap(),
                page,
                write,
                level,
            ) == Ok::<u64, UserCopyError>(paging::target_of(leaf))
            &&& is_user_leaf(leaf)
            &&& paging::is_present(leaf)
            &&& write ==> leaf & ENTRY_WRITABLE != 0
        }),
    decreases level,
{
    let table = table_at(memory, root, page, level).unwrap();
    let entry = paging::entry_of(memory, table, address::table_index(page, level));
    lemma_leaf_present(entry);
    if level > 1 {
        assert(table_at(memory, root, page, level - 1) == Some(paging::target_of(entry)));
        lemma_seen(memory, root, page, write, level - 1);
    }
}

/// In a tree a user sees each page that the entry of level 1 lets them see.
proof fn lemma_tree_seen(
    memory: MemoryView,
    root: u64,
    page: u64,
    write: bool,
    level: int,
    tables: Set<int>,
    fresh: Set<int>,
)
    requires
        sound(memory, root, tables, fresh),
        is_user_page(page),
        1 <= level <= 4,
        table_at(memory, root, page, level) is Some,
    ensures
        ({
            let leaf = leaf_of(memory, root, page);
            paging::user_frame(
                memory,
                table_at(memory, root, page, level).unwrap(),
                page,
                write,
                level,
            ) == (if !paging::is_present(leaf) {
                Err::<u64, UserCopyError>(UserCopyError::NotMapped)
            } else if leaf & ENTRY_USER == 0 || (write && leaf & ENTRY_WRITABLE == 0) {
                Err(UserCopyError::PermissionDenied)
            } else {
                Ok(paging::target_of(leaf))
            })
        }),
    decreases level,
{
    let table = table_at(memory, root, page, level).unwrap();
    let entry = paging::entry_of(memory, table, address::table_index(page, level));
    lemma_leaf_present(0);
    assert(laws::is_table(table)) by {
        reveal(sound);
        assert(table_at(memory, root, page, level) == Some(table));
    }
    if level > 1 {
        if paging::is_present(entry) {
            assert(!paging::is_huge(entry) && entry & ENTRY_USER != 0 && entry & ENTRY_WRITABLE
                != 0) by {
                reveal(sound);
                assert(table_at(memory, root, page, level) == Some(table));
            }
            assert(table_at(memory, root, page, level - 1) == Some(paging::target_of(entry)));
            lemma_tree_seen(memory, root, page, write, level - 1, tables, fresh);
        } else {
            lemma_part(page, level);
            lemma_empty_below(memory, root, page, page, level);
        }
    }
}

/// What a space uses and keeps is seen as before.
proof fn lemma_seen_again(
    before: MemoryView,
    after: MemoryView,
    root: u64,
    page: u64,
    write: bool,
    level: int,
)
    requires
        before.wf(),
        in_use(before, root),
        root % 4096 == 0,
        used_kept(before, after),
        is_user_page(page),
        1 <= level <= 4,
        table_at(before, root, page, level) is Some,
        table_at(before, root, page, level).unwrap() % 4096 == 0,
    ensures
        ({
            let table = table_at(before, root, page, level).unwrap();
            paging::user_frame(after, table, page, write, level) == paging::user_frame(
                before,
                table,
                page,
                write,
                level,
            )
        }),
    decreases level,
{
    let table = table_at(before, root, page, level).unwrap();
    let index = address::table_index(page, level);
    lemma_part(page, level);
    if paging::table_ok(table) {
        assert((table + index * 8) / 8 == table as int / 8 + index);
        assert((table as int / 8 + index) / 512 == table as int / 4096);
        let entry = paging::entry_of(before, table, index);
        assert(paging::entry_of(after, table, index) == entry);
        lemma_copied_bits(entry, 0);
        if level > 1 && paging::is_present(entry) && !paging::is_huge(entry) {
            assert(table_at(before, root, page, level - 1) == Some(paging::target_of(entry)));
            lemma_seen_again(before, after, root, page, write, level - 1);
        }
    }
}

/// A copy of a user address space reads as the space read: every byte that the user could read
/// is read through the tables of the copy as it was read through those of the source, from
/// another frame that was free; what the user could write it can write there; a page that was
/// not mapped for the user is not mapped; and code runs in the copy where it ran. No two pages
/// of the copy share a frame, and the source is seen as before. The tables and pages of the
/// source must be in use.
pub proof fn law_clones_read_as_the_source(
    memory: MemoryView,
    root: u64,
    at: u64,
    other: u64,
    write: bool,
)
    requires
        memory.wf(),
        root % 4096 == 0,
        in_use(memory, root),
        4096 <= at < USER_ADDRESS_LIMIT,
        4096 <= other < USER_ADDRESS_LIMIT,
        paging::space_cloned(memory, root).1 is Ok,
    ensures
        ({
            let (after, result) = paging::space_cloned(memory, root);
            let clone = result->Ok_0;
            let seen = paging::user_mapping(memory, root, at, false);
            let copy = paging::user_mapping(after, clone, at, false);
            let next = paging::user_mapping(after, clone, other, false);
            let page = (at - at as int % 4096) as u64;
            let leaf = leaf_of(memory, root, page);
            &&& seen is Ok ==> {
                &&& copy is Ok
                &&& paging::user_byte(after, clone, at as int) == paging::user_byte(
                    memory,
                    root,
                    at as int,
                )
                &&& memory.frames.free.contains(copy->Ok_0 as int / 4096)
                &&& !memory.frames.free.contains(seen->Ok_0 as int / 4096)
                &&& copy->Ok_0 != seen->Ok_0
            }
            &&& paging::user_mapping(memory, root, at, true) is Ok ==> paging::user_mapping(
                after,
                clone,
                at,
                true,
            ) is Ok
            &&& paging::user_mapping(after, clone, at, true) is Ok ==> leaf & ENTRY_WRITABLE != 0
            &&& copy is Ok ==> leaf & ENTRY_PRESENT != 0 && leaf & ENTRY_USER != 0 && leaf_of(
                after,
                clone,
                page,
            ) & ENTRY_NO_EXECUTE == leaf & ENTRY_NO_EXECUTE
            &&& copy is Ok && next is Ok && at as int / 4096 != other as int / 4096 ==> copy->Ok_0
                != next->Ok_0
            &&& paging::user_mapping(after, root, at, write) == paging::user_mapping(
                memory,
                root,
                at,
                write,
            )
            &&& seen is Ok ==> paging::user_byte(after, root, at as int) == paging::user_byte(
                memory,
                root,
                at as int,
            )
        }),
{
    let (created, made) = paging::space_created(memory);
    let clone = made->Ok_0;
    let fresh = memory.frames.free;
    lemma_created(memory);
    let state = Cloning { memory: created, failure: None };
    let end = paging::table_cloned(state, clone, root, 0, 4, 256);
    let after = end.memory;
    assert(256 * address::entry_span(4) == USER_ADDRESS_LIMIT);
    let tables = lemma_table_cloned(
        memory,
        root,
        state,
        clone,
        root,
        0,
        4,
        256,
        set![clone as int / 4096],
    );
    lemma_leaf_present(0);
    let page = (at - at as int % 4096) as u64;
    let second = (other - other as int % 4096) as u64;
    assert(is_user_page(page) && is_user_page(second));
    lemma_clone_page_seen(memory, root, created, after, clone, page, tables);
    lemma_clone_page_seen(memory, root, created, after, clone, second, tables);
    assert(table_at(memory, root, page, 4) == Some(root));
    assert(table_at(after, clone, page, 4) == Some(clone));
    lemma_tree_seen(after, clone, page, false, 4, tables, fresh);
    lemma_tree_seen(after, clone, page, true, 4, tables, fresh);
    lemma_tree_seen(after, clone, second, false, 4, tables, fresh);
    lemma_seen_again(memory, after, root, page, write, 4);
    lemma_seen_again(memory, after, root, page, false, 4);
    let seen = paging::user_mapping(memory, root, at, false);
    let copy = paging::user_mapping(after, clone, at, false);
    let next = paging::user_mapping(after, clone, other, false);
    let leaf = leaf_of(memory, root, page);
    let to = leaf_of(after, clone, page);
    lemma_kept_bits(leaf, to);
    lemma_copied_bits(leaf, 0);
    lemma_copied_bits(to, 0);
    if seen is Ok {
        lemma_seen(memory, root, page, false, 4);
        assert(page_copied(memory, root, after, clone, page));
        let j = at as int % 4096 / 8;
        let from = paging::target_of(leaf) as int;
        let there = paging::target_of(to) as int;
        assert((from + at as int % 4096) / 8 == from / 8 + j);
        assert((there + at as int % 4096) / 8 == there / 8 + j);
        assert((from + at as int % 4096) % 8 == at as int % 4096 % 8);
        assert((there + at as int % 4096) % 8 == at as int % 4096 % 8);
        assert(after.words[there / 8 + j] == memory.words[from / 8 + j]);
        assert(fresh.contains(there / 4096) && !fresh.contains(from / 4096)) by {
            reveal(sound);
            assert(paging::is_present(leaf_of(after, clone, page)));
        }
        assert((from / 8 + j) / 512 == from / 4096);
        assert(after.words[from / 8 + j] == memory.words[from / 8 + j]);
    }
    if paging::user_mapping(memory, root, at, true) is Ok {
        lemma_seen(memory, root, page, true, 4);
        assert(page_copied(memory, root, after, clone, page));
    }
    if copy is Ok && next is Ok && at as int / 4096 != other as int / 4096 {
        assert(page != second);
        reveal(sound);
        assert(paging::is_present(leaf_of(after, clone, page)) && paging::is_present(
            leaf_of(after, clone, second),
        ));
    }
}

proof fn lemma_kept_bits(leaf: u64, to: u64)
    by (bit_vector)
    ensures
        to & 0x8000_0000_0000_001fu64 == leaf & 0x8000_0000_0000_001fu64 ==> {
            &&& to & 2u64 == leaf & 2u64
            &&& to & 4u64 == leaf & 4u64
            &&& to & 1u64 == leaf & 1u64
            &&& to & 0x8000_0000_0000_0000u64 == leaf & 0x8000_0000_0000_0000u64
        },
        leaf & 5u64 == 5u64 ==> leaf & 1u64 != 0 && leaf & 4u64 != 0,
{
}

/// A page of the copy is there exactly where the source has a user page.
proof fn lemma_clone_page_seen(
    memory: MemoryView,
    root: u64,
    created: MemoryView,
    after: MemoryView,
    clone: u64,
    page: u64,
    tables: Set<int>,
)
    requires
        is_user_page(page),
        pages_copied(memory, root, created, after, clone, 0, USER_ADDRESS_LIMIT as int),
        leaf_of(created, clone, page) == 0,
    ensures
        is_user_leaf(leaf_of(memory, root, page)) ==> page_copied(memory, root, after, clone, page),
        !is_user_leaf(leaf_of(memory, root, page)) ==> leaf_of(after, clone, page) == 0,
{
    assert(leaf_of(after, clone, page) == leaf_of(after, clone, page));
}

/// The tables below a root are a tree of their own, made of frames that were free, and each
/// page below it has a frame of its own that was.
pub closed spec fn is_own(memory: MemoryView, root: u64, fresh: Set<int>) -> bool {
    exists|tables: Set<int>| sound(memory, root, tables, fresh)
}

/// The page that an address lies in.
pub open spec fn page_of(at: int) -> u64 {
    (at - at % 4096) as u64
}

/// An address that a user may have.
pub open spec fn is_user_address(at: int) -> bool {
    0 <= at < USER_ADDRESS_LIMIT
}

/// Whether an address of a space is mapped.
pub open spec fn has_page(memory: MemoryView, root: u64, at: int) -> bool {
    is_user_address(at) && paging::is_present(leaf_of(memory, root, page_of(at)))
}

/// The byte at an address of a space, if it is mapped.
pub open spec fn space_byte(memory: MemoryView, root: u64, at: int) -> u8 {
    physical::byte_at(
        memory.words,
        paging::target_of(leaf_of(memory, root, page_of(at))) + at % 4096,
    )
}

/// The pages of a space lie where they lay and allow what they allowed.
pub open spec fn same_pages(before: MemoryView, after: MemoryView, root: u64) -> bool {
    forall|q: u64|
        is_user_page(q) ==> #[trigger] leaf_of(after, root, q) == leaf_of(before, root, q)
}

/// The mapped bytes of a space are what they were, but for those that were written from an
/// address on.
pub open spec fn bytes_written(
    before: MemoryView,
    after: MemoryView,
    root: u64,
    at: int,
    bytes: Seq<u8>,
) -> bool {
    forall|a: int|
        has_page(before, root, a) ==> #[trigger] space_byte(after, root, a) == (if at <= a < at
            + bytes.len() {
            bytes[a - at]
        } else {
            space_byte(before, root, a)
        })
}

/// Whether a user can write to an address.
pub open spec fn can_store(memory: MemoryView, root: u64, at: int) -> bool {
    has_page(memory, root, at) && paging::user_mapping(memory, root, at as u64, true) is Ok
}

/// What was not free at some time holds what it held.
pub open spec fn outside_kept(before: MemoryView, after: MemoryView, fresh: Set<int>) -> bool {
    forall|i: int|
        0 <= i < physical::WORDS && !fresh.contains(i / 512) ==> #[trigger] after.words[i]
            == before.words[i]
}

/// A new address space has no page.
pub proof fn law_new_spaces_are_empty(memory: MemoryView)
    requires
        memory.wf(),
        paging::space_created(memory).1 is Ok,
    ensures
        ({
            let (after, root) = paging::space_created(memory);
            &&& is_own(after, root->Ok_0, memory.frames.free)
            &&& after.wf()
            &&& laws::is_table(root->Ok_0)
            &&& forall|q: u64| is_user_page(q) ==> #[trigger] leaf_of(after, root->Ok_0, q) == 0
            &&& outside_kept(memory, after, memory.frames.free)
        }),
{
    lemma_created(memory);
    reveal(sound);
}

/// What a space of its own uses is in use.
pub proof fn law_own_spaces_are_in_use(memory: MemoryView, root: u64, fresh: Set<int>)
    requires
        is_own(memory, root, fresh),
    ensures
        in_use(memory, root),
        memory.wf(),
        root % 4096 == 0,
{
    let tables = choose|tables: Set<int>| sound(memory, root, tables, fresh);
    reveal(sound);
    assert(table_at(memory, root, 0, 4) == Some(root));
    assert forall|page: u64, level: int| is_user_page(page) && 1 <= level <= 4 implies (
    #[trigger] table_at(memory, root, page, level) matches Some(table)
        ==> !memory.frames.free.contains(table as int / 4096)) by {}
}

/// In a space of its own a user sees at each address the frame that the address is mapped to,
/// as far as the mapping lets them.
pub proof fn law_own_spaces_are_seen(
    memory: MemoryView,
    root: u64,
    fresh: Set<int>,
    at: int,
    write: bool,
)
    requires
        is_own(memory, root, fresh),
        4096 <= at < USER_ADDRESS_LIMIT,
    ensures
        ({
            let leaf = leaf_of(memory, root, page_of(at));
            paging::user_mapping(memory, root, at as u64, write) == (if !paging::is_present(leaf) {
                Err::<u64, UserCopyError>(UserCopyError::NotMapped)
            } else if leaf & ENTRY_USER == 0 || (write && leaf & ENTRY_WRITABLE == 0) {
                Err(UserCopyError::PermissionDenied)
            } else {
                Ok(paging::target_of(leaf))
            })
        }),
        paging::user_mapping(memory, root, at as u64, false) is Ok ==> has_page(memory, root, at)
            && paging::user_byte(memory, root, at) == space_byte(memory, root, at),
{
    let tables = choose|tables: Set<int>| sound(memory, root, tables, fresh);
    assert(is_user_page(page_of(at)));
    lemma_tree_seen(memory, root, page_of(at), write, 4, tables, fresh);
    lemma_tree_seen(memory, root, page_of(at), false, 4, tables, fresh);
}

/// A frame that was just taken and cleared and is then mapped gives a space a page of zeros,
/// and changes nothing else in it.
pub proof fn law_new_pages_are_zero(
    memory: MemoryView,
    root: u64,
    page: u64,
    flags: MapFlags,
    fresh: Set<int>,
)
    requires
        is_own(memory, root, fresh),
        is_user_page(page),
        flags.0 & ADDRESS_MASK == 0,
        memory.allocated().1 is Ok,
        paging::user_mapped(
            memory.allocated().0.zeroed(memory.allocated().1->Ok_0.spec_u64() as int),
            root,
            page,
            memory.allocated().1->Ok_0.spec_u64(),
            flags,
        ).1 is Ok,
    ensures
        ({
            let (taken, result) = memory.allocated();
            let frame = result->Ok_0.spec_u64();
            let after = paging::user_mapped(
                taken.zeroed(frame as int),
                root,
                page,
                frame,
                flags,
            ).0;
            &&& is_own(after, root, fresh)
            &&& outside_kept(memory, after, fresh)
            &&& frame % 4096 == 0
            &&& frame < 0x1_0000_0000
            &&& !paging::is_present(leaf_of(memory, root, page))
            &&& forall|q: u64|
                is_user_page(q) ==> #[trigger] leaf_of(after, root, q) == (if q == page {
                    frame | flags.0 | ENTRY_PRESENT
                } else {
                    leaf_of(memory, root, q)
                })
            &&& paging::target_of(frame | flags.0 | ENTRY_PRESENT) == frame
            &&& paging::is_present(frame | flags.0 | ENTRY_PRESENT)
            &&& forall|a: int|
                is_user_address(a) && page_of(a) == page ==> #[trigger] space_byte(after, root, a)
                    == 0
            &&& forall|a: int|
                has_page(memory, root, a) ==> #[trigger] space_byte(after, root, a) == space_byte(
                    memory,
                    root,
                    a,
                )
        }),
{
    let tables = choose|tables: Set<int>| sound(memory, root, tables, fresh);
    assert(memory.wf() && tables.disjoint(memory.frames.free) && tables.subset_of(fresh)
        && memory.frames.free.subset_of(fresh)) by {
        reveal(sound);
    }
    lemma_taken(memory);
    let (taken, result) = memory.allocated();
    let frame = result->Ok_0.spec_u64();
    let zeroed = taken.zeroed(frame as int);
    assert(zeroed.wf());
    assert forall|i: int| 0 <= i < physical::WORDS && tables.contains(i / 512) implies
        #[trigger] zeroed.words[i] == memory.words[i] by {
        assert(i / 512 != frame as int / 4096);
    }
    lemma_tree_kept(memory, zeroed, root, tables, fresh);
    assert(unmapped_frame(zeroed, root, frame, tables, fresh)) by {
        reveal(sound);
        assert forall|q: u64|
            is_user_page(q) && paging::is_present(#[trigger] leaf_of(zeroed, root, q)) implies
            paging::target_of(leaf_of(zeroed, root, q)) as int / 4096 != frame as int / 4096 by {
            assert(leaf_of(zeroed, root, q) == leaf_of(memory, root, q));
            assert(paging::is_present(leaf_of(memory, root, q)));
        }
    }
    let more = lemma_mapped_tree(zeroed, root, page, frame, flags, tables, fresh);
    let after = paging::mapped(zeroed, root, page, frame, flags).0;
    lemma_leaf_bits(frame, flags.0);
    assert(leaf_of(zeroed, root, page) == leaf_of(memory, root, page));
    assert forall|q: u64| is_user_page(q) implies #[trigger] leaf_of(after, root, q) == (if q
        == page {
        frame | flags.0 | ENTRY_PRESENT
    } else {
        leaf_of(memory, root, q)
    }) by {
        assert(leaf_of(zeroed, root, q) == leaf_of(memory, root, q));
    }
    assert forall|i: int|
        0 <= i < physical::WORDS && !memory.frames.free.contains(i / 512) && !tables.contains(
            i / 512,
        ) implies #[trigger] after.words[i] == memory.words[i] by {
        assert(zeroed.words[i] == memory.words[i]);
    }
    assert forall|i: int| 0 <= i < physical::WORDS && !fresh.contains(i / 512) implies
        #[trigger] after.words[i] == memory.words[i] by {
        assert(!memory.frames.free.contains(i / 512) && !tables.contains(i / 512));
    }
    assert forall|a: int| is_user_address(a) && page_of(a) == page implies #[trigger] space_byte(
        after,
        root,
        a,
    ) == 0 by {
        let word = (frame + a % 4096) / 8;
        assert(word / 512 == frame as int / 4096);
        assert(zeroed.words[word] == 0);
        assert(after.words[word] == zeroed.words[word]);
        lemma_zero_byte((frame + a % 4096) % 8);
    }
    assert forall|a: int| has_page(memory, root, a) implies #[trigger] space_byte(after, root, a)
        == space_byte(memory, root, a) by {
        let q = page_of(a);
        assert(is_user_page(q));
        let leaf = leaf_of(memory, root, q);
        lemma_copied_bits(leaf, 0);
        let word = (paging::target_of(leaf) + a % 4096) / 8;
        assert(word / 512 == paging::target_of(leaf) as int / 4096);
        assert(q != page);
        assert(!memory.frames.free.contains(word / 512) && !tables.contains(word / 512)) by {
            reveal(sound);
        }
        assert(leaf_of(after, root, q) == leaf);
    }
    assert(is_own(after, root, fresh));
}

proof fn lemma_zero_byte(index: int)
    requires
        0 <= index < 8,
    ensures
        physical::byte_of(0, index) == 0,
{
    let shift = (8 * index) as u64;
    assert(((0u64 >> shift) & 0xff) as u8 == 0u8) by (bit_vector)
        requires
            shift < 64,
    ;
}

/// Storing bytes in the frame of a page writes them to the page, and nothing else.
#[verifier::spinoff_prover]
pub proof fn lemma_page_stored(
    memory: MemoryView,
    root: u64,
    at: int,
    bytes: Seq<u8>,
    fresh: Set<int>,
)
    requires
        is_own(memory, root, fresh),
        has_page(memory, root, at),
        at % 4096 + bytes.len() <= 4096,
    ensures
        ({
            let place = paging::target_of(leaf_of(memory, root, page_of(at))) + at % 4096;
            let after = MemoryView {
                words: physical::stored(memory.words, place, bytes),
                ..memory
            };
            &&& is_own(after, root, fresh)
            &&& same_pages(memory, after, root)
            &&& bytes_written(memory, after, root, at, bytes)
            &&& outside_kept(memory, after, fresh)
        }),
{
    let tables = choose|tables: Set<int>| sound(memory, root, tables, fresh);
    let page = page_of(at);
    assert(is_user_page(page));
    let leaf = leaf_of(memory, root, page);
    let frame = paging::target_of(leaf) as int;
    let place = frame + at % 4096;
    lemma_copied_bits(leaf, 0);
    assert(memory.wf() && !tables.contains(frame / 4096) && fresh.contains(frame / 4096)) by {
        reveal(sound);
    }
    let after = MemoryView { words: physical::stored(memory.words, place, bytes), ..memory };
    physical::lemma_stored(memory.words, place, bytes, 0);
    assert(after.words.len() == memory.words.len());
    assert forall|i: int| 0 <= i < physical::WORDS && i / 512 != frame / 4096 implies
        #[trigger] after.words[i] == memory.words[i] by {
        assert(i * 8 + 8 <= frame || frame + 4096 <= i * 8);
        physical::lemma_stored_words(memory.words, place, bytes, i);
    }
    lemma_tree_kept(memory, after, root, tables, fresh);
    assert forall|a: int| has_page(memory, root, a) implies #[trigger] space_byte(after, root, a)
        == (if at <= a < at + bytes.len() {
        bytes[a - at]
    } else {
        space_byte(memory, root, a)
    }) by {
        let q = page_of(a);
        assert(is_user_page(q));
        let other = paging::target_of(leaf_of(memory, root, q)) as int;
        lemma_copied_bits(leaf_of(memory, root, q), 0);
        assert(leaf_of(after, root, q) == leaf_of(memory, root, q));
        physical::lemma_stored(memory.words, place, bytes, other + a % 4096);
        if q == page {
            assert(a - at == a % 4096 - at % 4096);
        } else {
            assert(other / 4096 != frame / 4096) by {
                reveal(sound);
            }
            assert(!(at <= a < at + bytes.len()));
        }
    }
    assert(is_own(after, root, fresh));
}

/// Writing at two places one behind the other is writing once.
pub proof fn lemma_two_writes(
    before: MemoryView,
    middle: MemoryView,
    after: MemoryView,
    root: u64,
    at: int,
    first: Seq<u8>,
    second: Seq<u8>,
)
    requires
        same_pages(before, middle, root),
        same_pages(middle, after, root),
        bytes_written(before, middle, root, at, first),
        bytes_written(middle, after, root, at + first.len(), second),
    ensures
        same_pages(before, after, root),
        bytes_written(before, after, root, at, first + second),
{
    assert forall|q: u64| is_user_page(q) implies #[trigger] leaf_of(after, root, q) == leaf_of(
        before,
        root,
        q,
    ) by {
        assert(leaf_of(middle, root, q) == leaf_of(before, root, q));
    }
    let both = first + second;
    assert forall|a: int| has_page(before, root, a) implies #[trigger] space_byte(after, root, a)
        == (if at <= a < at + both.len() {
        both[a - at]
    } else {
        space_byte(before, root, a)
    }) by {
        assert(is_user_page(page_of(a)));
        assert(leaf_of(middle, root, page_of(a)) == leaf_of(before, root, page_of(a)));
        assert(has_page(middle, root, a));
        assert(space_byte(middle, root, a) == space_byte(middle, root, a));
    }
}

/// What a user can write to beside a page that was written to, they could write to before.
proof fn lemma_storable(
    memory: MemoryView,
    next: MemoryView,
    root: u64,
    current: int,
    length: int,
    end: int,
    fresh: Set<int>,
)
    requires
        is_own(memory, root, fresh),
        is_own(next, root, fresh),
        same_pages(memory, next, root),
        4096 <= current,
        end <= USER_ADDRESS_LIMIT,
        can_store(memory, root, current),
        current % 4096 + length <= 4096,
        forall|a: int| current + length <= a < end ==> #[trigger] can_store(next, root, a),
    ensures
        forall|a: int| current <= a < end ==> #[trigger] can_store(memory, root, a),
{
    let page = page_of(current);
    law_own_spaces_are_seen(memory, root, fresh, current, true);
    assert forall|a: int| current <= a < end implies #[trigger] can_store(memory, root, a) by {
        assert(is_user_page(page_of(a)));
        assert(leaf_of(next, root, page_of(a)) == leaf_of(memory, root, page_of(a)));
        if a >= current + length {
            assert(can_store(next, root, a));
            law_own_spaces_are_seen(next, root, fresh, a, true);
            law_own_spaces_are_seen(memory, root, fresh, a, true);
        } else {
            assert(page_of(a) == page);
            law_own_spaces_are_seen(memory, root, fresh, a, true);
        }
    }
}

#[verifier::spinoff_prover]
#[verifier::rlimit(40)]
proof fn lemma_stored_from(
    memory: MemoryView,
    root: u64,
    at: u64,
    bytes: Seq<u8>,
    done: int,
    fresh: Set<int>,
)
    requires
        is_own(memory, root, fresh),
        0 <= done <= bytes.len(),
        at + bytes.len() <= USER_ADDRESS_LIMIT,
        paging::user_stored(memory, root, at, bytes, done).1 is Ok,
    ensures
        ({
            let after = paging::user_stored(memory, root, at, bytes, done).0;
            &&& is_own(after, root, fresh)
            &&& same_pages(memory, after, root)
            &&& bytes_written(
                memory,
                after,
                root,
                at + done,
                bytes.subrange(done, bytes.len() as int),
            )
            &&& outside_kept(memory, after, fresh)
            &&& done < bytes.len() ==> at + done >= 4096
            &&& forall|a: int|
                at + done <= a < at + bytes.len() ==> #[trigger] can_store(memory, root, a)
        }),
    decreases bytes.len() - done,
{
    if done < bytes.len() {
        let current = at + done;
        let length = paging::chunk(current, bytes.len() - done);
        let frame = paging::user_mapping(memory, root, current as u64, true)->Ok_0;
        law_own_spaces_are_seen(memory, root, fresh, current, true);
        let page = page_of(current);
        assert(is_user_page(page));
        let leaf = leaf_of(memory, root, page);
        assert(frame == paging::target_of(leaf));
        let part = bytes.subrange(done, done + length);
        lemma_page_stored(memory, root, current, part, fresh);
        let next = MemoryView {
            words: physical::stored(memory.words, frame + current % 4096, part),
            ..memory
        };
        lemma_stored_from(next, root, at, bytes, done + length, fresh);
        let after = paging::user_stored(memory, root, at, bytes, done).0;
        let rest = bytes.subrange(done, bytes.len() as int);
        let later = bytes.subrange(done + length, bytes.len() as int);
        lemma_two_writes(memory, next, after, root, current, part, later);
        assert(part + later =~= rest);
        assert(can_store(memory, root, current));
        lemma_storable(memory, next, root, current, length, at + bytes.len(), fresh);
    }
}

/// What is copied to a user is what the user reads there, and no other byte that the user can
/// see changes.
#[verifier::spinoff_prover]
pub proof fn law_user_writes_change_what_they_name(
    memory: MemoryView,
    root: u64,
    at: u64,
    bytes: Seq<u8>,
    fresh: Set<int>,
)
    requires
        is_own(memory, root, fresh),
        bytes.len() <= isize::MAX,
        paging::copied_to_user(memory, root, at, bytes).1 is Ok,
    ensures
        ({
            let after = paging::copied_to_user(memory, root, at, bytes).0;
            &&& is_own(after, root, fresh)
            &&& same_pages(memory, after, root)
            &&& bytes_written(memory, after, root, at as int, bytes)
            &&& outside_kept(memory, after, fresh)
            &&& bytes.len() > 0 ==> 4096 <= at && at + bytes.len() <= USER_ADDRESS_LIMIT
            &&& forall|a: int|
                at <= a < at + bytes.len() ==> #[trigger] can_store(memory, root, a)
        }),
{
    let after = paging::copied_to_user(memory, root, at, bytes).0;
    assert(after == paging::user_stored(memory, root, at, bytes, 0).0);
    if bytes.len() > 0 {
        assert(at + bytes.len() <= USER_ADDRESS_LIMIT);
        lemma_stored_from(memory, root, at, bytes, 0, fresh);
        assert(bytes.subrange(0, bytes.len() as int) =~= bytes);
        assert(bytes_written(memory, after, root, at as int, bytes));
    } else {
        assert(after == memory);
    }
}

} // verus!
