//! Page tables of four levels: mapping, unmapping, translation, and the address spaces
//! of user processes.
use crate::mm::address;
use crate::mm::address::{
    PhysicalAddress, VirtualAddress, MAX_DIRECT_MAPPED_PHYSICAL, PAGE_SIZE, USER_ADDRESS_LIMIT,
};
use crate::mm::physical;
use crate::mm::physical::{Flush, MemoryView, PageMemory};
use crate::mm::user;
use crate::mm::user::{checked_user_range, UserAccess, UserRange};
use vstd::prelude::*;

pub mod laws;
pub mod protection;
pub mod changes;
pub mod spaces;
pub use self::protection::{
    initialize_kernel_permissions, map_guarded_kernel_stack, map_mmio_uncached,
    set_low_identity_executable, unmap_guarded_kernel_stack, KernelRanges, PagingSecurity,
};

verus! {

pub const ENTRY_COUNT: usize = 512;

pub const ADDRESS_MASK: u64 = 0x000f_ffff_ffff_f000;

pub const PAGE_2M_MASK: u64 = 0x000f_ffff_ffe0_0000;

pub const PAGE_1G_MASK: u64 = 0x000f_ffff_c000_0000;

pub const ENTRY_PRESENT: u64 = 0x1;

pub const ENTRY_WRITABLE: u64 = 0x2;

pub const ENTRY_USER: u64 = 0x4;

pub const ENTRY_WRITE_THROUGH: u64 = 0x8;

pub const ENTRY_CACHE_DISABLE: u64 = 0x10;

pub const ENTRY_HUGE: u64 = 0x80;

pub const ENTRY_GLOBAL: u64 = 0x100;

pub const ENTRY_NO_EXECUTE: u64 = 0x8000_0000_0000_0000;

pub const KERNEL_PML4_START: usize = 256;

pub const HIGH_KERNEL_P3_INDEX: usize = 510;

pub const EARLY_STACK_GUARD: u64 = 0xffff_ffff_80fe_f000;

pub const EARLY_STACK_START: u64 = 0xffff_ffff_80ff_0000;

pub const EARLY_STACK_END: u64 = 0xffff_ffff_8100_0000;

/// What a mapping allows.
#[derive(Clone, Copy, Debug, PartialEq, Eq, Structural)]
pub struct MapFlags(pub u64);

impl MapFlags {
    pub fn present() -> (flags: Self)
        ensures
            flags == MapFlags(ENTRY_PRESENT),
    {
        MapFlags(ENTRY_PRESENT)
    }

    pub fn writable() -> (flags: Self)
        ensures
            flags == MapFlags(ENTRY_WRITABLE),
    {
        MapFlags(ENTRY_WRITABLE)
    }

    pub fn user() -> (flags: Self)
        ensures
            flags == MapFlags(ENTRY_USER),
    {
        MapFlags(ENTRY_USER)
    }

    pub fn write_through() -> (flags: Self)
        ensures
            flags == MapFlags(ENTRY_WRITE_THROUGH),
    {
        MapFlags(ENTRY_WRITE_THROUGH)
    }

    pub fn cache_disable() -> (flags: Self)
        ensures
            flags == MapFlags(ENTRY_CACHE_DISABLE),
    {
        MapFlags(ENTRY_CACHE_DISABLE)
    }

    pub fn global() -> (flags: Self)
        ensures
            flags == MapFlags(ENTRY_GLOBAL),
    {
        MapFlags(ENTRY_GLOBAL)
    }

    pub fn no_execute() -> (flags: Self)
        ensures
            flags == MapFlags(ENTRY_NO_EXECUTE),
    {
        MapFlags(ENTRY_NO_EXECUTE)
    }

    pub open spec fn has(self, bits: u64) -> bool {
        self.0 & bits == bits
    }

    pub fn contains(self, other: Self) -> (contained: bool)
        ensures
            contained == self.has(other.0),
    {
        self.0 & other.0 == other.0
    }

    pub fn bitor(self, rhs: Self) -> (both: Self)
        ensures
            both == MapFlags(self.0 | rhs.0),
    {
        MapFlags(self.0 | rhs.0)
    }

    pub fn bitor_assign(&mut self, rhs: Self)
        ensures
            *final(self) == MapFlags(old(self).0 | rhs.0),
    {
        self.0 = self.0 | rhs.0;
    }
}

#[derive(Clone, Copy, Debug, PartialEq, Eq, Structural)]
pub enum MapError {
    OutOfMemory,
    AlreadyMapped,
    NotMapped,
    HugePageConflict,
    InvalidTable,
    InvalidAddress,
    PermissionDenied,
    AddressSpaceBusy,
}

pub open spec fn is_present(entry: u64) -> bool {
    entry & ENTRY_PRESENT != 0
}

pub open spec fn is_huge(entry: u64) -> bool {
    entry & ENTRY_HUGE != 0
}

/// Whether a table can lie at an address.
pub open spec fn table_ok(table: u64) -> bool {
    table != 0 && table < MAX_DIRECT_MAPPED_PHYSICAL
}

/// The entry of a table.
pub open spec fn entry_of(memory: MemoryView, table: u64, index: int) -> u64 {
    memory.word(table + index * 8)
}

pub open spec fn with_entry(memory: MemoryView, table: u64, index: int, entry: u64) -> MemoryView {
    memory.with_word(table + index * 8, entry)
}

/// The table that an entry leads to.
pub open spec fn target_of(entry: u64) -> u64 {
    entry & ADDRESS_MASK
}

/// The table below a table.
pub open spec fn next_of(memory: MemoryView, table: u64, index: int) -> Result<u64, MapError> {
    let entry = entry_of(memory, table, index);
    if !table_ok(table) {
        Err(MapError::InvalidTable)
    } else if !is_present(entry) {
        Err(MapError::NotMapped)
    } else if is_huge(entry) {
        Err(MapError::HugePageConflict)
    } else {
        Ok(target_of(entry))
    }
}

/// The table of level 1 for an address.
pub open spec fn leaf_table(memory: MemoryView, root: u64, page: u64) -> Result<u64, MapError> {
    match next_of(memory, root, address::table_index(page, 4)) {
        Err(error) => Err(error),
        Ok(third) => match next_of(memory, third, address::table_index(page, 3)) {
            Err(error) => Err(error),
            Ok(second) => next_of(memory, second, address::table_index(page, 2)),
        },
    }
}

/// Whether flags would let code be written and run.
pub open spec fn breaks_protection(flags: MapFlags) -> bool {
    flags.has(ENTRY_WRITABLE) && !flags.has(ENTRY_NO_EXECUTE)
}

/// The tables for an address from `level` down to level 2, made where they are missing,
/// and the table of level 1.
pub open spec fn opened(
    memory: MemoryView,
    table: u64,
    page: u64,
    level: int,
    for_user: bool,
) -> (MemoryView, Result<u64, MapError>)
    decreases level,
{
    let index = address::table_index(page, level);
    let entry = entry_of(memory, table, index);
    let user_bit = if for_user {
        ENTRY_USER
    } else {
        0
    };
    if level < 2 {
        (memory, Ok(table))
    } else if !table_ok(table) {
        (memory, Err(MapError::InvalidTable))
    } else if is_present(entry) && is_huge(entry) {
        (memory, Err(MapError::HugePageConflict))
    } else if !is_present(entry) {
        match memory.allocated() {
            (after, Err(_)) => (after, Err(MapError::OutOfMemory)),
            (after, Ok(frame)) => {
                let made = frame.spec_u64() | ENTRY_PRESENT | ENTRY_WRITABLE | user_bit;
                opened(
                    with_entry(after.zeroed(frame.spec_u64() as int), table, index, made),
                    target_of(made),
                    page,
                    level - 1,
                    for_user,
                )
            },
        }
    } else if for_user {
        opened(
            with_entry(memory, table, index, entry | ENTRY_USER),
            target_of(entry | ENTRY_USER),
            page,
            level - 1,
            for_user,
        )
    } else {
        opened(memory, target_of(entry), page, level - 1, for_user)
    }
}

/// Mapping a page.
#[verifier::opaque]
pub open spec fn mapped(
    memory: MemoryView,
    root: u64,
    page: u64,
    frame: u64,
    flags: MapFlags,
) -> (MemoryView, Result<(), MapError>) {
    if frame >= MAX_DIRECT_MAPPED_PHYSICAL {
        (memory, Err(MapError::InvalidAddress))
    } else if breaks_protection(flags) {
        (memory, Err(MapError::PermissionDenied))
    } else {
        match opened(memory, root, page, 4, flags.has(ENTRY_USER)) {
            (after, Err(error)) => (after, Err(error)),
            (after, Ok(table)) => {
                let index = address::table_index(page, 1);
                if !table_ok(table) {
                    (after, Err(MapError::InvalidTable))
                } else if is_present(entry_of(after, table, index)) {
                    (after, Err(MapError::AlreadyMapped))
                } else {
                    (
                        with_entry(
                            after,
                            table,
                            index,
                            frame | flags.0 | ENTRY_PRESENT,
                        ).flushed(Flush::Page(page)),
                        Ok(()),
                    )
                }
            },
        }
    }
}

/// Whether a table has no entries.
pub open spec fn is_empty(memory: MemoryView, table: u64) -> bool {
    forall|index: int| 0 <= index < 512 ==> #[trigger] entry_of(memory, table, index) == 0
}

/// The tables on the way to a page, from the root down.
pub open spec fn parent_at(memory: MemoryView, root: u64, page: u64, depth: int) -> u64
    decreases depth,
{
    if depth <= 0 {
        root
    } else {
        next_of(
            memory,
            parent_at(memory, root, page, depth - 1),
            address::table_index(page, 5 - depth),
        )->Ok_0
    }
}

/// Giving back tables that are empty, from `depth` up: the child below the table of that
/// depth, if it is empty, then that table, and so on.
pub open spec fn reclaimed(
    memory: MemoryView,
    parents: Seq<u64>,
    page: u64,
    child: u64,
    depth: int,
) -> (MemoryView, Result<(), MapError>)
    decreases depth + 1,
{
    if depth < 0 {
        (memory, Ok(()))
    } else if !table_ok(child) {
        (memory, Err(MapError::InvalidTable))
    } else if !is_empty(memory, child) {
        (memory, Ok(()))
    } else {
        match memory.deallocated(child) {
            (after, Err(_)) => (after, Err(MapError::InvalidTable)),
            (after, Ok(_)) => if !table_ok(parents[depth]) {
                (after, Err(MapError::InvalidTable))
            } else {
                reclaimed(
                    with_entry(after, parents[depth], address::table_index(page, 4 - depth), 0),
                    parents,
                    page,
                    parents[depth],
                    depth - 1,
                )
            },
        }
    }
}

/// Unmapping a page.
#[verifier::opaque]
pub open spec fn unmapped(memory: MemoryView, root: u64, page: u64) -> (
    MemoryView,
    Result<u64, MapError>,
) {
    match leaf_table(memory, root, page) {
        Err(error) => (memory, Err(error)),
        Ok(table) => {
            let index = address::table_index(page, 1);
            let entry = entry_of(memory, table, index);
            if !table_ok(table) {
                (memory, Err(MapError::InvalidTable))
            } else if !is_present(entry) {
                (memory, Err(MapError::NotMapped))
            } else {
                let cleared = with_entry(memory, table, index, 0).flushed(Flush::Page(page));
                let parents = seq![
                    root,
                    parent_at(memory, root, page, 1),
                    parent_at(memory, root, page, 2),
                ];
                match reclaimed(cleared, parents, page, table, 2) {
                    (after, Err(error)) => (after, Err(error)),
                    (after, Ok(_)) => (after, Ok(target_of(entry))),
                }
            }
        },
    }
}

/// Where a page lies.
pub open spec fn translated(memory: MemoryView, table: u64, page: u64, level: int) -> Option<u64>
    decreases level,
{
    let entry = entry_of(memory, table, address::table_index(page, level));
    if level < 1 || !table_ok(table) || !is_present(entry) {
        None
    } else if level == 3 && is_huge(entry) {
        page_within(entry & PAGE_1G_MASK, page, 0x4000_0000)
    } else if level == 2 && is_huge(entry) {
        page_within(entry & PAGE_2M_MASK, page, 0x20_0000)
    } else if level == 1 {
        Some(target_of(entry))
    } else {
        translated(memory, target_of(entry), page, level - 1)
    }
}

/// The page of a large frame that an address falls on.
pub open spec fn page_within(base: u64, page: u64, size: int) -> Option<u64> {
    let sum = base + page as int % size;
    Some((sum - sum % 4096) as u64)
}

proof fn lemma_masks(entry: u64)
    by (bit_vector)
    ensures
        (entry & 0x000f_ffff_ffff_f000u64) % 4096 == 0,
        entry & 0x000f_ffff_ffe0_0000u64 <= 0x000f_ffff_ffe0_0000u64,
        entry & 0x000f_ffff_c000_0000u64 <= 0x000f_ffff_c000_0000u64,
{
}

/// The page tables below a root.
#[derive(Clone, Copy)]
pub struct ActivePageTable {
    pub root: PhysicalAddress,
}

/// Reads an entry of a table.
fn read_entry(memory: &PageMemory, table: u64, index: usize) -> (entry: Result<u64, MapError>)
    requires
        table % 4096 == 0,
        index < 512,
    ensures
        entry == (if table_ok(table) {
            Ok::<u64, MapError>(entry_of(memory@, table, index as int))
        } else {
            Err(MapError::InvalidTable)
        }),
{
    if table == 0 || table >= MAX_DIRECT_MAPPED_PHYSICAL {
        return Err(MapError::InvalidTable);
    }
    Ok(memory.read_word(table + index as u64 * 8))
}

/// Writes an entry of a table.
fn write_entry(memory: &mut PageMemory, table: u64, index: usize, entry: u64)
    requires
        old(memory).wf(),
        table_ok(table),
        table % 4096 == 0,
        index < 512,
    ensures
        final(memory).wf(),
        final(memory)@ == with_entry(old(memory)@, table, index as int, entry),
{
    memory.write_word(table + index as u64 * 8, entry);
}

/// The address in an entry.
fn entry_target(entry: u64) -> (target: u64)
    ensures
        target == target_of(entry),
        target % 4096 == 0,
{
    proof {
        lemma_masks(entry);
    }
    entry & ADDRESS_MASK
}

fn next_table(memory: &PageMemory, table: u64, index: usize) -> (next: Result<u64, MapError>)
    requires
        table % 4096 == 0,
        index < 512,
    ensures
        next == next_of(memory@, table, index as int),
        next is Ok ==> next->Ok_0 % 4096 == 0,
{
    match read_entry(memory, table, index) {
        Err(error) => Err(error),
        Ok(entry) => {
            if entry & ENTRY_PRESENT == 0 {
                return Err(MapError::NotMapped);
            }
            if entry & ENTRY_HUGE != 0 {
                return Err(MapError::HugePageConflict);
            }
            Ok(entry_target(entry))
        },
    }
}

impl ActivePageTable {
    /// The tables that the processor uses.
    pub fn current(memory: &PageMemory) -> (table: Result<Self, MapError>)
        ensures
            table is Ok,
            table->Ok_0.root.spec_u64() == target_of(memory@.root),
    {
        let root: u64 = entry_target(memory.root());
        match PhysicalAddress::new(root) {
            Some(root) => Ok(ActivePageTable { root }),
            None => Err(MapError::InvalidTable),
        }
    }

    pub fn map_4k(
        &self,
        memory: &mut PageMemory,
        virtual_address: VirtualAddress,
        physical_address: PhysicalAddress,
        flags: MapFlags,
    ) -> (result: Result<(), MapError>)
        requires
            old(memory).wf(),
        ensures
            final(memory).wf(),
            (final(memory)@, result) == mapped(
                old(memory)@,
                self.root.spec_u64(),
                virtual_address.spec_u64(),
                physical_address.spec_u64(),
                flags,
            ),
    {
        reveal(mapped);
        let frame: u64 = physical_address.as_u64();
        if frame >= MAX_DIRECT_MAPPED_PHYSICAL {
            return Err(MapError::InvalidAddress);
        }
        // A page that can be written and run would let anyone inject code.
        if flags.contains(MapFlags::writable()) && !flags.contains(MapFlags::no_execute()) {
            return Err(MapError::PermissionDenied);
        }
        let for_user = flags.contains(MapFlags::user());
        let table: u64 = match self.open_tables(memory, virtual_address, for_user) {
            Err(error) => {
                return Err(error);
            },
            Ok(table) => table,
        };
        let index: usize = virtual_address.page_index(1);
        match read_entry(memory, table, index) {
            Err(error) => Err(error),
            Ok(entry) => {
                if entry & ENTRY_PRESENT != 0 {
                    return Err(MapError::AlreadyMapped);
                }
                write_entry(memory, table, index, frame | flags.0 | ENTRY_PRESENT);
                memory.flush(Flush::Page(virtual_address.as_u64()));
                Ok(())
            },
        }
    }

    /// Makes the missing tables for a page and finds the table of level 1.
    fn open_tables(
        &self,
        memory: &mut PageMemory,
        virtual_address: VirtualAddress,
        for_user: bool,
    ) -> (table: Result<u64, MapError>)
        requires
            old(memory).wf(),
        ensures
            final(memory).wf(),
            (final(memory)@, table) == opened(
                old(memory)@,
                self.root.spec_u64(),
                virtual_address.spec_u64(),
                4,
                for_user,
            ),
            table is Ok ==> table->Ok_0 % 4096 == 0,
    {
        let mut table: u64 = self.root.as_u64();
        let mut level: u8 = 4;
        while level >= 2
            invariant
                1 <= level <= 4,
                table % 4096 == 0,
                memory.wf(),
                opened(
                    memory@,
                    table,
                    virtual_address.spec_u64(),
                    level as int,
                    for_user,
                ) == opened(
                    old(memory)@,
                    self.root.spec_u64(),
                    virtual_address.spec_u64(),
                    4,
                    for_user,
                ),
            decreases level,
        {
            let index: usize = virtual_address.page_index(level);
            let entry: u64 = match read_entry(memory, table, index) {
                Err(error) => {
                    return Err(error);
                },
                Ok(entry) => entry,
            };
            if entry & ENTRY_PRESENT != 0 && entry & ENTRY_HUGE != 0 {
                return Err(MapError::HugePageConflict);
            }
            let mut next: u64 = entry;
            if entry & ENTRY_PRESENT == 0 {
                let frame: u64 = match memory.allocate() {
                    Err(_) => {
                        return Err(MapError::OutOfMemory);
                    },
                    Ok(frame) => frame.as_u64(),
                };
                memory.zero_frame(frame);
                let user_bit: u64 = if for_user {
                    ENTRY_USER
                } else {
                    0
                };
                next = frame | ENTRY_PRESENT | ENTRY_WRITABLE | user_bit;
                write_entry(memory, table, index, next);
            } else if for_user {
                next = entry | ENTRY_USER;
                write_entry(memory, table, index, next);
            }
            table = entry_target(next);
            level = level - 1;
        }
        Ok(table)
    }

    pub fn unmap_4k(&self, memory: &mut PageMemory, virtual_address: VirtualAddress) -> (result:
        Result<PhysicalAddress, MapError>)
        requires
            old(memory).wf(),
        ensures
            final(memory).wf(),
            final(memory)@ == unmapped(
                old(memory)@,
                self.root.spec_u64(),
                virtual_address.spec_u64(),
            ).0,
            same_address(
                result,
                unmapped(old(memory)@, self.root.spec_u64(), virtual_address.spec_u64()).1,
            ),
    {
        reveal(unmapped);
        let root: u64 = self.root.as_u64();
        let page: u64 = virtual_address.as_u64();
        proof {
            reveal_with_fuel(parent_at, 3);
        }
        let third: u64 = match next_table(memory, root, virtual_address.page_index(4)) {
            Err(error) => {
                return Err(error);
            },
            Ok(table) => table,
        };
        let second: u64 = match next_table(memory, third, virtual_address.page_index(3)) {
            Err(error) => {
                return Err(error);
            },
            Ok(table) => table,
        };
        let table: u64 = match next_table(memory, second, virtual_address.page_index(2)) {
            Err(error) => {
                return Err(error);
            },
            Ok(table) => table,
        };
        let index: usize = virtual_address.page_index(1);
        let entry: u64 = match read_entry(memory, table, index) {
            Err(error) => {
                return Err(error);
            },
            Ok(entry) => entry,
        };
        if entry & ENTRY_PRESENT == 0 {
            return Err(MapError::NotMapped);
        }
        write_entry(memory, table, index, 0);
        memory.flush(Flush::Page(page));
        let ghost cleared = memory@;
        let parents: [u64; 3] = [root, third, second];
        assert(parents@ =~= seq![
            root,
            parent_at(old(memory)@, root, page, 1),
            parent_at(old(memory)@, root, page, 2),
        ]);
        match self.reclaim_tables(memory, &parents, virtual_address, table) {
            Err(error) => Err(error),
            Ok(_) => match PhysicalAddress::new(entry_target(entry)) {
                Some(physical) => Ok(physical),
                None => Err(MapError::InvalidTable),
            },
        }
    }

    /// Gives back the tables on the way to a page that have become empty.
    fn reclaim_tables(
        &self,
        memory: &mut PageMemory,
        parents: &[u64; 3],
        virtual_address: VirtualAddress,
        leaf: u64,
    ) -> (result: Result<(), MapError>)
        requires
            old(memory).wf(),
            leaf % 4096 == 0,
            forall|i: int| 0 <= i < 3 ==> #[trigger] parents@[i] % 4096 == 0,
        ensures
            final(memory).wf(),
            (final(memory)@, result) == reclaimed(
                old(memory)@,
                parents@,
                virtual_address.spec_u64(),
                leaf,
                2,
            ),
    {
        let mut child: u64 = leaf;
        let mut remaining: usize = 3;
        while remaining > 0
            invariant
                remaining <= 3,
                child % 4096 == 0,
                memory.wf(),
                forall|i: int| 0 <= i < 3 ==> #[trigger] parents@[i] % 4096 == 0,
                reclaimed(
                    memory@,
                    parents@,
                    virtual_address.spec_u64(),
                    child,
                    remaining - 1,
                ) == reclaimed(
                    old(memory)@,
                    parents@,
                    virtual_address.spec_u64(),
                    leaf,
                    2,
                ),
            decreases remaining,
        {
            let depth: usize = remaining - 1;
            match table_is_empty(memory, child) {
                Err(error) => {
                    return Err(error);
                },
                Ok(empty) => {
                    if !empty {
                        return Ok(());
                    }
                },
            }
            let frame = match PhysicalAddress::new(child) {
                Some(frame) => frame,
                None => {
                    return Err(MapError::InvalidTable);
                },
            };
            if memory.deallocate(frame).is_err() {
                return Err(MapError::InvalidTable);
            }
            assert(parents@[depth as int] % 4096 == 0);
            let parent: u64 = parents[depth];
            if parent == 0 || parent >= MAX_DIRECT_MAPPED_PHYSICAL {
                return Err(MapError::InvalidTable);
            }
            let level: u8 = 4 - depth as u8;
            write_entry(memory, parent, virtual_address.page_index(level), 0);
            child = parent;
            remaining = depth;
        }
        Ok(())
    }

    pub fn translate(&self, memory: &PageMemory, virtual_address: VirtualAddress) -> (physical:
        Option<PhysicalAddress>)
        ensures
            same_optional(
                physical,
                translated(memory@, self.root.spec_u64(), virtual_address.spec_u64(), 4),
            ),
    {
        let page: u64 = virtual_address.as_u64();
        let mut table: u64 = self.root.as_u64();
        let mut level: u8 = 4;
        while level >= 1
            invariant
                level <= 4,
                table % 4096 == 0,
                page == virtual_address.spec_u64(),
                translated(memory@, table, page, level as int) == translated(
                    memory@,
                    self.root.spec_u64(),
                    page,
                    4,
                ),
            decreases level,
        {
            let entry: u64 = match read_entry(memory, table, virtual_address.page_index(level)) {
                Err(_) => {
                    return None;
                },
                Ok(entry) => entry,
            };
            if entry & ENTRY_PRESENT == 0 {
                return None;
            }
            proof {
                lemma_masks(entry);
            }
            if level == 3 && entry & ENTRY_HUGE != 0 {
                let sum: u64 = (entry & PAGE_1G_MASK) + page % 0x4000_0000;
                return PhysicalAddress::new(sum - sum % 4096);
            }
            if level == 2 && entry & ENTRY_HUGE != 0 {
                let sum: u64 = (entry & PAGE_2M_MASK) + page % 0x20_0000;
                return PhysicalAddress::new(sum - sum % 4096);
            }
            if level == 1 {
                return PhysicalAddress::new(entry_target(entry));
            }
            table = entry_target(entry);
            level = level - 1;
        }
        None
    }
}

/// A result that holds the address.
pub open spec fn same_address(
    result: Result<PhysicalAddress, MapError>,
    address: Result<u64, MapError>,
) -> bool {
    match (result, address) {
        (Ok(physical), Ok(address)) => physical.spec_u64() == address,
        (Err(error), Err(expected)) => error == expected,
        _ => false,
    }
}

/// A value that holds the address.
pub open spec fn same_optional(result: Option<PhysicalAddress>, address: Option<u64>) -> bool {
    match (result, address) {
        (Some(physical), Some(address)) => physical.spec_u64() == address,
        (None, None) => true,
        _ => false,
    }
}

/// Whether a table has no entries.
fn table_is_empty(memory: &PageMemory, table: u64) -> (empty: Result<bool, MapError>)
    requires
        table % 4096 == 0,
    ensures
        empty == (if table_ok(table) {
            Ok::<bool, MapError>(is_empty(memory@, table))
        } else {
            Err(MapError::InvalidTable)
        }),
{
    if table == 0 || table >= MAX_DIRECT_MAPPED_PHYSICAL {
        return Err(MapError::InvalidTable);
    }
    let mut index: usize = 0;
    while index < 512
        invariant
            index <= 512,
            table_ok(table),
            table % 4096 == 0,
            forall|i: int| 0 <= i < index ==> #[trigger] entry_of(memory@, table, i) == 0,
        decreases 512 - index,
    {
        if memory.read_word(table + index as u64 * 8) != 0 {
            assert(entry_of(memory@, table, index as int) != 0);
            return Ok(false);
        }
        index += 1;
    }
    Ok(true)
}

/// The state after the first `count` pages from `page` on were unmapped, whatever each of
/// them gave.
pub open spec fn rolled_back(memory: MemoryView, root: u64, page: u64, count: int) -> MemoryView
    decreases count,
{
    if count <= 0 {
        memory
    } else {
        unmapped(
            rolled_back(memory, root, page, count - 1),
            root,
            (page + (count - 1) * 4096) as u64,
        ).0
    }
}

/// Whether a page lies so many pages behind another.
pub open spec fn page_exists(page: u64, offset: int) -> bool {
    page + offset * 4096 <= u64::MAX && address::is_canonical((page + offset * 4096) as u64)
}

/// Mapping the pages from number `done` on; a page that cannot be mapped undoes those
/// before it.
pub open spec fn range_mapped(
    memory: MemoryView,
    root: u64,
    page: u64,
    frame: u64,
    pages: int,
    flags: MapFlags,
    done: int,
) -> (MemoryView, Result<(), MapError>)
    decreases pages - done,
{
    if done >= pages {
        (memory, Ok(()))
    } else if !page_exists(page, done) || frame + done * 4096 > u64::MAX {
        (memory, Err(MapError::InvalidAddress))
    } else {
        match mapped(
            memory,
            root,
            (page + done * 4096) as u64,
            (frame + done * 4096) as u64,
            flags,
        ) {
            (after, Err(error)) => (rolled_back(after, root, page, done), Err(error)),
            (after, Ok(_)) => range_mapped(after, root, page, frame, pages, flags, done + 1),
        }
    }
}

/// Unmapping the pages from number `done` on, and giving their frames back.
pub open spec fn range_released(
    memory: MemoryView,
    root: u64,
    page: u64,
    pages: int,
    release_frames: bool,
    done: int,
) -> (MemoryView, Result<(), MapError>)
    decreases pages - done,
{
    if done >= pages {
        (memory, Ok(()))
    } else if !page_exists(page, done) {
        (memory, Err(MapError::InvalidAddress))
    } else {
        match unmapped(memory, root, (page + done * 4096) as u64) {
            (after, Err(error)) => (after, Err(error)),
            (after, Ok(frame)) => if release_frames {
                match after.deallocated(frame) {
                    (last, Err(_)) => (last, Err(MapError::InvalidTable)),
                    (last, Ok(_)) => range_released(
                        last,
                        root,
                        page,
                        pages,
                        release_frames,
                        done + 1,
                    ),
                }
            } else {
                range_released(after, root, page, pages, release_frames, done + 1)
            },
        }
    }
}

/// Mapping new frames of zeros at the pages from number `done` on; what was mapped is
/// released if not all of them can be.
pub open spec fn range_allocated(
    memory: MemoryView,
    root: u64,
    page: u64,
    pages: int,
    flags: MapFlags,
    done: int,
) -> (MemoryView, Result<(), MapError>)
    decreases pages - done,
{
    if done >= pages {
        (memory, Ok(()))
    } else if !page_exists(page, done) {
        (memory, Err(MapError::InvalidAddress))
    } else {
        match memory.allocated() {
            (after, Err(_)) => (
                range_released(after, root, page, done, true, 0).0,
                Err(MapError::OutOfMemory),
            ),
            (after, Ok(frame)) => {
                let zeroed = after.zeroed(frame.spec_u64() as int);
                match mapped(
                    zeroed,
                    root,
                    (page + done * 4096) as u64,
                    frame.spec_u64(),
                    flags,
                ) {
                    (failed, Err(error)) => (
                        range_released(
                            failed.deallocated(frame.spec_u64()).0,
                            root,
                            page,
                            done,
                            true,
                            0,
                        ).0,
                        Err(error),
                    ),
                    (last, Ok(_)) => range_allocated(last, root, page, pages, flags, done + 1),
                }
            },
        }
    }
}

#[derive(Clone, Copy, Debug, PartialEq, Eq, Structural)]
pub enum UserCopyError {
    InvalidRange,
    NotMapped,
    PermissionDenied,
}

/// The frame of a user page. Every level must let the user in, and let it write if it
/// writes.
pub open spec fn user_frame(
    memory: MemoryView,
    table: u64,
    page: u64,
    write: bool,
    level: int,
) -> Result<u64, UserCopyError>
    decreases level,
{
    let entry = entry_of(memory, table, address::table_index(page, level));
    if level < 1 || !table_ok(table) || !is_present(entry) {
        Err(UserCopyError::NotMapped)
    } else if entry & ENTRY_USER == 0 || (write && entry & ENTRY_WRITABLE == 0) {
        Err(UserCopyError::PermissionDenied)
    } else if level == 1 {
        Ok(target_of(entry))
    } else if is_huge(entry) {
        Err(UserCopyError::PermissionDenied)
    } else {
        user_frame(memory, target_of(entry), page, write, level - 1)
    }
}

/// The frame that a user sees at an address.
pub open spec fn user_mapping(memory: MemoryView, root: u64, at: u64, write: bool) -> Result<
    u64,
    UserCopyError,
> {
    if at < PAGE_SIZE || at >= USER_ADDRESS_LIMIT {
        Err(UserCopyError::InvalidRange)
    } else {
        user_frame(memory, root, (at - at as int % 4096) as u64, write, 4)
    }
}

/// Setting what a mapping allows.
#[verifier::opaque]
pub open spec fn flags_set(memory: MemoryView, root: u64, page: u64, flags: MapFlags) -> (
    MemoryView,
    Result<(), MapError>,
) {
    if breaks_protection(flags) {
        (memory, Err(MapError::PermissionDenied))
    } else {
        match leaf_table(memory, root, page) {
            Err(error) => (memory, Err(error)),
            Ok(table) => {
                let index = address::table_index(page, 1);
                let entry = entry_of(memory, table, index);
                if !table_ok(table) {
                    (memory, Err(MapError::InvalidTable))
                } else if !is_present(entry) {
                    (memory, Err(MapError::NotMapped))
                } else {
                    (
                        with_entry(
                            memory,
                            table,
                            index,
                            target_of(entry) | flags.0 | ENTRY_PRESENT,
                        ).flushed(Flush::Page(page)),
                        Ok(()),
                    )
                }
            },
        }
    }
}

/// The state with the first `count` entries of a table leading to the pages from `base`
/// on.
pub open spec fn filled(
    memory: MemoryView,
    table: u64,
    base: u64,
    flags: u64,
    count: int,
) -> MemoryView
    decreases count,
{
    if count <= 0 {
        memory
    } else {
        with_entry(
            filled(memory, table, base, flags, count - 1),
            table,
            count - 1,
            ((base + (count - 1) * 4096) as u64) | flags | ENTRY_PRESENT,
        )
    }
}

/// Splitting a page of two megabytes into pages that allow the same.
#[verifier::opaque]
pub open spec fn split(memory: MemoryView, root: u64, page: u64) -> (
    MemoryView,
    Result<(), MapError>,
) {
    match next_of(memory, root, address::table_index(page, 4)) {
        Err(error) => (memory, Err(error)),
        Ok(third) => match next_of(memory, third, address::table_index(page, 3)) {
            Err(error) => (memory, Err(error)),
            Ok(table) => {
                let index = address::table_index(page, 2);
                let entry = entry_of(memory, table, index);
                if !table_ok(table) {
                    (memory, Err(MapError::InvalidTable))
                } else if !is_present(entry) {
                    (memory, Err(MapError::NotMapped))
                } else if !is_huge(entry) {
                    (memory, Ok(()))
                } else {
                    match memory.allocated() {
                        (after, Err(_)) => (after, Err(MapError::OutOfMemory)),
                        (after, Ok(frame)) => {
                            let made = frame.spec_u64();
                            let zeroed = after.zeroed(made as int);
                            if !table_ok(made) {
                                (zeroed, Err(MapError::InvalidTable))
                            } else {
                                let leaves = filled(
                                    zeroed,
                                    made,
                                    entry & PAGE_2M_MASK,
                                    entry & !ADDRESS_MASK & !ENTRY_HUGE,
                                    512,
                                );
                                (
                                    with_entry(
                                        leaves,
                                        table,
                                        index,
                                        made | ENTRY_PRESENT | ENTRY_WRITABLE | (entry
                                            & ENTRY_USER),
                                    ).switched(root),
                                    Ok(()),
                                )
                            }
                        },
                    }
                }
            },
        },
    }
}

/// The state with an entry that lets nothing run, if it is present.
pub open spec fn entry_protected(memory: MemoryView, table: u64, index: int) -> MemoryView {
    let entry = entry_of(memory, table, index);
    if is_present(entry) {
        with_entry(memory, table, index, entry | ENTRY_NO_EXECUTE)
    } else {
        memory
    }
}

/// Nothing runs below the identity mapping and the direct mapping.
pub open spec fn low_and_direct_protected(memory: MemoryView, root: u64) -> (
    MemoryView,
    Result<(), MapError>,
) {
    if !table_ok(root) {
        (memory, Err(MapError::InvalidTable))
    } else {
        (
            entry_protected(entry_protected(memory, root, 0), root, 256).switched(root),
            Ok(()),
        )
    }
}

/// The state with the entries of a table from `from` to `count` letting nothing run.
pub open spec fn entries_protected(memory: MemoryView, table: u64, from: int, count: int) -> MemoryView
    decreases count,
{
    if count <= 0 {
        memory
    } else {
        let before = entries_protected(memory, table, from, count - 1);
        if count - 1 >= from {
            entry_protected(before, table, count - 1)
        } else {
            before
        }
    }
}

/// A value rounded down to a multiple.
pub open spec fn aligned_down(value: u64, alignment: int) -> int {
    value - value as int % alignment
}

/// A value rounded up to a multiple, as far as numbers go.
pub open spec fn aligned_up(value: u64, alignment: int) -> int {
    let sum = if value + (alignment - 1) > u64::MAX {
        u64::MAX as int
    } else {
        value + (alignment - 1)
    };
    sum - sum % alignment
}

/// Nothing runs in the high half behind the kernel.
pub open spec fn unused_protected(memory: MemoryView, root: u64, kernel_end: u64) -> (
    MemoryView,
    Result<(), MapError>,
) {
    match next_of(memory, root, 511) {
        Err(error) => (memory, Err(error)),
        Ok(third) => match next_of(memory, third, 510) {
            Err(error) => (memory, Err(error)),
            Ok(table) => if !table_ok(table) {
                (memory, Err(MapError::InvalidTable))
            } else {
                (
                    entries_protected(
                        memory,
                        table,
                        aligned_up(kernel_end, 0x20_0000) / 0x20_0000,
                        512,
                    ).switched(root),
                    Ok(()),
                )
            },
        },
    }
}

pub fn align_down(value: u64, alignment: u64) -> (aligned: u64)
    requires
        alignment > 0,
    ensures
        aligned == aligned_down(value, alignment as int),
{
    assert(value as int % alignment as int <= value) by (nonlinear_arith)
        requires
            alignment > 0,
            value >= 0,
    ;
    value - value % alignment
}

pub fn align_up(value: u64, alignment: u64) -> (aligned: u64)
    requires
        alignment > 0,
    ensures
        aligned == aligned_up(value, alignment as int),
{
    let sum: u64 = value.saturating_add(alignment - 1);
    align_down(sum, alignment)
}

/// The page so many pages behind another, if there is one.
fn page_at(page: VirtualAddress, offset: usize) -> (result: Option<VirtualAddress>)
    ensures
        result is Some <==> page_exists(page.spec_u64(), offset as int),
        result is Some ==> result.unwrap().spec_u64() == page.spec_u64() + offset * 4096,
{
    match (offset as u64).checked_mul(PAGE_SIZE) {
        None => None,
        Some(bytes) => match page.as_u64().checked_add(bytes) {
            None => None,
            Some(address) => VirtualAddress::new(address),
        },
    }
}

impl ActivePageTable {
    pub fn map_range(
        &self,
        memory: &mut PageMemory,
        virtual_start: VirtualAddress,
        physical_start: PhysicalAddress,
        pages: usize,
        flags: MapFlags,
    ) -> (result: Result<(), MapError>)
        requires
            old(memory).wf(),
        ensures
            final(memory).wf(),
            (final(memory)@, result) == (if pages == 0 {
                (old(memory)@, Err::<(), MapError>(MapError::InvalidAddress))
            } else {
                range_mapped(
                    old(memory)@,
                    self.root.spec_u64(),
                    virtual_start.spec_u64(),
                    physical_start.spec_u64(),
                    pages as int,
                    flags,
                    0,
                )
            }),
    {
        if pages == 0 {
            return Err(MapError::InvalidAddress);
        }
        let frame: u64 = physical_start.as_u64();
        let mut done: usize = 0;
        while done < pages
            invariant
                done <= pages,
                memory.wf(),
                frame == physical_start.spec_u64(),
                frame % 4096 == 0,
                pages > 0,
                forall|i: int| 0 <= i < done ==> #[trigger] page_exists(virtual_start.spec_u64(), i),
                range_mapped(
                    memory@,
                    self.root.spec_u64(),
                    virtual_start.spec_u64(),
                    frame,
                    pages as int,
                    flags,
                    done as int,
                ) == range_mapped(
                    old(memory)@,
                    self.root.spec_u64(),
                    virtual_start.spec_u64(),
                    frame,
                    pages as int,
                    flags,
                    0,
                ),
            decreases pages - done,
        {
            let page = match page_at(virtual_start, done) {
                Some(page) => page,
                None => {
                    return Err(MapError::InvalidAddress);
                },
            };
            let bytes: u64 = page.as_u64() - virtual_start.as_u64();
            let physical = match frame.checked_add(bytes) {
                Some(address) => match PhysicalAddress::new(address) {
                    Some(physical) => physical,
                    None => {
                        return Err(MapError::InvalidAddress);
                    },
                },
                None => {
                    return Err(MapError::InvalidAddress);
                },
            };
            if let Err(error) = self.map_4k(memory, page, physical, flags) {
                self.roll_back(memory, virtual_start, done);
                return Err(error);
            }
            done += 1;
        }
        Ok(())
    }

    /// Unmaps pages, whatever each of them gives.
    fn roll_back(&self, memory: &mut PageMemory, virtual_start: VirtualAddress, pages: usize)
        requires
            old(memory).wf(),
            forall|i: int| 0 <= i < pages ==> #[trigger] page_exists(virtual_start.spec_u64(), i),
        ensures
            final(memory).wf(),
            final(memory)@ == rolled_back(
                old(memory)@,
                self.root.spec_u64(),
                virtual_start.spec_u64(),
                pages as int,
            ),
    {
        let mut done: usize = 0;
        while done < pages
            invariant
                done <= pages,
                memory.wf(),
                forall|i: int|
                    0 <= i < pages ==> #[trigger] page_exists(virtual_start.spec_u64(), i),
                memory@ == rolled_back(
                    old(memory)@,
                    self.root.spec_u64(),
                    virtual_start.spec_u64(),
                    done as int,
                ),
            decreases pages - done,
        {
            assert(page_exists(virtual_start.spec_u64(), done as int));
            if let Some(page) = page_at(virtual_start, done) {
                let _ = self.unmap_4k(memory, page);
            }
            done += 1;
        }
    }

    pub fn allocate_range(
        &self,
        memory: &mut PageMemory,
        virtual_start: VirtualAddress,
        pages: usize,
        flags: MapFlags,
    ) -> (result: Result<(), MapError>)
        requires
            old(memory).wf(),
        ensures
            final(memory).wf(),
            (final(memory)@, result) == (if pages == 0 {
                (old(memory)@, Err::<(), MapError>(MapError::InvalidAddress))
            } else {
                range_allocated(
                    old(memory)@,
                    self.root.spec_u64(),
                    virtual_start.spec_u64(),
                    pages as int,
                    flags,
                    0,
                )
            }),
    {
        if pages == 0 {
            return Err(MapError::InvalidAddress);
        }
        let mut done: usize = 0;
        while done < pages
            invariant
                done <= pages,
                pages > 0,
                memory.wf(),
                range_allocated(
                    memory@,
                    self.root.spec_u64(),
                    virtual_start.spec_u64(),
                    pages as int,
                    flags,
                    done as int,
                ) == range_allocated(
                    old(memory)@,
                    self.root.spec_u64(),
                    virtual_start.spec_u64(),
                    pages as int,
                    flags,
                    0,
                ),
            decreases pages - done,
        {
            let page = match page_at(virtual_start, done) {
                Some(page) => page,
                None => {
                    return Err(MapError::InvalidAddress);
                },
            };
            let physical = match memory.allocate() {
                Ok(physical) => physical,
                Err(_) => {
                    let _ = self.release_range(memory, virtual_start, done, true);
                    return Err(MapError::OutOfMemory);
                },
            };
            memory.zero_frame(physical.as_u64());
            if let Err(error) = self.map_4k(memory, page, physical, flags) {
                let _ = memory.deallocate(physical);
                let _ = self.release_range(memory, virtual_start, done, true);
                return Err(error);
            }
            done += 1;
        }
        Ok(())
    }

    pub fn release_range(
        &self,
        memory: &mut PageMemory,
        virtual_start: VirtualAddress,
        pages: usize,
        release_frames: bool,
    ) -> (result: Result<(), MapError>)
        requires
            old(memory).wf(),
        ensures
            final(memory).wf(),
            (final(memory)@, result) == range_released(
                old(memory)@,
                self.root.spec_u64(),
                virtual_start.spec_u64(),
                pages as int,
                release_frames,
                0,
            ),
    {
        let mut done: usize = 0;
        while done < pages
            invariant
                done <= pages,
                memory.wf(),
                range_released(
                    memory@,
                    self.root.spec_u64(),
                    virtual_start.spec_u64(),
                    pages as int,
                    release_frames,
                    done as int,
                ) == range_released(
                    old(memory)@,
                    self.root.spec_u64(),
                    virtual_start.spec_u64(),
                    pages as int,
                    release_frames,
                    0,
                ),
            decreases pages - done,
        {
            let page = match page_at(virtual_start, done) {
                Some(page) => page,
                None => {
                    return Err(MapError::InvalidAddress);
                },
            };
            let physical = match self.unmap_4k(memory, page) {
                Err(error) => {
                    return Err(error);
                },
                Ok(physical) => physical,
            };
            if release_frames {
                if memory.deallocate(physical).is_err() {
                    return Err(MapError::InvalidTable);
                }
            }
            done += 1;
        }
        Ok(())
    }

    fn user_mapping(&self, memory: &PageMemory, at: u64, write: bool) -> (frame: Result<
        u64,
        UserCopyError,
    >)
        ensures
            frame == user_mapping(memory@, self.root.spec_u64(), at, write),
            frame is Ok ==> frame->Ok_0 % 4096 == 0,
    {
        if at < PAGE_SIZE || at >= USER_ADDRESS_LIMIT {
            return Err(UserCopyError::InvalidRange);
        }
        let page = match VirtualAddress::new(at - at % 4096) {
            Some(page) => page,
            None => {
                return Err(UserCopyError::InvalidRange);
            },
        };
        let mut table: u64 = self.root.as_u64();
        let mut level: u8 = 4;
        while level >= 1
            invariant
                level <= 4,
                table % 4096 == 0,
                PAGE_SIZE <= at < USER_ADDRESS_LIMIT,
                page.spec_u64() == at - at as int % 4096,
                user_frame(memory@, table, page.spec_u64(), write, level as int) == user_frame(
                    memory@,
                    self.root.spec_u64(),
                    page.spec_u64(),
                    write,
                    4,
                ),
            decreases level,
        {
            let entry: u64 = match read_entry(memory, table, page.page_index(level)) {
                Err(_) => {
                    return Err(UserCopyError::NotMapped);
                },
                Ok(entry) => entry,
            };
            if entry & ENTRY_PRESENT == 0 {
                return Err(UserCopyError::NotMapped);
            }
            // An upper entry that keeps the user out must not be passed by.
            if entry & ENTRY_USER == 0 {
                return Err(UserCopyError::PermissionDenied);
            }
            if write && entry & ENTRY_WRITABLE == 0 {
                return Err(UserCopyError::PermissionDenied);
            }
            if level == 1 {
                return Ok(entry_target(entry));
            }
            if entry & ENTRY_HUGE != 0 {
                return Err(UserCopyError::PermissionDenied);
            }
            table = entry_target(entry);
            level = level - 1;
        }
        Err(UserCopyError::NotMapped)
    }

    /// The table of level 1 for a page and the index in it.
    fn walk_to_leaf(&self, memory: &PageMemory, virtual_address: VirtualAddress) -> (leaf: Result<
        (u64, usize),
        MapError,
    >)
        ensures
            leaf is Ok <==> leaf_table(
                memory@,
                self.root.spec_u64(),
                virtual_address.spec_u64(),
            ) is Ok,
            leaf is Ok ==> leaf_table(memory@, self.root.spec_u64(), virtual_address.spec_u64())
                == Ok::<u64, MapError>(leaf->Ok_0.0) && leaf->Ok_0.0 % 4096 == 0 && leaf->Ok_0.1
                == address::table_index(virtual_address.spec_u64(), 1) && leaf->Ok_0.1 < 512,
            leaf is Err ==> leaf_table(memory@, self.root.spec_u64(), virtual_address.spec_u64())
                == Err::<u64, MapError>(leaf->Err_0),
    {
        let third: u64 = match next_table(
            memory,
            self.root.as_u64(),
            virtual_address.page_index(4),
        ) {
            Err(error) => {
                return Err(error);
            },
            Ok(table) => table,
        };
        let second: u64 = match next_table(memory, third, virtual_address.page_index(3)) {
            Err(error) => {
                return Err(error);
            },
            Ok(table) => table,
        };
        match next_table(memory, second, virtual_address.page_index(2)) {
            Err(error) => Err(error),
            Ok(table) => Ok((table, virtual_address.page_index(1))),
        }
    }

    pub fn set_flags_4k(
        &self,
        memory: &mut PageMemory,
        virtual_address: VirtualAddress,
        flags: MapFlags,
    ) -> (result: Result<(), MapError>)
        requires
            old(memory).wf(),
        ensures
            final(memory).wf(),
            (final(memory)@, result) == flags_set(
                old(memory)@,
                self.root.spec_u64(),
                virtual_address.spec_u64(),
                flags,
            ),
    {
        reveal(flags_set);
        if flags.contains(MapFlags::writable()) && !flags.contains(MapFlags::no_execute()) {
            return Err(MapError::PermissionDenied);
        }
        let (table, index): (u64, usize) = match self.walk_to_leaf(memory, virtual_address) {
            Err(error) => {
                return Err(error);
            },
            Ok(leaf) => leaf,
        };
        match read_entry(memory, table, index) {
            Err(error) => Err(error),
            Ok(entry) => {
                if entry & ENTRY_PRESENT == 0 {
                    return Err(MapError::NotMapped);
                }
                write_entry(
                    memory,
                    table,
                    index,
                    entry_target(entry) | flags.0 | ENTRY_PRESENT,
                );
                memory.flush(Flush::Page(virtual_address.as_u64()));
                Ok(())
            },
        }
    }

    pub fn split_2m(&self, memory: &mut PageMemory, virtual_address: VirtualAddress) -> (result:
        Result<(), MapError>)
        requires
            old(memory).wf(),
        ensures
            final(memory).wf(),
            (final(memory)@, result) == split(
                old(memory)@,
                self.root.spec_u64(),
                virtual_address.spec_u64(),
            ),
    {
        reveal(split);
        let root: u64 = self.root.as_u64();
        let third: u64 = match next_table(memory, root, virtual_address.page_index(4)) {
            Err(error) => {
                return Err(error);
            },
            Ok(table) => table,
        };
        let table: u64 = match next_table(memory, third, virtual_address.page_index(3)) {
            Err(error) => {
                return Err(error);
            },
            Ok(table) => table,
        };
        let index: usize = virtual_address.page_index(2);
        let entry: u64 = match read_entry(memory, table, index) {
            Err(error) => {
                return Err(error);
            },
            Ok(entry) => entry,
        };
        if entry & ENTRY_PRESENT == 0 {
            return Err(MapError::NotMapped);
        }
        if entry & ENTRY_HUGE == 0 {
            return Ok(());
        }
        let made: u64 = match memory.allocate() {
            Err(_) => {
                return Err(MapError::OutOfMemory);
            },
            Ok(frame) => frame.as_u64(),
        };
        memory.zero_frame(made);
        if made == 0 {
            return Err(MapError::InvalidTable);
        }
        proof {
            lemma_masks(entry);
        }
        let base: u64 = entry & PAGE_2M_MASK;
        let flags: u64 = entry & !ADDRESS_MASK & !ENTRY_HUGE;
        let ghost zeroed = memory@;
        let mut leaf: usize = 0;
        while leaf < 512
            invariant
                leaf <= 512,
                memory.wf(),
                table_ok(made),
                made % 4096 == 0,
                base <= 0x000f_ffff_ffe0_0000,
                memory@ == filled(zeroed, made, base, flags, leaf as int),
            decreases 512 - leaf,
        {
            write_entry(
                memory,
                made,
                leaf,
                (base + leaf as u64 * PAGE_SIZE) | flags | ENTRY_PRESENT,
            );
            leaf += 1;
        }
        write_entry(
            memory,
            table,
            index,
            made | ENTRY_PRESENT | ENTRY_WRITABLE | (entry & ENTRY_USER),
        );
        memory.switch(root);
        Ok(())
    }

    /// Lets nothing run in an entry, if it is present.
    fn protect_entry(memory: &mut PageMemory, table: u64, index: usize)
        requires
            old(memory).wf(),
            table_ok(table),
            table % 4096 == 0,
            index < 512,
        ensures
            final(memory).wf(),
            final(memory)@ == entry_protected(old(memory)@, table, index as int),
    {
        let entry: u64 = memory.read_word(table + index as u64 * 8);
        if entry & ENTRY_PRESENT != 0 {
            write_entry(memory, table, index, entry | ENTRY_NO_EXECUTE);
        }
    }

    fn make_identity_and_direct_map_nx(&self, memory: &mut PageMemory) -> (result: Result<
        (),
        MapError,
    >)
        requires
            old(memory).wf(),
        ensures
            final(memory).wf(),
            (final(memory)@, result) == low_and_direct_protected(
                old(memory)@,
                self.root.spec_u64(),
            ),
    {
        let root: u64 = self.root.as_u64();
        if root == 0 || root >= MAX_DIRECT_MAPPED_PHYSICAL {
            return Err(MapError::InvalidTable);
        }
        Self::protect_entry(memory, root, 0);
        Self::protect_entry(memory, root, KERNEL_PML4_START);
        memory.switch(root);
        Ok(())
    }

    fn make_unused_high_kernel_pages_nx(
        &self,
        memory: &mut PageMemory,
        kernel_physical_end: u64,
    ) -> (result: Result<(), MapError>)
        requires
            old(memory).wf(),
        ensures
            final(memory).wf(),
            (final(memory)@, result) == unused_protected(
                old(memory)@,
                self.root.spec_u64(),
                kernel_physical_end,
            ),
    {
        let root: u64 = self.root.as_u64();
        let third: u64 = match next_table(memory, root, 511) {
            Err(error) => {
                return Err(error);
            },
            Ok(table) => table,
        };
        let table: u64 = match next_table(memory, third, HIGH_KERNEL_P3_INDEX) {
            Err(error) => {
                return Err(error);
            },
            Ok(table) => table,
        };
        if table == 0 || table >= MAX_DIRECT_MAPPED_PHYSICAL {
            return Err(MapError::InvalidTable);
        }
        let first: u64 = align_up(kernel_physical_end, 0x20_0000) / 0x20_0000;
        let mut index: usize = 0;
        while index < 512
            invariant
                index <= 512,
                memory.wf(),
                table_ok(table),
                table % 4096 == 0,
                memory@ == entries_protected(old(memory)@, table, first as int, index as int),
            decreases 512 - index,
        {
            if index as u64 >= first {
                Self::protect_entry(memory, table, index);
            }
            index += 1;
        }
        memory.switch(root);
        Ok(())
    }
}

/// The address space of a user process.
pub struct AddressSpace {
    pub root: PhysicalAddress,
}

#[derive(Clone, Copy, Debug, PartialEq, Eq, Structural)]
pub struct UserStack {
    pub guard_page: u64,
    pub bottom: u64,
    pub top: u64,
}

/// The state with the first `count` entries of the upper half of a table copied to
/// another.
pub open spec fn upper_copied(memory: MemoryView, source: u64, target: u64, count: int) -> MemoryView
    decreases count,
{
    if count <= 0 {
        memory
    } else {
        let before = upper_copied(memory, source, target, count - 1);
        with_entry(before, target, 255 + count, entry_of(before, source, 255 + count))
    }
}

/// A new address space: the lower half is empty, the upper half is the kernel's.
pub open spec fn space_created(memory: MemoryView) -> (MemoryView, Result<u64, MapError>) {
    let kernel = target_of(memory.root);
    match memory.allocated() {
        (after, Err(_)) => (after, Err(MapError::OutOfMemory)),
        (after, Ok(frame)) => {
            let root = frame.spec_u64();
            let zeroed = after.zeroed(root as int);
            if !table_ok(kernel) || !table_ok(root) {
                (zeroed, Err(MapError::InvalidTable))
            } else {
                (upper_copied(zeroed, kernel, root, 256), Ok(root))
            }
        },
    }
}

/// A result that holds an address space with this root.
pub open spec fn same_space(
    result: Result<AddressSpace, MapError>,
    root: Result<u64, MapError>,
) -> bool {
    match (result, root) {
        (Ok(space), Ok(root)) => space.root.spec_u64() == root,
        (Err(error), Err(expected)) => error == expected,
        _ => false,
    }
}

/// Mapping a user page.
pub open spec fn user_mapped(
    memory: MemoryView,
    root: u64,
    page: u64,
    frame: u64,
    flags: MapFlags,
) -> (MemoryView, Result<(), MapError>) {
    if page >= USER_ADDRESS_LIMIT {
        (memory, Err(MapError::InvalidAddress))
    } else if !flags.has(ENTRY_USER) {
        (memory, Err(MapError::PermissionDenied))
    } else {
        mapped(memory, root, page, frame, flags)
    }
}

/// Unmapping a user page.
pub open spec fn user_unmapped(memory: MemoryView, root: u64, page: u64) -> (
    MemoryView,
    Result<u64, MapError>,
) {
    if page >= USER_ADDRESS_LIMIT {
        (memory, Err(MapError::InvalidAddress))
    } else {
        unmapped(memory, root, page)
    }
}

/// Giving back what the first `count` entries of a table own. At level 1 those are
/// frames, above it tables with all they own.
pub open spec fn owned_entries(memory: MemoryView, table: u64, level: int, count: int) -> (
    MemoryView,
    Result<(), MapError>,
)
    decreases level, count,
{
    if count <= 0 || level < 1 {
        (memory, Ok(()))
    } else {
        match owned_entries(memory, table, level, count - 1) {
            (before, Err(error)) => (before, Err(error)),
            (before, Ok(_)) => {
                let entry = entry_of(before, table, count - 1);
                if !is_present(entry) {
                    (before, Ok(()))
                } else if is_huge(entry) {
                    (before, Err(MapError::HugePageConflict))
                } else if level == 1 {
                    frame_released(before, target_of(entry))
                } else if !table_ok(target_of(entry)) {
                    (before, Err(MapError::InvalidTable))
                } else {
                    match owned_entries(before, target_of(entry), level - 1, 512) {
                        (after, Err(error)) => (after, Err(error)),
                        (after, Ok(_)) => frame_released(after, target_of(entry)),
                    }
                }
            },
        }
    }
}

/// Giving back a frame that must be allocated.
pub open spec fn frame_released(memory: MemoryView, frame: u64) -> (
    MemoryView,
    Result<(), MapError>,
) {
    match memory.deallocated(frame) {
        (after, Err(_)) => (after, Err(MapError::InvalidTable)),
        (after, Ok(_)) => (after, Ok(())),
    }
}

/// Giving back the tables below the first `count` entries of a table, if they are empty.
pub open spec fn empty_entries(memory: MemoryView, table: u64, level: int, count: int) -> (
    MemoryView,
    Result<(), MapError>,
)
    decreases level, count,
{
    if count <= 0 || level < 1 {
        (memory, Ok(()))
    } else {
        match empty_entries(memory, table, level, count - 1) {
            (before, Err(error)) => (before, Err(error)),
            (before, Ok(_)) => {
                let entry = entry_of(before, table, count - 1);
                if !is_present(entry) {
                    (before, Ok(()))
                } else if level == 1 || is_huge(entry) {
                    (before, Err(MapError::AddressSpaceBusy))
                } else if !table_ok(target_of(entry)) {
                    (before, Err(MapError::InvalidTable))
                } else {
                    match empty_entries(before, target_of(entry), level - 1, 512) {
                        (after, Err(error)) => (after, Err(error)),
                        (after, Ok(_)) => frame_released(after, target_of(entry)),
                    }
                }
            },
        }
    }
}

/// Giving back the tables below the first `count` entries of the lower half of a root,
/// with all that they own.
pub open spec fn lower_half_released(memory: MemoryView, root: u64, owned: bool, count: int) -> (
    MemoryView,
    Result<(), MapError>,
)
    decreases count,
{
    if count <= 0 {
        (memory, Ok(()))
    } else {
        match lower_half_released(memory, root, owned, count - 1) {
            (before, Err(error)) => (before, Err(error)),
            (before, Ok(_)) => {
                let entry = entry_of(before, root, count - 1);
                if !is_present(entry) {
                    (before, Ok(()))
                } else if !table_ok(target_of(entry)) {
                    (before, Err(MapError::InvalidTable))
                } else {
                    let below = if owned {
                        owned_entries(before, target_of(entry), 3, 512)
                    } else {
                        empty_entries(before, target_of(entry), 3, 512)
                    };
                    match below {
                        (after, Err(error)) => (after, Err(error)),
                        (after, Ok(_)) => frame_released(after, target_of(entry)),
                    }
                }
            },
        }
    }
}

/// Destroying an address space that the processor does not use, with all that it owns or
/// if it owns nothing.
pub open spec fn destroyed(memory: MemoryView, root: u64, owned: bool) -> (
    MemoryView,
    Result<(), MapError>,
) {
    if target_of(memory.root) == root {
        (memory, Err(MapError::AddressSpaceBusy))
    } else if !table_ok(root) {
        (memory, Err(MapError::InvalidTable))
    } else {
        match lower_half_released(memory, root, owned, 256) {
            (after, Err(error)) => (after, Err(error)),
            (after, Ok(_)) => frame_released(after, root),
        }
    }
}

/// The flags of a mapping that a copy of it has too.
pub open spec fn copied_flags(leaf: u64) -> MapFlags {
    MapFlags(
        leaf & (ENTRY_PRESENT | ENTRY_WRITABLE | ENTRY_USER | ENTRY_WRITE_THROUGH
            | ENTRY_CACHE_DISABLE | ENTRY_NO_EXECUTE),
    )
}

/// How far the copy of an address space has come, and why it ended if it did.
#[verifier::ext_equal]
pub struct Cloning {
    pub memory: MemoryView,
    pub failure: Option<MapError>,
}

/// The copy after the page behind an entry of level 1 was copied, if it is a user page.
pub open spec fn page_cloned(state: Cloning, target: u64, page: u64, leaf: u64) -> Cloning {
    let user_page = ENTRY_PRESENT | ENTRY_USER;
    if leaf & user_page != user_page {
        state
    } else {
        match state.memory.allocated() {
            (after, Err(_)) => Cloning { memory: after, failure: Some(MapError::OutOfMemory) },
            (after, Ok(frame)) => {
                let copied = after.copied(target_of(leaf) as int, frame.spec_u64() as int);
                match user_mapped(copied, target, page, frame.spec_u64(), copied_flags(leaf)) {
                    (last, Ok(_)) => Cloning { memory: last, failure: None },
                    (last, Err(error)) => Cloning {
                        memory: destroyed(last.deallocated(frame.spec_u64()).0, target, true).0,
                        failure: Some(error),
                    },
                }
            },
        }
    }
}

/// The copy after the first `count` entries of a table of `level` were copied; `page` is
/// the first page that the table covers.
pub open spec fn table_cloned(
    state: Cloning,
    target: u64,
    table: u64,
    page: int,
    level: int,
    count: int,
) -> Cloning
    decreases level, count,
{
    if count <= 0 || level < 1 {
        state
    } else {
        let before = table_cloned(state, target, table, page, level, count - 1);
        let entry = entry_of(before.memory, table, count - 1);
        let at = page + (count - 1) * address::entry_span(level);
        if before.failure is Some {
            before
        } else if level == 1 {
            page_cloned(before, target, at as u64, entry)
        } else if !is_present(entry) {
            before
        } else if is_huge(entry) {
            Cloning {
                memory: destroyed(before.memory, target, true).0,
                failure: Some(MapError::HugePageConflict),
            }
        } else if !table_ok(target_of(entry)) {
            Cloning { memory: before.memory, failure: Some(MapError::InvalidTable) }
        } else {
            table_cloned(before, target, target_of(entry), at, level - 1, 512)
        }
    }
}

/// Copying an address space with all its user pages.
pub open spec fn space_cloned(memory: MemoryView, root: u64) -> (
    MemoryView,
    Result<u64, MapError>,
) {
    match space_created(memory) {
        (after, Err(error)) => (after, Err(error)),
        (after, Ok(target)) => if !table_ok(root) {
            (after, Err(MapError::InvalidTable))
        } else {
            let end = table_cloned(
                Cloning { memory: after, failure: None },
                target,
                root,
                0,
                4,
                256,
            );
            match end.failure {
                Some(error) => (end.memory, Err(error)),
                None => (end.memory, Ok(target)),
            }
        },
    }
}

/// Releases what a table owns: at level 1 frames, above it tables.
fn release_owned_entries(memory: &mut PageMemory, table: u64, level: u8) -> (result: Result<
    (),
    MapError,
>)
    requires
        old(memory).wf(),
        table_ok(table),
        table % 4096 == 0,
        1 <= level <= 3,
    ensures
        final(memory).wf(),
        (final(memory)@, result) == owned_entries(old(memory)@, table, level as int, 512),
    decreases level,
{
    let mut index: usize = 0;
    while index < 512
        invariant
            index <= 512,
            memory.wf(),
            table_ok(table),
            table % 4096 == 0,
            1 <= level <= 3,
            owned_entries(old(memory)@, table, level as int, index as int) == (
                memory@,
                Ok::<(), MapError>(()),
            ),
        decreases 512 - index,
    {
        let entry: u64 = memory.read_word(table + index as u64 * 8);
        let ghost before = memory@;
        let ghost next = owned_entries(old(memory)@, table, level as int, index + 1);
        if entry & ENTRY_PRESENT != 0 {
            if entry & ENTRY_HUGE != 0 {
                proof {
                    lemma_owned_failed(old(memory)@, table, level as int, index + 1, 512);
                }
                return Err(MapError::HugePageConflict);
            }
            let child: u64 = entry_target(entry);
            if level == 1 {
                if let Err(error) = release_frame(memory, child) {
                    proof {
                        lemma_owned_failed(old(memory)@, table, level as int, index + 1, 512);
                    }
                    return Err(error);
                }
            } else {
                if child == 0 || child >= MAX_DIRECT_MAPPED_PHYSICAL {
                    proof {
                        lemma_owned_failed(old(memory)@, table, level as int, index + 1, 512);
                    }
                    return Err(MapError::InvalidTable);
                }
                if let Err(error) = release_owned_entries(memory, child, level - 1) {
                    proof {
                        lemma_owned_failed(old(memory)@, table, level as int, index + 1, 512);
                    }
                    return Err(error);
                }
                if let Err(error) = release_frame(memory, child) {
                    proof {
                        lemma_owned_failed(old(memory)@, table, level as int, index + 1, 512);
                    }
                    return Err(error);
                }
            }
        }
        index += 1;
    }
    Ok(())
}

/// What failed stays as it was then.
proof fn lemma_owned_failed(memory: MemoryView, table: u64, level: int, from: int, to: int)
    requires
        0 <= from <= to,
        owned_entries(memory, table, level, from).1 is Err,
    ensures
        owned_entries(memory, table, level, to) == owned_entries(memory, table, level, from),
    decreases to - from,
{
    if from < to {
        lemma_owned_failed(memory, table, level, from, to - 1);
    }
}

proof fn lemma_empty_failed(memory: MemoryView, table: u64, level: int, from: int, to: int)
    requires
        0 <= from <= to,
        empty_entries(memory, table, level, from).1 is Err,
    ensures
        empty_entries(memory, table, level, to) == empty_entries(memory, table, level, from),
    decreases to - from,
{
    if from < to {
        lemma_empty_failed(memory, table, level, from, to - 1);
    }
}

proof fn lemma_half_failed(memory: MemoryView, root: u64, owned: bool, from: int, to: int)
    requires
        0 <= from <= to,
        lower_half_released(memory, root, owned, from).1 is Err,
    ensures
        lower_half_released(memory, root, owned, to) == lower_half_released(
            memory,
            root,
            owned,
            from,
        ),
    decreases to - from,
{
    if from < to {
        lemma_half_failed(memory, root, owned, from, to - 1);
    }
}

/// Gives back a frame that must be allocated.
fn release_frame(memory: &mut PageMemory, frame: u64) -> (result: Result<(), MapError>)
    requires
        old(memory).wf(),
        frame % 4096 == 0,
    ensures
        final(memory).wf(),
        (final(memory)@, result) == frame_released(old(memory)@, frame),
{
    match PhysicalAddress::new(frame) {
        None => Err(MapError::InvalidTable),
        Some(address) => match memory.deallocate(address) {
            Err(_) => Err(MapError::InvalidTable),
            Ok(_) => Ok(()),
        },
    }
}

/// Releases the tables below a table, if they are empty.
fn release_empty_entries(memory: &mut PageMemory, table: u64, level: u8) -> (result: Result<
    (),
    MapError,
>)
    requires
        old(memory).wf(),
        table_ok(table),
        table % 4096 == 0,
        1 <= level <= 3,
    ensures
        final(memory).wf(),
        (final(memory)@, result) == empty_entries(old(memory)@, table, level as int, 512),
    decreases level,
{
    let mut index: usize = 0;
    while index < 512
        invariant
            index <= 512,
            memory.wf(),
            table_ok(table),
            table % 4096 == 0,
            1 <= level <= 3,
            empty_entries(old(memory)@, table, level as int, index as int) == (
                memory@,
                Ok::<(), MapError>(()),
            ),
        decreases 512 - index,
    {
        let entry: u64 = memory.read_word(table + index as u64 * 8);
        let ghost before = memory@;
        let ghost next = empty_entries(old(memory)@, table, level as int, index + 1);
        if entry & ENTRY_PRESENT != 0 {
            if level == 1 || entry & ENTRY_HUGE != 0 {
                proof {
                    lemma_empty_failed(old(memory)@, table, level as int, index + 1, 512);
                }
                return Err(MapError::AddressSpaceBusy);
            }
            let child: u64 = entry_target(entry);
            if child == 0 || child >= MAX_DIRECT_MAPPED_PHYSICAL {
                proof {
                    lemma_empty_failed(old(memory)@, table, level as int, index + 1, 512);
                }
                return Err(MapError::InvalidTable);
            }
            if let Err(error) = release_empty_entries(memory, child, level - 1) {
                proof {
                    lemma_empty_failed(old(memory)@, table, level as int, index + 1, 512);
                }
                return Err(error);
            }
            if let Err(error) = release_frame(memory, child) {
                proof {
                    lemma_empty_failed(old(memory)@, table, level as int, index + 1, 512);
                }
                return Err(error);
            }
        }
        index += 1;
    }
    Ok(())
}

/// Releases the lower half of a root, with all that it owns or if it owns nothing.
fn release_lower_half(memory: &mut PageMemory, root: u64, owned: bool) -> (result: Result<
    (),
    MapError,
>)
    requires
        old(memory).wf(),
        table_ok(root),
        root % 4096 == 0,
    ensures
        final(memory).wf(),
        (final(memory)@, result) == lower_half_released(old(memory)@, root, owned, 256),
{
    let mut index: usize = 0;
    while index < 256
        invariant
            index <= 256,
            memory.wf(),
            table_ok(root),
            root % 4096 == 0,
            lower_half_released(old(memory)@, root, owned, index as int) == (
                memory@,
                Ok::<(), MapError>(()),
            ),
        decreases 256 - index,
    {
        let entry: u64 = memory.read_word(root + index as u64 * 8);
        let ghost before = memory@;
        let ghost next = lower_half_released(old(memory)@, root, owned, index + 1);
        if entry & ENTRY_PRESENT != 0 {
            let child: u64 = entry_target(entry);
            if child == 0 || child >= MAX_DIRECT_MAPPED_PHYSICAL {
                proof {
                    lemma_half_failed(old(memory)@, root, owned, index + 1, 256);
                }
                return Err(MapError::InvalidTable);
            }
            let below = if owned {
                release_owned_entries(memory, child, 3)
            } else {
                release_empty_entries(memory, child, 3)
            };
            if let Err(error) = below {
                proof {
                    lemma_half_failed(old(memory)@, root, owned, index + 1, 256);
                }
                return Err(error);
            }
            if let Err(error) = release_frame(memory, child) {
                proof {
                    lemma_half_failed(old(memory)@, root, owned, index + 1, 256);
                }
                return Err(error);
            }
        }
        index += 1;
    }
    Ok(())
}

impl AddressSpace {
    /// The tables of this address space.
    fn tables(&self) -> (tables: ActivePageTable)
        ensures
            tables.root == self.root,
    {
        ActivePageTable { root: self.root }
    }

    pub fn new_user(memory: &mut PageMemory) -> (space: Result<Self, MapError>)
        requires
            old(memory).wf(),
        ensures
            final(memory).wf(),
            final(memory)@ == space_created(old(memory)@).0,
            same_space(space, space_created(old(memory)@).1),
    {
        let kernel: u64 = entry_target(memory.root());
        let root = match memory.allocate() {
            Err(_) => {
                return Err(MapError::OutOfMemory);
            },
            Ok(frame) => frame,
        };
        let target: u64 = root.as_u64();
        memory.zero_frame(target);
        if kernel == 0 || kernel >= MAX_DIRECT_MAPPED_PHYSICAL || target == 0 {
            return Err(MapError::InvalidTable);
        }
        let ghost zeroed = memory@;
        // The lower half starts empty; only the kernel's mappings are shared.
        let mut index: usize = 0;
        while index < 256
            invariant
                index <= 256,
                memory.wf(),
                table_ok(kernel),
                table_ok(target),
                kernel % 4096 == 0,
                target % 4096 == 0,
                memory@ == upper_copied(zeroed, kernel, target, index as int),
            decreases 256 - index,
        {
            let entry: u64 = memory.read_word(kernel + (256 + index as u64) * 8);
            write_entry(memory, target, 256 + index, entry);
            index += 1;
        }
        Ok(AddressSpace { root })
    }

    pub fn root(&self) -> (root: PhysicalAddress)
        ensures
            root == self.root,
    {
        self.root
    }

    pub fn from_root(root: u64) -> (space: Result<Self, MapError>)
        ensures
            same_space(
                space,
                if table_ok(target_of(root)) {
                    Ok::<u64, MapError>(target_of(root))
                } else {
                    Err(MapError::InvalidTable)
                },
            ),
    {
        let address: u64 = entry_target(root);
        if address == 0 || address >= MAX_DIRECT_MAPPED_PHYSICAL {
            return Err(MapError::InvalidTable);
        }
        match PhysicalAddress::new(address) {
            Some(root) => Ok(AddressSpace { root }),
            None => Err(MapError::InvalidTable),
        }
    }

    pub fn map_user(
        &self,
        memory: &mut PageMemory,
        virtual_address: VirtualAddress,
        physical_address: PhysicalAddress,
        flags: MapFlags,
    ) -> (result: Result<(), MapError>)
        requires
            old(memory).wf(),
        ensures
            final(memory).wf(),
            (final(memory)@, result) == user_mapped(
                old(memory)@,
                self.root.spec_u64(),
                virtual_address.spec_u64(),
                physical_address.spec_u64(),
                flags,
            ),
    {
        if virtual_address.as_u64() >= USER_ADDRESS_LIMIT {
            return Err(MapError::InvalidAddress);
        }
        if !flags.contains(MapFlags::user()) {
            return Err(MapError::PermissionDenied);
        }
        self.tables().map_4k(memory, virtual_address, physical_address, flags)
    }

    pub fn unmap_user(&self, memory: &mut PageMemory, virtual_address: VirtualAddress) -> (result:
        Result<PhysicalAddress, MapError>)
        requires
            old(memory).wf(),
        ensures
            final(memory).wf(),
            final(memory)@ == user_unmapped(
                old(memory)@,
                self.root.spec_u64(),
                virtual_address.spec_u64(),
            ).0,
            same_address(
                result,
                user_unmapped(
                    old(memory)@,
                    self.root.spec_u64(),
                    virtual_address.spec_u64(),
                ).1,
            ),
    {
        if virtual_address.as_u64() >= USER_ADDRESS_LIMIT {
            return Err(MapError::InvalidAddress);
        }
        self.tables().unmap_4k(memory, virtual_address)
    }

    pub fn allocate_range(
        &self,
        memory: &mut PageMemory,
        virtual_start: VirtualAddress,
        pages: usize,
        flags: MapFlags,
    ) -> (result: Result<(), MapError>)
        requires
            old(memory).wf(),
        ensures
            final(memory).wf(),
            (final(memory)@, result) == (if pages == 0 {
                (old(memory)@, Err::<(), MapError>(MapError::InvalidAddress))
            } else {
                range_allocated(
                    old(memory)@,
                    self.root.spec_u64(),
                    virtual_start.spec_u64(),
                    pages as int,
                    flags,
                    0,
                )
            }),
    {
        self.tables().allocate_range(memory, virtual_start, pages, flags)
    }

    pub fn release_range(
        &self,
        memory: &mut PageMemory,
        virtual_start: VirtualAddress,
        pages: usize,
        release_frames: bool,
    ) -> (result: Result<(), MapError>)
        requires
            old(memory).wf(),
        ensures
            final(memory).wf(),
            (final(memory)@, result) == range_released(
                old(memory)@,
                self.root.spec_u64(),
                virtual_start.spec_u64(),
                pages as int,
                release_frames,
                0,
            ),
    {
        self.tables().release_range(memory, virtual_start, pages, release_frames)
    }

    pub fn set_user_flags(
        &self,
        memory: &mut PageMemory,
        virtual_address: VirtualAddress,
        flags: MapFlags,
    ) -> (result: Result<(), MapError>)
        requires
            old(memory).wf(),
        ensures
            final(memory).wf(),
            (final(memory)@, result) == (if virtual_address.spec_u64() >= USER_ADDRESS_LIMIT
                || !flags.has(ENTRY_USER) {
                (old(memory)@, Err::<(), MapError>(MapError::PermissionDenied))
            } else {
                flags_set(
                    old(memory)@,
                    self.root.spec_u64(),
                    virtual_address.spec_u64(),
                    flags,
                )
            }),
    {
        if virtual_address.as_u64() >= USER_ADDRESS_LIMIT || !flags.contains(MapFlags::user()) {
            return Err(MapError::PermissionDenied);
        }
        self.tables().set_flags_4k(memory, virtual_address, flags)
    }

    pub fn translate(&self, memory: &PageMemory, virtual_address: VirtualAddress) -> (physical:
        Option<PhysicalAddress>)
        ensures
            same_optional(
                physical,
                translated(memory@, self.root.spec_u64(), virtual_address.spec_u64(), 4),
            ),
    {
        self.tables().translate(memory, virtual_address)
    }

    pub fn destroy_empty(self, memory: &mut PageMemory) -> (result: Result<(), MapError>)
        requires
            old(memory).wf(),
        ensures
            final(memory).wf(),
            (final(memory)@, result) == destroyed(old(memory)@, self.root.spec_u64(), false),
    {
        self.release_space(memory, false)
    }

    /// Releases all frames that the allocator gave for user pages, and the whole tree of
    /// tables of the lower half. Frames of devices and shared frames must be unmapped
    /// before.
    pub fn destroy(self, memory: &mut PageMemory) -> (result: Result<(), MapError>)
        requires
            old(memory).wf(),
        ensures
            final(memory).wf(),
            (final(memory)@, result) == destroyed(old(memory)@, self.root.spec_u64(), true),
    {
        self.release_space(memory, true)
    }

    fn release_space(&self, memory: &mut PageMemory, owned: bool) -> (result: Result<(), MapError>)
        requires
            old(memory).wf(),
        ensures
            final(memory).wf(),
            (final(memory)@, result) == destroyed(old(memory)@, self.root.spec_u64(), owned),
    {
        let root: u64 = self.root.as_u64();
        if entry_target(memory.root()) == root {
            return Err(MapError::AddressSpaceBusy);
        }
        if root == 0 || root >= MAX_DIRECT_MAPPED_PHYSICAL {
            return Err(MapError::InvalidTable);
        }
        match release_lower_half(memory, root, owned) {
            Err(error) => Err(error),
            Ok(_) => release_frame(memory, root),
        }
    }

    pub fn clone_user(&self, memory: &mut PageMemory) -> (space: Result<Self, MapError>)
        requires
            old(memory).wf(),
        ensures
            final(memory).wf(),
            final(memory)@ == space_cloned(old(memory)@, self.root.spec_u64()).0,
            same_space(space, space_cloned(old(memory)@, self.root.spec_u64()).1),
    {
        let target = match Self::new_user(memory) {
            Err(error) => {
                return Err(error);
            },
            Ok(target) => target,
        };
        let root: u64 = self.root.as_u64();
        if root == 0 || root >= MAX_DIRECT_MAPPED_PHYSICAL {
            return Err(MapError::InvalidTable);
        }
        match target.clone_table(memory, root, 0, 4, 256) {
            Some(error) => Err(error),
            None => Ok(target),
        }
    }

    /// Copies what the first `count` entries of a table lead to; `page` is the first
    /// page that the table covers.
    fn clone_table(
        &self,
        memory: &mut PageMemory,
        table: u64,
        page: u64,
        level: u8,
        count: usize,
    ) -> (failure: Option<MapError>)
        requires
            old(memory).wf(),
            table_ok(table),
            table % 4096 == 0,
            1 <= level <= 4,
            count <= 512,
            page % 4096 == 0,
            page + count * address::entry_span(level as int) <= USER_ADDRESS_LIMIT,
        ensures
            final(memory).wf(),
            (Cloning { memory: final(memory)@, failure }) == table_cloned(
                Cloning { memory: old(memory)@, failure: None },
                self.root.spec_u64(),
                table,
                page as int,
                level as int,
                count as int,
            ),
        decreases level,
    {
        let span: u64 = match level {
            1 => 0x1000,
            2 => 0x20_0000,
            3 => 0x4000_0000,
            _ => 0x80_0000_0000,
        };
        assert(span == address::entry_span(level as int));
        let ghost start = Cloning { memory: memory@, failure: None };
        let mut index: usize = 0;
        let mut at: u64 = page;
        while index < count
            invariant
                index <= count <= 512,
                memory.wf(),
                table_ok(table),
                table % 4096 == 0,
                1 <= level <= 4,
                span == address::entry_span(level as int),
                span % 4096 == 0,
                at == page + index * span,
                at % 4096 == 0,
                page + count * span <= USER_ADDRESS_LIMIT,
                start == (Cloning { memory: old(memory)@, failure: None }),
                table_cloned(
                    start,
                    self.root.spec_u64(),
                    table,
                    page as int,
                    level as int,
                    index as int,
                ) == (Cloning { memory: memory@, failure: None }),
            decreases count - index,
        {
            let ghost before = memory@;
            let entry: u64 = memory.read_word(table + index as u64 * 8);
            assert((index + 1) * span == index * span + span) by (nonlinear_arith);
            assert((index + 1) * span <= count * span) by (nonlinear_arith)
                requires
                    index + 1 <= count,
                    span > 0,
            ;
            let mut failure: Option<MapError> = None;
            if level == 1 {
                failure = self.clone_page(memory, at, entry);
            } else if entry & ENTRY_PRESENT != 0 {
                if entry & ENTRY_HUGE != 0 {
                    let _ = self.release_space(memory, true);
                    failure = Some(MapError::HugePageConflict);
                } else {
                    let child: u64 = entry_target(entry);
                    if child == 0 || child >= MAX_DIRECT_MAPPED_PHYSICAL {
                        failure = Some(MapError::InvalidTable);
                    } else {
                        assert(512 * address::entry_span(level - 1) == span);
                        failure = self.clone_table(memory, child, at, level - 1, 512);
                    }
                }
            }
            assert((Cloning { memory: memory@, failure }) == table_cloned(
                start,
                self.root.spec_u64(),
                table,
                page as int,
                level as int,
                index + 1,
            ));
            if failure.is_some() {
                proof {
                    lemma_cloning_failed(
                        start,
                        self.root.spec_u64(),
                        table,
                        page as int,
                        level as int,
                        index + 1,
                        count as int,
                    );
                }
                return failure;
            }
            index += 1;
            at = at + span;
        }
        None
    }

    /// Copies a user page.
    fn clone_page(&self, memory: &mut PageMemory, page: u64, leaf: u64) -> (failure: Option<
        MapError,
    >)
        requires
            old(memory).wf(),
            page % 4096 == 0,
            page < USER_ADDRESS_LIMIT,
        ensures
            final(memory).wf(),
            (Cloning { memory: final(memory)@, failure }) == page_cloned(
                Cloning { memory: old(memory)@, failure: None },
                self.root.spec_u64(),
                page,
                leaf,
            ),
    {
        let user_page: u64 = ENTRY_PRESENT | ENTRY_USER;
        if leaf & user_page != user_page {
            return None;
        }
        let source: u64 = entry_target(leaf);
        proof {
            lemma_target_range(leaf);
        }
        let frame = match memory.allocate() {
            Err(_) => {
                return Some(MapError::OutOfMemory);
            },
            Ok(frame) => frame,
        };
        memory.copy_frame(source, frame.as_u64());
        let address = match VirtualAddress::new(page) {
            Some(address) => address,
            None => {
                return Some(MapError::InvalidAddress);
            },
        };
        let flags = MapFlags(
            leaf & (ENTRY_PRESENT | ENTRY_WRITABLE | ENTRY_USER | ENTRY_WRITE_THROUGH
                | ENTRY_CACHE_DISABLE | ENTRY_NO_EXECUTE),
        );
        match self.map_user(memory, address, frame, flags) {
            Ok(_) => None,
            Err(error) => {
                let _ = memory.deallocate(frame);
                let _ = self.release_space(memory, true);
                Some(error)
            },
        }
    }
}

proof fn lemma_target_range(entry: u64)
    by (bit_vector)
    ensures
        entry & 0x000f_ffff_ffff_f000u64 <= 0x000f_ffff_ffff_f000u64,
{
}

proof fn lemma_cloning_failed(
    state: Cloning,
    target: u64,
    table: u64,
    page: int,
    level: int,
    from: int,
    to: int,
)
    requires
        0 <= from <= to,
        table_cloned(state, target, table, page, level, from).failure is Some,
    ensures
        table_cloned(state, target, table, page, level, to) == table_cloned(
            state,
            target,
            table,
            page,
            level,
            from,
        ),
    decreases to - from,
{
    if from < to {
        lemma_cloning_failed(state, target, table, page, level, from, to - 1);
    }
}

/// How many of the bytes to go lie in the page of an address.
pub open spec fn chunk(at: int, remaining: int) -> int {
    if 4096 - at % 4096 < remaining {
        4096 - at % 4096
    } else {
        remaining
    }
}

/// Whether a user may access all pages from `at` to `end`; why not, if not.
pub open spec fn range_validated(
    memory: MemoryView,
    root: u64,
    at: int,
    end: int,
    write: bool,
) -> Result<(), UserCopyError>
    decreases end - at,
{
    if at >= end {
        Ok(())
    } else {
        match user_mapping(memory, root, at as u64, write) {
            Err(error) => Err(error),
            Ok(_) => range_validated(memory, root, at + chunk(at, end - at), end, write),
        }
    }
}

/// Whether a user may access so many bytes from an address on; why not, if not.
pub open spec fn access_checked(
    memory: MemoryView,
    root: u64,
    at: u64,
    length: usize,
    write: bool,
) -> Result<(), UserCopyError> {
    if user::user_range_error(at, length) is Some {
        Err(UserCopyError::InvalidRange)
    } else {
        range_validated(memory, root, at as int, at + length, write)
    }
}

/// The byte that a user sees at an address.
pub open spec fn user_byte(memory: MemoryView, root: u64, at: int) -> u8 {
    physical::byte_at(
        memory.words,
        user_mapping(memory, root, at as u64, false)->Ok_0 + at % 4096,
    )
}

/// The state after the bytes from number `done` on were stored for a user, page by page.
pub open spec fn user_stored(
    memory: MemoryView,
    root: u64,
    at: u64,
    bytes: Seq<u8>,
    done: int,
) -> (MemoryView, Result<(), UserCopyError>)
    decreases bytes.len() - done,
{
    if done >= bytes.len() {
        (memory, Ok(()))
    } else {
        let current = at + done;
        let length = chunk(current, bytes.len() - done);
        match user_mapping(memory, root, current as u64, true) {
            Err(error) => (memory, Err(error)),
            Ok(frame) => user_stored(
                MemoryView {
                    words: physical::stored(
                        memory.words,
                        frame + current % 4096,
                        bytes.subrange(done, done + length),
                    ),
                    ..memory
                },
                root,
                at,
                bytes,
                done + length,
            ),
        }
    }
}

/// Storing bytes for a user: nothing is stored unless all of it may be.
pub open spec fn copied_to_user(memory: MemoryView, root: u64, at: u64, bytes: Seq<u8>) -> (
    MemoryView,
    Result<(), UserCopyError>,
) {
    match access_checked(memory, root, at, bytes.len() as usize, true) {
        Err(error) => (memory, Err(error)),
        Ok(_) => user_stored(memory, root, at, bytes, 0),
    }
}

/// The state after the first `pages` user pages from `bottom` on were unmapped and
/// their frames given back, as far as they were mapped.
pub open spec fn pages_released(memory: MemoryView, root: u64, bottom: u64, pages: int) -> MemoryView
    decreases pages,
{
    if pages <= 0 {
        memory
    } else {
        let before = pages_released(memory, root, bottom, pages - 1);
        let page = (bottom + (pages - 1) * 4096) as u64;
        if page % 4096 != 0 || !address::is_canonical(page) {
            before
        } else {
            match user_unmapped(before, root, page) {
                (after, Err(_)) => after,
                (after, Ok(frame)) => after.deallocated(frame).0,
            }
        }
    }
}

/// The flags of a stack.
pub open spec fn stack_flags() -> MapFlags {
    MapFlags(ENTRY_PRESENT | ENTRY_WRITABLE | ENTRY_USER | ENTRY_NO_EXECUTE)
}

/// Mapping the pages of a stack from number `done` on.
pub open spec fn stack_pages_mapped(
    memory: MemoryView,
    root: u64,
    bottom: u64,
    pages: int,
    done: int,
) -> (MemoryView, Result<(), MapError>)
    decreases pages - done,
{
    if done >= pages {
        (memory, Ok(()))
    } else {
        match memory.allocated() {
            (after, Err(_)) => (
                pages_released(after, root, bottom, done),
                Err(MapError::OutOfMemory),
            ),
            (after, Ok(frame)) => {
                let zeroed = after.zeroed(frame.spec_u64() as int);
                match user_mapped(
                    zeroed,
                    root,
                    (bottom + done * 4096) as u64,
                    frame.spec_u64(),
                    stack_flags(),
                ) {
                    (failed, Err(error)) => (
                        pages_released(
                            failed.deallocated(frame.spec_u64()).0,
                            root,
                            bottom,
                            done,
                        ),
                        Err(error),
                    ),
                    (last, Ok(_)) => stack_pages_mapped(last, root, bottom, pages, done + 1),
                }
            },
        }
    }
}

/// Whether a stack of so many pages can end at `top`, with a page below it as a guard.
pub open spec fn stack_fits(top: u64, pages: usize) -> bool {
    &&& 1 <= pages <= 64
    &&& top % 4096 == 0
    &&& top <= USER_ADDRESS_LIMIT
    &&& top - pages * 4096 - 4096 >= 4096
}

/// Mapping a stack above a guard page that must not be mapped.
pub open spec fn stack_mapped(memory: MemoryView, root: u64, top: u64, pages: usize) -> (
    MemoryView,
    Result<UserStack, MapError>,
) {
    let bottom = (top - pages * 4096) as u64;
    let guard_page = (bottom - 4096) as u64;
    if !stack_fits(top, pages) {
        (memory, Err(MapError::InvalidAddress))
    } else if translated(memory, root, guard_page, 4) is Some {
        (memory, Err(MapError::AlreadyMapped))
    } else {
        match stack_pages_mapped(memory, root, bottom, pages as int, 0) {
            (after, Err(error)) => (after, Err(error)),
            (after, Ok(_)) => (after, Ok(UserStack { guard_page, bottom, top })),
        }
    }
}

impl AddressSpace {
    pub fn validate_user_range(
        &self,
        memory: &PageMemory,
        user_address: u64,
        length: usize,
        write: bool,
    ) -> (result: Result<(), UserCopyError>)
        ensures
            result == access_checked(
                memory@,
                self.root.spec_u64(),
                user_address,
                length,
                write,
            ),
    {
        let access = if write {
            UserAccess::Write
        } else {
            UserAccess::Read
        };
        match checked_user_range(user_address, length, access) {
            Err(_) => Err(UserCopyError::InvalidRange),
            Ok(range) => self.validate_user_range_locked(memory, range),
        }
    }

    fn validate_user_range_locked(&self, memory: &PageMemory, range: UserRange) -> (result: Result<
        (),
        UserCopyError,
    >)
        ensures
            result == range_validated(
                memory@,
                self.root.spec_u64(),
                range.spec_start() as int,
                range.spec_end() as int,
                range.spec_access() == UserAccess::Write,
            ),
    {
        let end: u64 = range.end();
        let write = range.access() == UserAccess::Write;
        let mut current: u64 = range.start();
        while current < end
            invariant
                end == range.spec_end(),
                write == (range.spec_access() == UserAccess::Write),
                range_validated(
                    memory@,
                    self.root.spec_u64(),
                    current as int,
                    end as int,
                    write,
                ) == range_validated(
                    memory@,
                    self.root.spec_u64(),
                    range.spec_start() as int,
                    end as int,
                    write,
                ),
            decreases end - current,
        {
            if let Err(error) = self.tables().user_mapping(memory, current, write) {
                return Err(error);
            }
            current = current + chunk_length(current, end - current);
        }
        Ok(())
    }

    pub fn copy_from_user(
        &self,
        memory: &PageMemory,
        user_address: u64,
        destination: &mut [u8],
    ) -> (result: Result<(), UserCopyError>)
        ensures
            result == access_checked(
                memory@,
                self.root.spec_u64(),
                user_address,
                old(destination)@.len() as usize,
                false,
            ),
            result is Err ==> final(destination)@ == old(destination)@,
            result is Ok ==> final(destination)@ == Seq::new(
                old(destination)@.len(),
                |i: int| user_byte(memory@, self.root.spec_u64(), user_address + i),
            ),
    {
        let length: usize = destination.len();
        let checked = self.validate_user_range(memory, user_address, length, false);
        if checked.is_err() {
            return checked;
        }
        let ghost root = self.root.spec_u64();
        let mut copied: usize = 0;
        while copied < length
            invariant
                copied <= length,
                length == destination@.len(),
                length == old(destination)@.len(),
                root == self.root.spec_u64(),
                user::user_range_error(user_address, length) is None,
                checked == access_checked(memory@, root, user_address, length, false),
                checked is Ok,
                range_validated(
                    memory@,
                    root,
                    user_address + copied,
                    user_address + length,
                    false,
                ) is Ok,
                forall|i: int|
                    0 <= i < copied ==> #[trigger] destination@[i] == user_byte(
                        memory@,
                        root,
                        user_address + i,
                    ),
            decreases length - copied,
        {
            let current: u64 = user_address + copied as u64;
            let frame: u64 = match self.tables().user_mapping(memory, current, false) {
                Err(error) => {
                    return Err(error);
                },
                Ok(frame) => frame,
            };
            proof {
                lemma_user_frame_range(memory@, root, current, false);
            }
            let count: usize = chunk_length(current, (length - copied) as u64) as usize;
            let base: u64 = frame + current % 4096;
            let mut index: usize = 0;
            let ghost before = destination@;
            while index < count
                invariant
                    index <= count,
                    copied + count <= length,
                    length == destination@.len(),
                    length == old(destination)@.len(),
                    current == user_address + copied,
                    current % 4096 + count <= 4096,
                    base == frame + current % 4096,
                    frame <= 0x000f_ffff_ffff_f000,
                    user_mapping(memory@, root, current, false) == Ok::<u64, UserCopyError>(frame),
                    current + count <= USER_ADDRESS_LIMIT,
                    forall|i: int|
                        0 <= i < copied + index ==> #[trigger] destination@[i] == user_byte(
                            memory@,
                            root,
                            user_address + i,
                        ),
                decreases count - index,
            {
                let byte: u8 = memory.read_byte(base + index as u64);
                proof {
                    let at = current + index;
                    assert(at - at % 4096 == current - current as int % 4096);
                    assert(at % 4096 == current as int % 4096 + index);
                    assert(user_byte(memory@, root, at) == byte);
                }
                destination[copied + index] = byte;
                index += 1;
            }
            copied = copied + count;
        }
        assert(destination@ =~= Seq::new(
            old(destination)@.len(),
            |i: int| user_byte(memory@, self.root.spec_u64(), user_address + i),
        ));
        checked
    }

    pub fn copy_to_user(&self, memory: &mut PageMemory, user_address: u64, source: &[u8]) -> (
        result: Result<(), UserCopyError>)
        requires
            old(memory).wf(),
        ensures
            final(memory).wf(),
            (final(memory)@, result) == copied_to_user(
                old(memory)@,
                self.root.spec_u64(),
                user_address,
                source@,
            ),
    {
        let length: usize = source.len();
        if let Err(error) = self.validate_user_range(memory, user_address, length, true) {
            return Err(error);
        }
        let ghost root = self.root.spec_u64();
        let mut copied: usize = 0;
        while copied < length
            invariant
                copied <= length,
                length == source@.len(),
                memory.wf(),
                root == self.root.spec_u64(),
                user::user_range_error(user_address, length) is None,
                access_checked(old(memory)@, root, user_address, length, true) is Ok,
                user_stored(memory@, root, user_address, source@, copied as int) == user_stored(
                    old(memory)@,
                    root,
                    user_address,
                    source@,
                    0,
                ),
            decreases length - copied,
        {
            let current: u64 = user_address + copied as u64;
            let frame: u64 = match self.tables().user_mapping(memory, current, true) {
                Err(error) => {
                    return Err(error);
                },
                Ok(frame) => frame,
            };
            proof {
                lemma_user_frame_range(memory@, root, current, true);
            }
            let count: usize = chunk_length(current, (length - copied) as u64) as usize;
            let part = vstd::slice::slice_subrange(source, copied, copied + count);
            memory.store(frame + current % 4096, part);
            copied = copied + count;
        }
        Ok(())
    }

    pub fn map_guarded_stack(&self, memory: &mut PageMemory, top: u64, pages: usize) -> (stack:
        Result<UserStack, MapError>)
        requires
            old(memory).wf(),
        ensures
            final(memory).wf(),
            (final(memory)@, stack) == stack_mapped(
                old(memory)@,
                self.root.spec_u64(),
                top,
                pages,
            ),
    {
        if pages == 0 || pages > 64 || top % PAGE_SIZE != 0 {
            return Err(MapError::InvalidAddress);
        }
        let size: u64 = pages as u64 * PAGE_SIZE;
        let bottom: u64 = match top.checked_sub(size) {
            None => {
                return Err(MapError::InvalidAddress);
            },
            Some(bottom) => bottom,
        };
        let guard_page: u64 = match bottom.checked_sub(PAGE_SIZE) {
            None => {
                return Err(MapError::InvalidAddress);
            },
            Some(guard_page) => guard_page,
        };
        if top > USER_ADDRESS_LIMIT || guard_page < PAGE_SIZE {
            return Err(MapError::InvalidAddress);
        }
        let guard = match VirtualAddress::new(guard_page) {
            None => {
                return Err(MapError::InvalidAddress);
            },
            Some(guard) => guard,
        };
        if self.translate(memory, guard).is_some() {
            return Err(MapError::AlreadyMapped);
        }
        let flags = MapFlags::present().bitor(MapFlags::writable()).bitor(MapFlags::user()).bitor(
            MapFlags::no_execute(),
        );
        let mut done: usize = 0;
        while done < pages
            invariant
                done <= pages <= 64,
                memory.wf(),
                flags == stack_flags(),
                bottom + pages * 4096 == top,
                top <= USER_ADDRESS_LIMIT,
                bottom % 4096 == 0,
                stack_pages_mapped(
                    memory@,
                    self.root.spec_u64(),
                    bottom,
                    pages as int,
                    done as int,
                ) == stack_pages_mapped(
                    old(memory)@,
                    self.root.spec_u64(),
                    bottom,
                    pages as int,
                    0,
                ),
                stack_mapped(old(memory)@, self.root.spec_u64(), top, pages) == (
                match stack_pages_mapped(
                    old(memory)@,
                    self.root.spec_u64(),
                    bottom,
                    pages as int,
                    0,
                ) {
                    (after, Err(error)) => (after, Err(error)),
                    (after, Ok(_)) => (after, Ok(UserStack { guard_page, bottom, top })),
                }),
            decreases pages - done,
        {
            let frame = match memory.allocate() {
                Ok(frame) => frame,
                Err(_) => {
                    self.release_user_pages(memory, bottom, done as u64);
                    return Err(MapError::OutOfMemory);
                },
            };
            memory.zero_frame(frame.as_u64());
            let page = match VirtualAddress::new(bottom + done as u64 * PAGE_SIZE) {
                None => {
                    return Err(MapError::InvalidAddress);
                },
                Some(page) => page,
            };
            if let Err(error) = self.map_user(memory, page, frame, flags) {
                let _ = memory.deallocate(frame);
                self.release_user_pages(memory, bottom, done as u64);
                return Err(error);
            }
            done += 1;
        }
        Ok(UserStack { guard_page, bottom, top })
    }

    pub fn release_user_stack(&self, memory: &mut PageMemory, stack: UserStack)
        requires
            old(memory).wf(),
            stack.bottom <= stack.top,
        ensures
            final(memory).wf(),
            final(memory)@ == pages_released(
                old(memory)@,
                self.root.spec_u64(),
                stack.bottom,
                (stack.top - stack.bottom) / 4096,
            ),
    {
        let pages: u64 = (stack.top - stack.bottom) / PAGE_SIZE;
        self.release_user_pages(memory, stack.bottom, pages);
    }

    fn release_user_pages(&self, memory: &mut PageMemory, bottom: u64, pages: u64)
        requires
            old(memory).wf(),
            bottom + pages * 4096 <= u64::MAX,
        ensures
            final(memory).wf(),
            final(memory)@ == pages_released(
                old(memory)@,
                self.root.spec_u64(),
                bottom,
                pages as int,
            ),
    {
        let mut done: u64 = 0;
        while done < pages
            invariant
                done <= pages,
                memory.wf(),
                bottom + pages * 4096 <= u64::MAX,
                memory@ == pages_released(
                    old(memory)@,
                    self.root.spec_u64(),
                    bottom,
                    done as int,
                ),
            decreases pages - done,
        {
            if let Some(page) = VirtualAddress::new(bottom + done * PAGE_SIZE) {
                if let Ok(frame) = self.unmap_user(memory, page) {
                    let _ = memory.deallocate(frame);
                }
            }
            done += 1;
        }
    }
}

/// A frame lies in physical memory.
proof fn lemma_user_frame_range(memory: MemoryView, root: u64, at: u64, write: bool)
    ensures
        user_mapping(memory, root, at, write) matches Ok(frame) ==> frame <= 0x000f_ffff_ffff_f000
            && PAGE_SIZE <= at < USER_ADDRESS_LIMIT,
{
    if PAGE_SIZE <= at < USER_ADDRESS_LIMIT {
        lemma_frame_range(memory, root, (at - at as int % 4096) as u64, write, 4);
    }
}

proof fn lemma_frame_range(memory: MemoryView, table: u64, page: u64, write: bool, level: int)
    ensures
        user_frame(memory, table, page, write, level) matches Ok(frame) ==> frame
            <= 0x000f_ffff_ffff_f000,
    decreases level,
{
    let entry = entry_of(memory, table, address::table_index(page, level));
    lemma_target_range(entry);
    if level > 1 {
        lemma_frame_range(memory, target_of(entry), page, write, level - 1);
    }
}

/// How many of the bytes to go lie in the page of an address.
pub fn chunk_length(at: u64, remaining: u64) -> (length: u64)
    ensures
        length == chunk(at as int, remaining as int),
        length <= remaining,
        length <= 4096,
        remaining > 0 ==> length > 0,
        at % 4096 + length <= 4096,
{
    let in_page: u64 = PAGE_SIZE - at % PAGE_SIZE;
    if in_page < remaining {
        in_page
    } else {
        remaining
    }
}

} // verus!
