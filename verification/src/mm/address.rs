//! Physical and virtual page addresses.
use vstd::prelude::*;

verus! {

pub const PAGE_SIZE: u64 = 4096;

/// Where the physical memory ends that an x86_64 machine maps directly.
pub const MAX_DIRECT_MAPPED_PHYSICAL: u64 = 0x1_0000_0000;

pub const KERNEL_BASE: u64 = 0xffff_ffff_8000_0000;

pub const PHYSICAL_MEMORY_OFFSET: u64 = 0xffff_8000_0000_0000;

pub const USER_ADDRESS_LIMIT: u64 = 0x0000_8000_0000_0000;

/// The address of a physical page frame.
#[derive(Clone, Copy, Debug, PartialEq, Eq, Structural, PartialOrd, Ord)]
pub struct PhysicalAddress(u64);

/// The address of a virtual page.
#[derive(Clone, Copy, Debug, PartialEq, Eq, Structural, PartialOrd, Ord)]
pub struct VirtualAddress(u64);

/// Whether the upper half of `address` repeats bit 47.
pub open spec fn is_canonical(address: u64) -> bool {
    address < 0x0000_8000_0000_0000 || address >= 0xffff_8000_0000_0000
}

pub proof fn lemma_page_mask(address: u64)
    by (bit_vector)
    ensures
        (address & 0xfff == 0) <==> address % 4096 == 0,
        address & 0xfff == address % 4096,
        address & 0xffff_ffff_ffff_f000 == address - address % 4096,
{
}

impl PhysicalAddress {
    pub closed spec fn spec_u64(self) -> u64 {
        self.0
    }

    #[verifier::type_invariant]
    spec fn page_aligned(self) -> bool {
        self.0 % PAGE_SIZE == 0
    }

    pub fn new(address: u64) -> (result: Option<Self>)
        ensures
            result is Some <==> address % PAGE_SIZE == 0,
            result matches Some(physical) ==> physical.spec_u64() == address,
    {
        proof {
            lemma_page_mask(address);
        }
        if address & (PAGE_SIZE - 1) == 0 {
            Some(Self(address))
        } else {
            None
        }
    }

    pub fn as_u64(self) -> (address: u64)
        ensures
            address == self.spec_u64(),
            address % PAGE_SIZE == 0,
    {
        proof {
            use_type_invariant(self);
        }
        self.0
    }

    /// Where the kernel sees this frame in its direct mapping.
    pub fn direct_mapped(self) -> (address: u64)
        requires
            self.spec_u64() <= u64::MAX - PHYSICAL_MEMORY_OFFSET,
        ensures
            address == PHYSICAL_MEMORY_OFFSET + self.spec_u64(),
    {
        PHYSICAL_MEMORY_OFFSET + self.0
    }
}

/// The frame at an address.
pub closed spec fn physical_at(address: u64) -> PhysicalAddress {
    PhysicalAddress(address)
}

pub proof fn lemma_physical_at(address: u64)
    ensures
        physical_at(address).spec_u64() == address,
{
}

/// An address determines the frame.
pub proof fn law_physical_address_injective(a: PhysicalAddress, b: PhysicalAddress)
    requires
        a.spec_u64() == b.spec_u64(),
    ensures
        a == b,
{
}

impl VirtualAddress {
    pub closed spec fn spec_u64(self) -> u64 {
        self.0
    }

    #[verifier::type_invariant]
    spec fn page_aligned(self) -> bool {
        self.0 % PAGE_SIZE == 0 && is_canonical(self.0)
    }

    pub fn new(address: u64) -> (result: Option<Self>)
        ensures
            result is Some <==> address % PAGE_SIZE == 0 && is_canonical(address),
            result matches Some(page) ==> page.spec_u64() == address,
    {
        let canonical = address <= 0x0000_7fff_ffff_ffff || address >= 0xffff_8000_0000_0000;
        proof {
            lemma_page_mask(address);
        }
        if address & (PAGE_SIZE - 1) == 0 && canonical {
            Some(Self(address))
        } else {
            None
        }
    }

    pub fn as_u64(self) -> (address: u64)
        ensures
            address == self.spec_u64(),
            address % PAGE_SIZE == 0,
            is_canonical(address),
    {
        proof {
            use_type_invariant(self);
        }
        self.0
    }

    /// The index of this page in its page table of the given level, 1 to 4.
    pub fn page_index(self, level: u8) -> (index: usize)
        requires
            1 <= level <= 4,
        ensures
            index == table_index(self.spec_u64(), level as int),
            index < 512,
    {
        let address: u64 = self.0;
        let shift: u64 = 12 + 9 * (level as u64 - 1);
        proof {
            lemma_table_index(address, shift);
        }
        ((address >> shift) & 0x1ff) as usize
    }
}

/// An address determines the page.
pub proof fn law_virtual_address_injective(a: VirtualAddress, b: VirtualAddress)
    requires
        a.spec_u64() == b.spec_u64(),
    ensures
        a == b,
{
}

/// The span of memory that one entry of a table of `level` covers.
pub open spec fn entry_span(level: int) -> int {
    if level <= 1 {
        0x1000
    } else if level == 2 {
        0x20_0000
    } else if level == 3 {
        0x4000_0000
    } else {
        0x80_0000_0000
    }
}

/// The entry of the table of `level` under which `address` falls.
pub open spec fn table_index(address: u64, level: int) -> int {
    (address as int / entry_span(level)) % 512
}

proof fn lemma_table_index(address: u64, shift: u64)
    by (bit_vector)
    requires
        shift == 12 || shift == 21 || shift == 30 || shift == 39,
    ensures
        shift == 12 ==> ((address >> shift) & 0x1ff) == (address / 0x1000) % 512,
        shift == 21 ==> ((address >> shift) & 0x1ff) == (address / 0x20_0000) % 512,
        shift == 30 ==> ((address >> shift) & 0x1ff) == (address / 0x4000_0000) % 512,
        shift == 39 ==> ((address >> shift) & 0x1ff) == (address / 0x80_0000_0000) % 512,
        ((address >> shift) & 0x1ff) < 512,
{
}

} // verus!
