//! What a flattened device tree says of the hardware: interrupt controller,
//! timers, PCI Express and processors.
use super::firmware;
use super::firmware::{FDT_BEGIN_NODE, FDT_END, FDT_END_NODE, FDT_MAGIC, FDT_NOP, FDT_PROP};
use super::memory_map::BootMemory;
use crate::bytes;
use crate::text;
use vstd::prelude::*;
use vstd::slice::slice_subrange;

pub mod laws;

verus! {

pub const MAX_DTB_SIZE: u64 = 0x10_0000;

pub const MAX_DEPTH: usize = 16;

pub const MAX_CPUS: usize = 8;

#[derive(Clone, Copy, Debug, PartialEq, Eq, Structural)]
pub enum PsciConduit {
    Unknown,
    Hvc,
    Smc,
}

#[derive(Clone, Copy, Debug, PartialEq, Eq, Structural)]
pub struct CpuBootInfo {
    pub mpidr: u64,
    pub release_address: u64,
    pub spin_table: bool,
    pub enabled: bool,
}

#[derive(Clone, Copy)]
pub struct HardwareDiscovery {
    pub valid: bool,
    pub gic_distributor_base: u64,
    pub gic_cpu_interface_base: u64,
    pub system_timer_base: u64,
    pub pcie_controller_base: u64,
    pub physical_timer_interrupt: u32,
    pub psci_conduit: PsciConduit,
    pub cpus: [CpuBootInfo; 8],
    pub cpu_count: usize,
}

/// What was discovered, with the processors in the order of their nodes.
#[verifier::ext_equal]
pub struct DiscoveryView {
    pub valid: bool,
    pub gic_distributor_base: u64,
    pub gic_cpu_interface_base: u64,
    pub system_timer_base: u64,
    pub pcie_controller_base: u64,
    pub physical_timer_interrupt: u32,
    pub psci_conduit: PsciConduit,
    pub cpus: Seq<CpuBootInfo>,
}

/// Nothing is known but the usual timer interrupt.
pub open spec fn nothing_discovered() -> DiscoveryView {
    DiscoveryView {
        valid: false,
        gic_distributor_base: 0,
        gic_cpu_interface_base: 0,
        system_timer_base: 0,
        pcie_controller_base: 0,
        physical_timer_interrupt: 30,
        psci_conduit: PsciConduit::Unknown,
        cpus: Seq::empty(),
    }
}

/// A processor that nothing is known of.
pub open spec fn no_cpu() -> CpuBootInfo {
    CpuBootInfo { mpidr: 0, release_address: 0, spin_table: false, enabled: false }
}

/// The table of the processors: those that are known, and nothing behind them.
pub open spec fn cpu_table(cpus: Seq<CpuBootInfo>) -> Seq<CpuBootInfo> {
    Seq::new(
        8,
        |i: int|
            if i < cpus.len() {
                cpus[i]
            } else {
                no_cpu()
            },
    )
}

impl View for HardwareDiscovery {
    type V = DiscoveryView;

    open spec fn view(&self) -> DiscoveryView {
        DiscoveryView {
            valid: self.valid,
            gic_distributor_base: self.gic_distributor_base,
            gic_cpu_interface_base: self.gic_cpu_interface_base,
            system_timer_base: self.system_timer_base,
            pcie_controller_base: self.pcie_controller_base,
            physical_timer_interrupt: self.physical_timer_interrupt,
            psci_conduit: self.psci_conduit,
            cpus: self.cpus@.take(self.cpu_count as int),
        }
    }
}

impl HardwareDiscovery {
    /// There is room for the processors, and behind the last of them there is nothing.
    pub open spec fn wf(self) -> bool {
        &&& self.cpu_count <= 8
        &&& self.cpu_count == self@.cpus.len()
        &&& self.cpus@ == cpu_table(self@.cpus)
    }

    pub fn empty() -> (discovery: Self)
        ensures
            discovery.wf(),
            discovery@ == nothing_discovered(),
            discovery.cpu_count == 0,
            discovery.cpus@ == cpu_table(Seq::empty()),
    {
        let none = CpuBootInfo { mpidr: 0, release_address: 0, spin_table: false, enabled: false };
        let discovery = Self {
            valid: false,
            gic_distributor_base: 0,
            gic_cpu_interface_base: 0,
            system_timer_base: 0,
            pcie_controller_base: 0,
            physical_timer_interrupt: 30,
            psci_conduit: PsciConduit::Unknown,
            cpus: [none; 8],
            cpu_count: 0,
        };
        assert(discovery@ =~= nothing_discovered());
        assert(discovery.cpus@ =~= cpu_table(Seq::empty()));
        discovery
    }
}

/// What is known of a node that has been entered and not left yet.
#[derive(Clone, Copy)]
struct NodeState {
    parent_address_cells: usize,
    parent_size_cells: usize,
    child_address_cells: usize,
    child_size_cells: usize,
    cpus_container: bool,
    cpu: bool,
    psci: bool,
    arm_timer: bool,
    gic: bool,
    system_timer: bool,
    pcie: bool,
    enabled: bool,
    spin_table: bool,
    psci_conduit: PsciConduit,
    registers: [u64; 4],
    register_count: usize,
    cpu_mpidr: u64,
    release_address: u64,
    physical_timer_interrupt: u32,
}

/// The knowledge of a node; `registers` are the bases of its register windows.
#[verifier::ext_equal]
pub struct NodeView {
    pub parent_address_cells: usize,
    pub parent_size_cells: usize,
    pub child_address_cells: usize,
    pub child_size_cells: usize,
    pub cpus_container: bool,
    pub cpu: bool,
    pub psci: bool,
    pub arm_timer: bool,
    pub gic: bool,
    pub system_timer: bool,
    pub pcie: bool,
    pub enabled: bool,
    pub spin_table: bool,
    pub psci_conduit: PsciConduit,
    pub registers: Seq<u64>,
    pub cpu_mpidr: u64,
    pub release_address: u64,
    pub physical_timer_interrupt: u32,
}

impl NodeState {
    spec fn wf(self) -> bool {
        self.register_count <= 4
    }

    spec fn view(&self) -> NodeView {
        NodeView {
            parent_address_cells: self.parent_address_cells,
            parent_size_cells: self.parent_size_cells,
            child_address_cells: self.child_address_cells,
            child_size_cells: self.child_size_cells,
            cpus_container: self.cpus_container,
            cpu: self.cpu,
            psci: self.psci,
            arm_timer: self.arm_timer,
            gic: self.gic,
            system_timer: self.system_timer,
            pcie: self.pcie,
            enabled: self.enabled,
            spin_table: self.spin_table,
            psci_conduit: self.psci_conduit,
            registers: self.registers@.take(self.register_count as int),
            cpu_mpidr: self.cpu_mpidr,
            release_address: self.release_address,
            physical_timer_interrupt: self.physical_timer_interrupt,
        }
    }
}

/// A node of this name below `parent`, if it has one. It counts cells as its parent
/// does for its children.
pub open spec fn new_node(parent: Option<NodeView>, name: Seq<u8>) -> NodeView {
    let address_cells = match parent {
        Some(parent) => parent.child_address_cells,
        None => 2,
    };
    let size_cells = match parent {
        Some(parent) => parent.child_size_cells,
        None => 1,
    };
    let unit = text::literal("cpu@");
    NodeView {
        parent_address_cells: address_cells,
        parent_size_cells: size_cells,
        child_address_cells: address_cells,
        child_size_cells: size_cells,
        cpus_container: name == text::literal("cpus"),
        cpu: parent is Some && parent.unwrap().cpus_container && unit.len() <= name.len()
            && name.take(unit.len() as int) == unit,
        psci: name == text::literal("psci"),
        arm_timer: name == text::literal("timer"),
        gic: false,
        system_timer: false,
        pcie: false,
        enabled: true,
        spin_table: false,
        psci_conduit: PsciConduit::Unknown,
        registers: Seq::empty(),
        cpu_mpidr: 0,
        release_address: 0,
        physical_timer_interrupt: 30,
    }
}

/// Whether a list of zero-terminated strings holds `word`.
#[verifier::opaque]
pub open spec fn list_contains(list: Seq<u8>, word: Seq<u8>) -> bool
    decreases list.len(),
{
    match firmware::terminated(list) {
        None => false,
        Some(name) => name == word || list_contains(list.skip(name.len() as int + 1), word),
    }
}

/// Whether a value is `word` behind which a zero stands.
#[verifier::opaque]
pub open spec fn value_is(value: Seq<u8>, word: Seq<u8>) -> bool {
    value.len() > word.len() && value.take(word.len() as int) == word && value[word.len() as int]
        == 0
}

/// The bases of the register windows in a `reg` value from `at` on, behind those that
/// are known, four at most.
pub open spec fn register_bases(
    known: Seq<u64>,
    value: Seq<u8>,
    at: int,
    address_cells: int,
    size_cells: int,
) -> Seq<u64>
    decreases value.len() - at,
{
    let pair = 4 * (address_cells + size_cells);
    if pair <= 0 || at < 0 || at + pair > value.len() || known.len() >= 4 {
        known
    } else {
        register_bases(
            known.push(firmware::cells(value, at, address_cells)),
            value,
            at + pair,
            address_cells,
            size_cells,
        )
    }
}

/// A node after its `reg` property: the number of a processor, or the bases of the
/// register windows.
#[verifier::opaque]
pub open spec fn with_registers(node: NodeView, value: Seq<u8>) -> NodeView {
    let a = node.parent_address_cells as int;
    let s = node.parent_size_cells as int;
    if node.cpu {
        if 1 <= a <= 2 && value.len() >= 4 * a {
            NodeView { cpu_mpidr: firmware::cells(value, 0, a), ..node }
        } else {
            node
        }
    } else if !(1 <= a <= 2) || !(1 <= s <= 2) {
        node
    } else {
        NodeView { registers: register_bases(node.registers, value, 0, a, s), ..node }
    }
}

/// Whether an `interrupts` value from `at` on names the physical timer.
pub open spec fn names_physical_timer(value: Seq<u8>, at: int) -> bool
    decreases value.len() - at,
{
    if at < 0 || at + 12 > value.len() {
        false
    } else {
        (bytes::be32(value, at) == 1 && bytes::be32(value, at + 4) == 14) || names_physical_timer(
            value,
            at + 12,
        )
    }
}

/// The number of at most two cells in a value.
#[verifier::opaque]
pub open spec fn release_cells(value: Seq<u8>) -> u64 {
    if value.len() < 4 {
        0
    } else if value.len() < 8 {
        bytes::be32(value, 0) as u64
    } else {
        bytes::be64(value, 0)
    }
}

/// A node after its `compatible` property, which names the drivers it suits.
#[verifier::opaque]
pub open spec fn with_compatible(node: NodeView, value: Seq<u8>) -> NodeView {
    NodeView {
        gic: node.gic || list_contains(value, text::literal("arm,gic-400")) || list_contains(
            value,
            text::literal("arm,cortex-a15-gic"),
        ),
        system_timer: node.system_timer || list_contains(
            value,
            text::literal("brcm,bcm2835-system-timer"),
        ),
        pcie: node.pcie || list_contains(value, text::literal("brcm,bcm2712-pcie")),
        arm_timer: node.arm_timer || list_contains(value, text::literal("arm,armv8-timer"))
            || list_contains(value, text::literal("arm,armv7-timer")),
        psci: node.psci || list_contains(value, text::literal("arm,psci-0.2")) || list_contains(
            value,
            text::literal("arm,psci-1.0"),
        ),
        ..node
    }
}

/// The properties that matter.
#[derive(Clone, Copy, Debug, PartialEq, Eq, Structural)]
pub enum Property {
    AddressCells,
    SizeCells,
    Compatible,
    Registers,
    Interrupts,
    Method,
    EnableMethod,
    ReleaseAddress,
    Status,
    Other,
}

/// The property that a name stands for.
#[verifier::opaque]
pub open spec fn property_of(strings: Seq<u8>, name: int) -> Property {
    if firmware::string_is(strings, name, text::literal("#address-cells")) {
        Property::AddressCells
    } else if firmware::string_is(strings, name, text::literal("#size-cells")) {
        Property::SizeCells
    } else if firmware::string_is(strings, name, text::literal("compatible")) {
        Property::Compatible
    } else if firmware::string_is(strings, name, text::literal("reg")) {
        Property::Registers
    } else if firmware::string_is(strings, name, text::literal("interrupts")) {
        Property::Interrupts
    } else if firmware::string_is(strings, name, text::literal("method")) {
        Property::Method
    } else if firmware::string_is(strings, name, text::literal("enable-method")) {
        Property::EnableMethod
    } else if firmware::string_is(strings, name, text::literal("cpu-release-addr")) {
        Property::ReleaseAddress
    } else if firmware::string_is(strings, name, text::literal("status")) {
        Property::Status
    } else {
        Property::Other
    }
}

/// A node after a property that is not about cells and drivers.
#[verifier::opaque]
pub open spec fn with_words(node: NodeView, property: Property, value: Seq<u8>) -> NodeView {
    match property {
        Property::Method => NodeView {
            psci_conduit: if value_is(value, text::literal("hvc")) {
                PsciConduit::Hvc
            } else if value_is(value, text::literal("smc")) {
                PsciConduit::Smc
            } else {
                PsciConduit::Unknown
            },
            ..node
        },
        Property::EnableMethod => NodeView {
            spin_table: value_is(value, text::literal("spin-table")),
            ..node
        },
        Property::ReleaseAddress => NodeView { release_address: release_cells(value), ..node },
        Property::Status => NodeView {
            enabled: !value_is(value, text::literal("disabled")),
            ..node
        },
        _ => node,
    }
}

/// A node after a property.
pub open spec fn with_property(
    node: NodeView,
    strings: Seq<u8>,
    name: int,
    value: Seq<u8>,
) -> NodeView {
    match property_of(strings, name) {
        Property::AddressCells => if value.len() == 4 {
            NodeView { child_address_cells: bytes::be32(value, 0) as usize, ..node }
        } else {
            node
        },
        Property::SizeCells => if value.len() == 4 {
            NodeView { child_size_cells: bytes::be32(value, 0) as usize, ..node }
        } else {
            node
        },
        Property::Compatible => with_compatible(node, value),
        Property::Registers => with_registers(node, value),
        Property::Interrupts => if node.arm_timer && names_physical_timer(value, 0) {
            NodeView { physical_timer_interrupt: 30, ..node }
        } else {
            node
        },
        property => with_words(node, property, value),
    }
}

/// What is discovered once a node is complete.
pub open spec fn committed(node: NodeView, discovery: DiscoveryView) -> DiscoveryView {
    let known = node.registers.len() > 0;
    let gic = node.gic && node.registers.len() >= 2;
    DiscoveryView {
        valid: discovery.valid,
        gic_distributor_base: if gic {
            node.registers[0]
        } else {
            discovery.gic_distributor_base
        },
        gic_cpu_interface_base: if gic {
            node.registers[1]
        } else {
            discovery.gic_cpu_interface_base
        },
        system_timer_base: if node.system_timer && known {
            node.registers[0]
        } else {
            discovery.system_timer_base
        },
        pcie_controller_base: if node.pcie && known {
            node.registers[0]
        } else {
            discovery.pcie_controller_base
        },
        physical_timer_interrupt: if node.arm_timer {
            node.physical_timer_interrupt
        } else {
            discovery.physical_timer_interrupt
        },
        psci_conduit: if node.psci && node.psci_conduit != PsciConduit::Unknown {
            node.psci_conduit
        } else {
            discovery.psci_conduit
        },
        cpus: if node.cpu && node.enabled && discovery.cpus.len() < 8 {
            discovery.cpus.push(
                CpuBootInfo {
                    mpidr: node.cpu_mpidr,
                    release_address: node.release_address,
                    spin_table: node.spin_table,
                    enabled: true,
                },
            )
        } else {
            discovery.cpus
        },
    }
}

/// What the structure block tells from `cursor` on, with `nodes` entered; nothing
/// where the block is malformed.
pub open spec fn discovered_from(
    cursor: int,
    nodes: Seq<NodeView>,
    discovery: DiscoveryView,
    structure: Seq<u8>,
    strings: Seq<u8>,
) -> DiscoveryView
    decreases structure.len() + 3 - cursor,
{
    let token = bytes::be32(structure, cursor);
    let at = cursor + 4;
    if cursor < 0 || at > structure.len() {
        nothing_discovered()
    } else if token == FDT_BEGIN_NODE {
        match firmware::terminated(structure.skip(at)) {
            None => nothing_discovered(),
            Some(name) => {
                let next = firmware::aligned4(at + name.len() + 1);
                if nodes.len() >= 16 || next > structure.len() + 3 {
                    nothing_discovered()
                } else {
                    discovered_from(
                        next,
                        nodes.push(
                            new_node(
                                if nodes.len() == 0 {
                                    None
                                } else {
                                    Some(nodes.last())
                                },
                                name,
                            ),
                        ),
                        discovery,
                        structure,
                        strings,
                    )
                }
            },
        }
    } else if token == FDT_END_NODE {
        if nodes.len() == 0 {
            nothing_discovered()
        } else {
            discovered_from(
                at,
                nodes.drop_last(),
                committed(nodes.last(), discovery),
                structure,
                strings,
            )
        }
    } else if token == FDT_PROP {
        let size = bytes::be32(structure, at) as int;
        let name = bytes::be32(structure, at + 4) as int;
        let next = firmware::aligned4(at + 8 + size);
        if nodes.len() == 0 || at + 8 > structure.len() || at + 8 + size > structure.len() || name
            >= strings.len() {
            nothing_discovered()
        } else {
            discovered_from(
                next,
                nodes.update(
                    nodes.len() - 1,
                    with_property(
                        nodes.last(),
                        strings,
                        name,
                        structure.subrange(at + 8, at + 8 + size),
                    ),
                ),
                discovery,
                structure,
                strings,
            )
        }
    } else if token == FDT_NOP {
        discovered_from(at, nodes, discovery, structure, strings)
    } else if token == FDT_END {
        discovery
    } else {
        nothing_discovered()
    }
}

/// What the device tree at `address` tells of the hardware.
pub open spec fn discovered(memory: BootMemory, address: u64) -> DiscoveryView {
    let header = memory.contents(address, 40);
    let total = bytes::be32(header, 4) as int;
    let structure_offset = bytes::be32(header, 8) as int;
    let strings_offset = bytes::be32(header, 12) as int;
    let strings_size = bytes::be32(header, 32) as int;
    let structure_size = bytes::be32(header, 36) as int;
    let blob = memory.contents(address, total);
    if address == 0 || address % 8 != 0 || !memory.covers(address, 40) || bytes::be32(header, 0)
        != FDT_MAGIC || total < 40 || total > MAX_DTB_SIZE || !memory.covers(address, total)
        || !firmware::in_blob(structure_offset, structure_size, total) || !firmware::in_blob(
        strings_offset,
        strings_size,
        total,
    ) {
        nothing_discovered()
    } else {
        discovered_from(
            structure_offset,
            Seq::empty(),
            DiscoveryView { valid: true, ..nothing_discovered() },
            blob.take(structure_offset + structure_size),
            blob.subrange(strings_offset, strings_offset + strings_size),
        )
    }
}

proof fn lemma_discovered_from(
    cursor: int,
    nodes: Seq<NodeView>,
    discovery: DiscoveryView,
    structure: Seq<u8>,
    strings: Seq<u8>,
)
    requires
        discovery.valid,
        discovery.cpus.len() <= 8,
        forall|i: int| 0 <= i < discovery.cpus.len() ==> (#[trigger] discovery.cpus[i]).enabled,
    ensures
        ({
            let told = discovered_from(cursor, nodes, discovery, structure, strings);
            &&& !told.valid ==> told == nothing_discovered()
            &&& told.cpus.len() <= 8
            &&& forall|i: int| 0 <= i < told.cpus.len() ==> (#[trigger] told.cpus[i]).enabled
        }),
    decreases structure.len() + 3 - cursor,
{
    let token = bytes::be32(structure, cursor);
    let at = cursor + 4;
    if cursor < 0 || at > structure.len() {
    } else if token == FDT_BEGIN_NODE {
        if let Some(name) = firmware::terminated(structure.skip(at)) {
            let next = firmware::aligned4(at + name.len() + 1);
            if nodes.len() < 16 && next <= structure.len() + 3 {
                let above = if nodes.len() == 0 {
                    None
                } else {
                    Some(nodes.last())
                };
                lemma_discovered_from(
                    next,
                    nodes.push(new_node(above, name)),
                    discovery,
                    structure,
                    strings,
                );
            }
        }
    } else if token == FDT_END_NODE {
        if nodes.len() > 0 {
            lemma_discovered_from(
                at,
                nodes.drop_last(),
                committed(nodes.last(), discovery),
                structure,
                strings,
            );
        }
    } else if token == FDT_PROP {
        let size = bytes::be32(structure, at) as int;
        let name = bytes::be32(structure, at + 4) as int;
        if nodes.len() > 0 && at + 8 <= structure.len() && at + 8 + size <= structure.len() && name
            < strings.len() {
            let value = structure.subrange(at + 8, at + 8 + size);
            lemma_discovered_from(
                firmware::aligned4(at + 8 + size),
                nodes.update(
                    nodes.len() - 1,
                    with_property(nodes.last(), strings, name, value),
                ),
                discovery,
                structure,
                strings,
            );
        }
    } else if token == FDT_NOP {
        lemma_discovered_from(at, nodes, discovery, structure, strings);
    }
}

/// Of a tree that is broken nothing is told, not even what stands before the fault; of any
/// tree at most eight processors are told, each of them enabled.
pub proof fn law_broken_tree_tells_nothing(memory: BootMemory, address: u64)
    ensures
        !discovered(memory, address).valid ==> discovered(memory, address)
            == nothing_discovered(),
        discovered(memory, address).cpus.len() <= 8,
        forall|i: int|
            0 <= i < discovered(memory, address).cpus.len() ==> (#[trigger] discovered(
                memory,
                address,
            ).cpus[i]).enabled,
{
    let header = memory.contents(address, 40);
    let total = bytes::be32(header, 4) as int;
    let structure_offset = bytes::be32(header, 8) as int;
    let strings_offset = bytes::be32(header, 12) as int;
    let blob = memory.contents(address, total);
    lemma_discovered_from(
        structure_offset,
        Seq::empty(),
        DiscoveryView { valid: true, ..nothing_discovered() },
        blob.take(structure_offset + bytes::be32(header, 36)),
        blob.subrange(strings_offset, strings_offset + bytes::be32(header, 32)),
    );
}

fn string_list_contains(list: &[u8], expected: &[u8]) -> (found: bool)
    ensures
        found == list_contains(list@, expected@),
{
    reveal_with_fuel(list_contains, 2);
    let mut start: usize = 0;
    assert(list@.skip(0) =~= list@);
    loop
        invariant
            start <= list@.len(),
            list_contains(list@, expected@) == list_contains(list@.skip(start as int), expected@),
        decreases list@.len() - start,
    {
        reveal_with_fuel(list_contains, 2);
        let end: usize = text::position_from(list, start, 0);
        if end >= list.len() {
            return false;
        }
        let ghost rest = list@.skip(start as int);
        let name = slice_subrange(list, start, end);
        assert(rest.take(end - start) =~= name@);
        if text::equal(name, expected) {
            return true;
        }
        assert(rest.skip(end - start + 1) =~= list@.skip(end + 1));
        start = end + 1;
    }
}

fn value_equals(value: &[u8], expected: &[u8]) -> (same: bool)
    ensures
        same == value_is(value@, expected@),
{
    reveal(value_is);
    value.len() > expected.len() && text::starts_with(value, expected) && value[expected.len()] == 0
}

fn parse_registers(value: &[u8], node: &mut NodeState)
    requires
        old(node).wf(),
        value@.len() <= MAX_DTB_SIZE,
    ensures
        final(node).wf(),
        final(node).view() == with_registers(old(node).view(), value@),
{
    reveal(with_registers);
    let address_cells: usize = node.parent_address_cells;
    let size_cells: usize = node.parent_size_cells;
    if node.cpu {
        if address_cells >= 1 && address_cells <= 2 && value.len() >= address_cells * 4 {
            node.cpu_mpidr = firmware::read_cells(value, 0, address_cells);
        }
        return ;
    }
    if address_cells < 1 || address_cells > 2 || size_cells < 1 || size_cells > 2 {
        return ;
    }
    let pair: usize = (address_cells + size_cells) * 4;
    let ghost before = node.view();
    let mut offset: usize = 0;
    while node.register_count < 4 && offset + pair <= value.len()
        invariant
            node.wf(),
            value@.len() <= MAX_DTB_SIZE,
            1 <= address_cells <= 2,
            1 <= size_cells <= 2,
            pair == 4 * (address_cells + size_cells),
            offset <= value@.len(),
            node.view() == (NodeView { registers: node.view().registers, ..before }),
            register_bases(
                before.registers,
                value@,
                0,
                address_cells as int,
                size_cells as int,
            ) == register_bases(
                node.view().registers,
                value@,
                offset as int,
                address_cells as int,
                size_cells as int,
            ),
        decreases value@.len() - offset,
    {
        let base: u64 = firmware::read_cells(value, offset, address_cells);
        let at: usize = node.register_count;
        let ghost known = node.view().registers;
        node.registers[at] = base;
        node.register_count = at + 1;
        assert(node.view().registers =~= known.push(base));
        offset += pair;
    }
}

fn parse_timer_interrupts(value: &[u8], node: &mut NodeState)
    requires
        value@.len() <= MAX_DTB_SIZE,
    ensures
        final(node).wf() == old(node).wf(),
        final(node).view() == (if names_physical_timer(value@, 0) {
            NodeView { physical_timer_interrupt: 30, ..old(node).view() }
        } else {
            old(node).view()
        }),
{
    let mut offset: usize = 0;
    while offset + 12 <= value.len()
        invariant
            value@.len() <= MAX_DTB_SIZE,
            offset <= value@.len(),
            *node == *old(node),
            names_physical_timer(value@, 0) == names_physical_timer(value@, offset as int),
        decreases value@.len() - offset,
    {
        let kind: u32 = bytes::read_be32(value, offset);
        let number: u32 = bytes::read_be32(value, offset + 4);
        if kind == 1 && number == 14 {
            node.physical_timer_interrupt = 16 + number;
            return ;
        }
        offset += 12;
    }
}

fn parse_release(value: &[u8]) -> (address: u64)
    ensures
        address == release_cells(value@),
{
    reveal(release_cells);
    if value.len() < 4 {
        0
    } else if value.len() < 8 {
        firmware::read_cells(value, 0, 1)
    } else {
        firmware::read_cells(value, 0, 2)
    }
}

fn parse_compatible(value: &[u8], node: &mut NodeState)
    ensures
        final(node).wf() == old(node).wf(),
        final(node).view() == with_compatible(old(node).view(), value@),
{
    reveal(with_compatible);
    let gic400 = string_list_contains(value, text::literal_bytes("arm,gic-400"));
    let gic15 = string_list_contains(value, text::literal_bytes("arm,cortex-a15-gic"));
    let system_timer = string_list_contains(
        value,
        text::literal_bytes("brcm,bcm2835-system-timer"),
    );
    let pcie = string_list_contains(value, text::literal_bytes("brcm,bcm2712-pcie"));
    let timer8 = string_list_contains(value, text::literal_bytes("arm,armv8-timer"));
    let timer7 = string_list_contains(value, text::literal_bytes("arm,armv7-timer"));
    let psci02 = string_list_contains(value, text::literal_bytes("arm,psci-0.2"));
    let psci10 = string_list_contains(value, text::literal_bytes("arm,psci-1.0"));
    node.gic = node.gic || gic400 || gic15;
    node.system_timer = node.system_timer || system_timer;
    node.pcie = node.pcie || pcie;
    node.arm_timer = node.arm_timer || timer8 || timer7;
    node.psci = node.psci || psci02 || psci10;
}

/// The property that a name stands for.
fn find_property(strings: &[u8], name: usize) -> (property: Property)
    requires
        name <= strings@.len(),
    ensures
        property == property_of(strings@, name as int),
{
    reveal(property_of);
    if firmware::fdt_string_equals(strings, name, text::literal_bytes("#address-cells")) {
        Property::AddressCells
    } else if firmware::fdt_string_equals(strings, name, text::literal_bytes("#size-cells")) {
        Property::SizeCells
    } else if firmware::fdt_string_equals(strings, name, text::literal_bytes("compatible")) {
        Property::Compatible
    } else if firmware::fdt_string_equals(strings, name, text::literal_bytes("reg")) {
        Property::Registers
    } else if firmware::fdt_string_equals(strings, name, text::literal_bytes("interrupts")) {
        Property::Interrupts
    } else if firmware::fdt_string_equals(strings, name, text::literal_bytes("method")) {
        Property::Method
    } else if firmware::fdt_string_equals(strings, name, text::literal_bytes("enable-method")) {
        Property::EnableMethod
    } else if firmware::fdt_string_equals(strings, name, text::literal_bytes("cpu-release-addr")) {
        Property::ReleaseAddress
    } else if firmware::fdt_string_equals(strings, name, text::literal_bytes("status")) {
        Property::Status
    } else {
        Property::Other
    }
}

/// Takes a property into account that is not about cells and drivers.
fn parse_words(property: Property, value: &[u8], node: &mut NodeState)
    ensures
        final(node).wf() == old(node).wf(),
        final(node).view() == with_words(old(node).view(), property, value@),
{
    reveal(with_words);
    match property {
        Property::Method => {
            node.psci_conduit = if value_equals(value, text::literal_bytes("hvc")) {
                PsciConduit::Hvc
            } else if value_equals(value, text::literal_bytes("smc")) {
                PsciConduit::Smc
            } else {
                PsciConduit::Unknown
            };
        },
        Property::EnableMethod => {
            node.spin_table = value_equals(value, text::literal_bytes("spin-table"));
        },
        Property::ReleaseAddress => {
            node.release_address = parse_release(value);
        },
        Property::Status => {
            node.enabled = !value_equals(value, text::literal_bytes("disabled"));
        },
        _ => {},
    }
}

/// Takes a property into account.
fn parse_property(strings: &[u8], name: usize, value: &[u8], node: &mut NodeState)
    requires
        old(node).wf(),
        name <= strings@.len(),
        value@.len() <= MAX_DTB_SIZE,
    ensures
        final(node).wf(),
        final(node).view() == with_property(old(node).view(), strings@, name as int, value@),
{
    match find_property(strings, name) {
        Property::AddressCells => {
            if value.len() == 4 {
                node.child_address_cells = bytes::read_be32(value, 0) as usize;
            }
        },
        Property::SizeCells => {
            if value.len() == 4 {
                node.child_size_cells = bytes::read_be32(value, 0) as usize;
            }
        },
        Property::Compatible => parse_compatible(value, node),
        Property::Registers => parse_registers(value, node),
        Property::Interrupts => {
            if node.arm_timer {
                parse_timer_interrupts(value, node);
            }
        },
        property => parse_words(property, value, node),
    }
}

/// Takes over what a complete node tells.
fn commit_node(node: &NodeState, discovery: &mut HardwareDiscovery)
    requires
        node.wf(),
        old(discovery).wf(),
    ensures
        final(discovery).wf(),
        final(discovery)@ == committed(node.view(), old(discovery)@),
{
    if node.gic && node.register_count >= 2 {
        discovery.gic_distributor_base = node.registers[0];
        discovery.gic_cpu_interface_base = node.registers[1];
    }
    if node.system_timer && node.register_count != 0 {
        discovery.system_timer_base = node.registers[0];
    }
    if node.pcie && node.register_count != 0 {
        discovery.pcie_controller_base = node.registers[0];
    }
    if node.arm_timer {
        discovery.physical_timer_interrupt = node.physical_timer_interrupt;
    }
    if node.psci && node.psci_conduit != PsciConduit::Unknown {
        discovery.psci_conduit = node.psci_conduit;
    }
    if node.cpu && node.enabled && discovery.cpu_count < MAX_CPUS {
        let at: usize = discovery.cpu_count;
        discovery.cpus[at] =
        CpuBootInfo {
            mpidr: node.cpu_mpidr,
            release_address: node.release_address,
            spin_table: node.spin_table,
            enabled: true,
        };
        discovery.cpu_count = at + 1;
    }
    assert(discovery@.cpus =~= committed(node.view(), old(discovery)@).cpus);
    assert(discovery.cpus@ =~= cpu_table(discovery@.cpus));
}

fn enter_node(parent: Option<NodeState>, name: &[u8]) -> (node: NodeState)
    ensures
        node.wf(),
        node.view() == new_node(
            match parent {
                Some(parent) => Some(parent.view()),
                None => None,
            },
            name@,
        ),
{
    let address_cells: usize = match &parent {
        Some(parent) => parent.child_address_cells,
        None => 2,
    };
    let size_cells: usize = match &parent {
        Some(parent) => parent.child_size_cells,
        None => 1,
    };
    let in_cpus = match &parent {
        Some(parent) => parent.cpus_container,
        None => false,
    };
    let node = NodeState {
        parent_address_cells: address_cells,
        parent_size_cells: size_cells,
        child_address_cells: address_cells,
        child_size_cells: size_cells,
        cpus_container: text::equal(name, text::literal_bytes("cpus")),
        cpu: in_cpus && text::starts_with(name, text::literal_bytes("cpu@")),
        psci: text::equal(name, text::literal_bytes("psci")),
        arm_timer: text::equal(name, text::literal_bytes("timer")),
        gic: false,
        system_timer: false,
        pcie: false,
        enabled: true,
        spin_table: false,
        psci_conduit: PsciConduit::Unknown,
        registers: [0u64; 4],
        register_count: 0,
        cpu_mpidr: 0,
        release_address: 0,
        physical_timer_interrupt: 30,
    };
    assert(node.view().registers =~= Seq::<u64>::empty());
    node
}

/// The views of the nodes that are entered.
spec fn node_views(nodes: Seq<NodeState>) -> Seq<NodeView> {
    nodes.map_values(|node: NodeState| node.view())
}

/// Reads from the device tree at `address` what the kernel needs to know of the
/// hardware. A malformed tree tells nothing.
pub fn discover_hardware(memory: &BootMemory, address: u64) -> (discovery: HardwareDiscovery)
    ensures
        discovery.wf(),
        discovery@ == discovered(*memory, address),
        discovery.cpu_count == discovered(*memory, address).cpus.len(),
        discovery.cpus@ == cpu_table(discovered(*memory, address).cpus),
        !discovery.valid ==> discovery@ == nothing_discovered() && discovery.cpus@ == cpu_table(
            Seq::empty(),
        ),
        forall|i: int| 0 <= i < discovery.cpu_count ==> (#[trigger] discovery.cpus@[i]).enabled,
{
    let mut discovery = HardwareDiscovery::empty();
    if address == 0 || address % 8 != 0 {
        return discovery;
    }
    let header = match memory.slice(address, 40) {
        Some(header) => header,
        None => return discovery,
    };
    if bytes::read_be32(header, 0) != FDT_MAGIC {
        return discovery;
    }
    let total_size: u64 = bytes::read_be32(header, 4) as u64;
    let structure_offset: u32 = bytes::read_be32(header, 8);
    let strings_offset: u32 = bytes::read_be32(header, 12);
    let strings_size: u32 = bytes::read_be32(header, 32);
    let structure_size: u32 = bytes::read_be32(header, 36);
    if total_size < 40 || total_size > MAX_DTB_SIZE || !firmware::fdt_range_valid(
        structure_offset as u64,
        structure_size as u64,
        total_size,
    ) || !firmware::fdt_range_valid(strings_offset as u64, strings_size as u64, total_size) {
        return discovery;
    }
    let blob = match memory.slice(address, total_size) {
        Some(blob) => blob,
        None => return discovery,
    };
    let end: usize = (structure_offset + structure_size) as usize;
    let strings_end: usize = (strings_offset + strings_size) as usize;
    let structure = slice_subrange(blob, 0, end);
    let strings = slice_subrange(blob, strings_offset as usize, strings_end);
    assert(structure@ =~= blob@.take(end as int));
    let mut nodes: Vec<NodeState> = Vec::new();
    let mut cursor: usize = structure_offset as usize;
    discovery.valid = true;
    let ghost expected = discovered(*memory, address);
    proof {
        assert(node_views(nodes@) =~= Seq::<NodeView>::empty());
        assert(discovery@ =~= (DiscoveryView { valid: true, ..nothing_discovered() }));
    }
    while cursor + 4 <= end
        invariant
            end == structure@.len(),
            end <= MAX_DTB_SIZE,
            cursor <= end + 3,
            nodes@.len() <= 16,
            forall|i: int| 0 <= i < nodes@.len() ==> (#[trigger] nodes@[i]).wf(),
            discovery.wf(),
            expected == discovered(*memory, address),
            expected == discovered_from(
                cursor as int,
                node_views(nodes@),
                discovery@,
                structure@,
                strings@,
            ),
        decreases end + 3 - cursor,
    {
        let token: u32 = bytes::read_be32(structure, cursor);
        let at: usize = cursor + 4;
        let ghost before = nodes@;
        if token == FDT_BEGIN_NODE {
            let name_end: usize = text::position_from(structure, at, 0);
            proof {
                assert(structure@.skip(at as int).take(name_end - at) =~= structure@.subrange(
                    at as int,
                    name_end as int,
                ));
            }
            if nodes.len() == MAX_DEPTH {
                return HardwareDiscovery::empty();
            }
            if name_end >= end {
                return HardwareDiscovery::empty();
            }
            let name = slice_subrange(structure, at, name_end);
            let parent = if nodes.len() == 0 {
                None
            } else {
                Some(nodes[nodes.len() - 1])
            };
            let node = enter_node(parent, name);
            nodes.push(node);
            cursor = firmware::align4(name_end + 1);
            assert(node_views(nodes@) =~= node_views(before).push(node.view()));
        } else if token == FDT_END_NODE {
            match nodes.pop() {
                None => return HardwareDiscovery::empty(),
                Some(node) => {
                    assert(node_views(nodes@) =~= node_views(before).drop_last());
                    assert(node_views(before).last() == node.view());
                    commit_node(&node, &mut discovery);
                },
            }
            cursor = at;
        } else if token == FDT_PROP {
            if nodes.len() == 0 || at + 8 > end {
                return HardwareDiscovery::empty();
            }
            let value_size: u32 = bytes::read_be32(structure, at);
            let name_offset: u32 = bytes::read_be32(structure, at + 4);
            if value_size as usize > end - (at + 8) || name_offset as usize >= strings.len() {
                return HardwareDiscovery::empty();
            }
            let value_end: usize = at + 8 + value_size as usize;
            let value = slice_subrange(structure, at + 8, value_end);
            let last: usize = nodes.len() - 1;
            let mut node: NodeState = nodes[last];
            parse_property(strings, name_offset as usize, value, &mut node);
            nodes[last] = node;
            cursor = firmware::align4(value_end);
            assert(node_views(nodes@) =~= node_views(before).update(last as int, node.view()));
        } else if token == FDT_NOP {
            cursor = at;
        } else if token == FDT_END {
            proof {
                law_broken_tree_tells_nothing(*memory, address);
            }
            return discovery;
        } else {
            return HardwareDiscovery::empty();
        }
    }
    HardwareDiscovery::empty()
}

} // verus!
