//! What was discovered of a board, and how its processors are started.
use crate::arch::aarch64::Board;
use crate::boot::device_tree::{CpuBootInfo, HardwareDiscovery, PsciConduit};
use vstd::prelude::*;

verus! {

/// What is known of a processor that nothing was discovered of.
pub open spec fn unknown_cpu() -> CpuBootInfo {
    CpuBootInfo { mpidr: u64::MAX, release_address: 0, spin_table: false, enabled: false }
}

/// What was discovered.
#[verifier::ext_equal]
pub struct PlatformView {
    pub discovered: bool,
    pub gic_distributor: u64,
    pub gic_cpu_interface: u64,
    pub system_timer: u64,
    pub pcie_controller: u64,
    pub timer_interrupt: u32,
    pub psci: PsciConduit,
    pub cpu_count: int,
    pub cpus: Seq<CpuBootInfo>,
}

/// A processor as it is kept: one that is not to be used leaves what was kept before.
pub open spec fn kept_cpu(before: CpuBootInfo, found: CpuBootInfo) -> CpuBootInfo {
    if found.enabled {
        found
    } else {
        before
    }
}

/// What was discovered, taken over.
pub open spec fn configured(state: PlatformView, discovery: HardwareDiscovery) -> PlatformView {
    let both = discovery.gic_distributor_base != 0 && discovery.gic_cpu_interface_base != 0;
    if !discovery.valid {
        state
    } else {
        PlatformView {
            discovered: true,
            gic_distributor: if both {
                discovery.gic_distributor_base
            } else {
                state.gic_distributor
            },
            gic_cpu_interface: if both {
                discovery.gic_cpu_interface_base
            } else {
                state.gic_cpu_interface
            },
            system_timer: if discovery.system_timer_base != 0 {
                discovery.system_timer_base
            } else {
                state.system_timer
            },
            pcie_controller: if discovery.pcie_controller_base != 0 {
                discovery.pcie_controller_base
            } else {
                state.pcie_controller
            },
            timer_interrupt: discovery.physical_timer_interrupt,
            psci: discovery.psci_conduit,
            cpu_count: discovery.cpu_count as int,
            cpus: Seq::new(
                8,
                |i: int|
                    if i < discovery.cpu_count {
                        kept_cpu(state.cpus[i], discovery.cpus@[i])
                    } else {
                        state.cpus[i]
                    },
            ),
        }
    }
}

/// How a processor is started.
#[derive(Clone, Copy, Debug, PartialEq, Eq, Structural)]
pub enum CpuStart {
    /// The entry is written to an address that the processor watches.
    SpinTable { address: u64 },
    /// The firmware is asked, by one of two instructions.
    Firmware { target: u64, hvc: bool },
}

/// The first processor with a number in the lowest byte of its affinity, from `from` on.
pub open spec fn cpu_from(cpus: Seq<CpuBootInfo>, count: int, number: int, from: int) -> CpuBootInfo
    decreases count - from,
{
    if from >= count {
        unknown_cpu()
    } else if cpus[from].mpidr % 256 == number {
        CpuBootInfo { enabled: true, ..cpus[from] }
    } else {
        cpu_from(cpus, count, number, from + 1)
    }
}

impl PlatformView {
    pub open spec fn wf(self) -> bool {
        self.cpus.len() == 8 && 0 <= self.cpu_count <= 8
    }

    /// How a processor is started on a board.
    pub open spec fn start_of(self, board: Board, number: usize) -> CpuStart {
        let cpu = cpu_from(self.cpus, self.cpu_count, number as int, 0);
        if cpu.spin_table && cpu.release_address != 0 {
            CpuStart::SpinTable { address: cpu.release_address }
        } else {
            CpuStart::Firmware {
                target: if cpu.mpidr == u64::MAX {
                    number as u64
                } else {
                    cpu.mpidr
                },
                hvc: self.psci == PsciConduit::Hvc || (self.psci == PsciConduit::Unknown
                    && board.default_psci_hvc),
            }
        }
    }
}

/// What was discovered of a board.
pub struct PlatformState {
    discovered: bool,
    gic_distributor: u64,
    gic_cpu_interface: u64,
    system_timer: u64,
    pcie_controller: u64,
    timer_interrupt: u32,
    psci: PsciConduit,
    cpu_count: usize,
    cpus: [CpuBootInfo; 8],
}

impl View for PlatformState {
    type V = PlatformView;

    closed spec fn view(&self) -> PlatformView {
        PlatformView {
            discovered: self.discovered,
            gic_distributor: self.gic_distributor,
            gic_cpu_interface: self.gic_cpu_interface,
            system_timer: self.system_timer,
            pcie_controller: self.pcie_controller,
            timer_interrupt: self.timer_interrupt,
            psci: self.psci,
            cpu_count: self.cpu_count as int,
            cpus: self.cpus@,
        }
    }
}

impl PlatformState {
    #[verifier::type_invariant]
    spec fn counted(self) -> bool {
        self.cpu_count <= 8
    }

    /// Nothing was discovered.
    pub fn new() -> (state: Self)
        ensures
            state@.wf(),
            state@ == (PlatformView {
                discovered: false,
                gic_distributor: 0,
                gic_cpu_interface: 0,
                system_timer: 0,
                pcie_controller: 0,
                timer_interrupt: 30,
                psci: PsciConduit::Unknown,
                cpu_count: 0,
                cpus: Seq::new(8, |i: int| unknown_cpu()),
            }),
    {
        let nobody = CpuBootInfo {
            mpidr: u64::MAX,
            release_address: 0,
            spin_table: false,
            enabled: false,
        };
        let state = PlatformState {
            discovered: false,
            gic_distributor: 0,
            gic_cpu_interface: 0,
            system_timer: 0,
            pcie_controller: 0,
            timer_interrupt: 30,
            psci: PsciConduit::Unknown,
            cpu_count: 0,
            cpus: [nobody; 8],
        };
        assert(state@.cpus =~= Seq::new(8, |i: int| unknown_cpu()));
        state
    }

    pub fn configure(&mut self, discovery: &HardwareDiscovery)
        requires
            discovery.cpu_count <= 8,
        ensures
            final(self)@ == configured(old(self)@, *discovery),
    {
        proof {
            use_type_invariant(&*self);
        }
        if !discovery.valid {
            return;
        }
        if discovery.gic_distributor_base != 0 && discovery.gic_cpu_interface_base != 0 {
            self.gic_distributor = discovery.gic_distributor_base;
            self.gic_cpu_interface = discovery.gic_cpu_interface_base;
        }
        if discovery.system_timer_base != 0 {
            self.system_timer = discovery.system_timer_base;
        }
        if discovery.pcie_controller_base != 0 {
            self.pcie_controller = discovery.pcie_controller_base;
        }
        self.timer_interrupt = discovery.physical_timer_interrupt;
        self.psci = discovery.psci_conduit;
        let count: usize = discovery.cpu_count;
        let mut cpus = self.cpus;
        let mut index: usize = 0;
        while index < count
            invariant
                index <= count <= 8,
                count == discovery.cpu_count,
                forall|i: int|
                    0 <= i < 8 ==> #[trigger] cpus@[i] == (if i < index {
                        kept_cpu(old(self).cpus@[i], discovery.cpus@[i])
                    } else {
                        old(self).cpus@[i]
                    }),
            decreases count - index,
        {
            let cpu = discovery.cpus[index];
            if cpu.enabled {
                cpus[index] = cpu;
            }
            index += 1;
        }
        self.cpus = cpus;
        self.cpu_count = count;
        self.discovered = true;
        assert(self@.cpus =~= configured(old(self)@, *discovery).cpus);
    }

    pub fn gic_distributor_base(&self, board: &Board) -> (address: u64)
        ensures
            address == (if self@.gic_distributor == 0 {
                board.gic_distributor_base
            } else {
                self@.gic_distributor
            }),
    {
        if self.gic_distributor == 0 {
            board.gic_distributor_base
        } else {
            self.gic_distributor
        }
    }

    pub fn gic_cpu_interface_base(&self, board: &Board) -> (address: u64)
        ensures
            address == (if self@.gic_cpu_interface == 0 {
                board.gic_cpu_interface_base
            } else {
                self@.gic_cpu_interface
            }),
    {
        if self.gic_cpu_interface == 0 {
            board.gic_cpu_interface_base
        } else {
            self.gic_cpu_interface
        }
    }

    pub fn system_timer_base(&self, board: &Board) -> (address: Option<u64>)
        ensures
            address == (if self@.system_timer == 0 {
                board.system_timer_base
            } else {
                Some(self@.system_timer)
            }),
    {
        if self.system_timer == 0 {
            board.system_timer_base
        } else {
            Some(self.system_timer)
        }
    }

    pub fn timer_interrupt(&self) -> (interrupt: u32)
        ensures
            interrupt == self@.timer_interrupt,
    {
        self.timer_interrupt
    }

    /// The number of the interrupt of the timer.
    pub fn interrupt_id(&self) -> (interrupt: u32)
        ensures
            interrupt == self@.timer_interrupt,
    {
        self.timer_interrupt
    }

    pub fn pcie_controller_base(&self) -> (address: Option<u64>)
        ensures
            address == (if self@.pcie_controller == 0 {
                None
            } else {
                Some(self@.pcie_controller)
            }),
    {
        if self.pcie_controller == 0 {
            None
        } else {
            Some(self.pcie_controller)
        }
    }

    pub fn cpu_count(&self) -> (count: usize)
        ensures
            count == self@.cpu_count,
    {
        self.cpu_count
    }

    pub fn discovered(&self) -> (discovered: bool)
        ensures
            discovered == self@.discovered,
    {
        self.discovered
    }

    fn cpu_info(&self, logical_id: usize) -> (cpu: CpuBootInfo)
        ensures
            cpu == cpu_from(self@.cpus, self@.cpu_count, logical_id as int, 0),
    {
        proof {
            use_type_invariant(self);
        }
        let mut index: usize = 0;
        while index < self.cpu_count
            invariant
                index <= self.cpu_count <= 8,
                cpu_from(self@.cpus, self@.cpu_count, logical_id as int, index as int) == cpu_from(
                    self@.cpus,
                    self@.cpu_count,
                    logical_id as int,
                    0,
                ),
            decreases self.cpu_count - index,
        {
            let cpu = self.cpus[index];
            if cpu.mpidr % 256 == logical_id as u64 {
                return CpuBootInfo {
                    mpidr: cpu.mpidr,
                    release_address: cpu.release_address,
                    spin_table: cpu.spin_table,
                    enabled: true,
                };
            }
            index += 1;
        }
        CpuBootInfo { mpidr: u64::MAX, release_address: 0, spin_table: false, enabled: false }
    }

    /// How a processor is started on a board.
    pub fn start_cpu(&self, board: &Board, logical_id: usize) -> (start: CpuStart)
        ensures
            start == self@.start_of(*board, logical_id),
    {
        let cpu = self.cpu_info(logical_id);
        if cpu.spin_table && cpu.release_address != 0 {
            return CpuStart::SpinTable { address: cpu.release_address };
        }
        let target: u64 = if cpu.mpidr == u64::MAX {
            logical_id as u64
        } else {
            cpu.mpidr
        };
        let hvc = self.psci == PsciConduit::Hvc || (self.psci == PsciConduit::Unknown
            && board.default_psci_hvc);
        CpuStart::Firmware { target, hvc }
    }
}

} // verus!
