//! What the machine is found to be: the processors are asked for signs of life, and waited
//! for a while.
use crate::arch::aarch64;
use crate::arch::aarch64::gic::GicState;
use crate::arch::aarch64::rp1::Rp1Info;
use crate::arch::aarch64::timer::Timer;
use vstd::prelude::*;

verus! {

/// How long each wait may take.
pub const PATIENCE_NS: u64 = 50_000_000;

#[derive(Clone, Copy, Debug, PartialEq, Eq, Structural)]
pub struct Aarch64HardwareInfo {
    pub mmu: bool,
    pub gic_interrupt_lines: usize,
    pub timer: bool,
    pub timer_ticks: u64,
    pub cpus_online: usize,
    pub irq_lock: bool,
    pub timer_control: u64,
    pub timer_irq_enabled: bool,
    pub irq_masked: bool,
    pub gic_state: GicState,
    pub tlb_ipi: bool,
    pub per_cpu_timer: bool,
    pub rp1: Rp1Info,
}

/// What can be read of the machine at a moment.
#[derive(Clone, Copy, Debug)]
pub struct Readings {
    pub now_ns: u64,
    pub timer: Timer,
    pub cpus_online: usize,
    pub tlb_ipis: usize,
}

/// What the search waits for, since when, and how many interrupts there had been.
#[derive(Clone, Copy, Debug, PartialEq, Eq, Structural)]
pub enum Wait {
    FirstTick { since: u64 },
    /// Interrupts are to be sent to the other processors, if there are any.
    SendIpi { previous: usize },
    Ipis { since: u64, previous: usize },
    CpuTicks { since: u64, previous: usize },
    Nothing { previous: usize },
}

/// Whether there is patience left.
pub open spec fn patient(since: u64, now: u64) -> bool {
    now - since < PATIENCE_NS
}

/// Whether all the other processors have answered.
pub open spec fn answered(readings: Readings, previous: usize) -> bool {
    readings.cpus_online <= 1 || (if readings.tlb_ipis >= previous {
        readings.tlb_ipis - previous
    } else {
        0
    }) >= readings.cpus_online - 1
}

/// Whether the timers of the first processors that run have ticked.
pub open spec fn all_tick(readings: Readings) -> bool {
    forall|cpu: int|
        0 <= cpu < readings.cpus_online && cpu < 4 ==> #[trigger] readings.timer.per_cpu@[cpu] != 0
}

/// What the search waits for after a look at the machine.
pub open spec fn waited(wait: Wait, readings: Readings) -> Wait {
    match wait {
        Wait::FirstTick { since } => if readings.timer.ticks == 0 && patient(
            since,
            readings.now_ns,
        ) {
            wait
        } else {
            Wait::SendIpi { previous: readings.tlb_ipis }
        },
        Wait::SendIpi { previous } => Wait::Ipis { since: readings.now_ns, previous },
        Wait::Ipis { since, previous } => if !answered(readings, previous) && patient(
            since,
            readings.now_ns,
        ) {
            wait
        } else {
            Wait::CpuTicks { since: readings.now_ns, previous }
        },
        Wait::CpuTicks { since, previous } => if !all_tick(readings) && patient(
            since,
            readings.now_ns,
        ) {
            wait
        } else {
            Wait::Nothing { previous }
        },
        Wait::Nothing { previous } => wait,
    }
}

fn has_patience(since: u64, now: u64) -> (patience: bool)
    ensures
        patience == patient(since, now),
{
    now < since || now - since < PATIENCE_NS
}

fn have_answered(readings: &Readings, previous: usize) -> (done: bool)
    ensures
        done == answered(*readings, previous),
{
    aarch64::tlb_ipi_answered(readings.cpus_online, previous, readings.tlb_ipis)
}

fn do_tick(readings: &Readings) -> (all: bool)
    ensures
        all == all_tick(*readings),
{
    readings.timer.all_ticked(readings.cpus_online)
}

/// Looks at the machine, and says what the search waits for then.
pub fn hardware_step(wait: Wait, readings: &Readings) -> (next: Wait)
    ensures
        next == waited(wait, *readings),
{
    match wait {
        Wait::FirstTick { since } => {
            if readings.timer.ticks == 0 && has_patience(since, readings.now_ns) {
                wait
            } else {
                Wait::SendIpi { previous: readings.tlb_ipis }
            }
        },
        Wait::SendIpi { previous } => Wait::Ipis { since: readings.now_ns, previous },
        Wait::Ipis { since, previous } => {
            if !have_answered(readings, previous) && has_patience(since, readings.now_ns) {
                wait
            } else {
                Wait::CpuTicks { since: readings.now_ns, previous }
            }
        },
        Wait::CpuTicks { since, previous } => {
            if !do_tick(readings) && has_patience(since, readings.now_ns) {
                wait
            } else {
                Wait::Nothing { previous }
            }
        },
        Wait::Nothing { previous } => wait,
    }
}

/// How long the other processors have to come in by themselves.
pub const SECONDARY_PATIENCE_NS: u64 = 100_000_000;

/// Whether the other processors, which enter the kernel by themselves, are still waited for.
pub fn await_secondaries(enter_image: bool, online: usize, since: u64, now: u64) -> (wait: bool)
    ensures
        wait == (enter_image && online < 4 && now - since < SECONDARY_PATIENCE_NS),
{
    enter_image && online < 4 && (now < since || now - since < SECONDARY_PATIENCE_NS)
}

/// What the registers of a machine say.
#[derive(Clone, Copy, Debug, PartialEq, Eq, Structural)]
pub struct Registers {
    pub system_control: u64,
    pub interrupt_mask: u64,
    pub gic_interrupt_lines: usize,
    pub timer: bool,
    pub timer_control: u64,
    pub timer_irq_enabled: bool,
    pub irq_lock: bool,
    pub gic_state: GicState,
    pub rp1: Rp1Info,
}

/// What the machine is, by its registers and the last look at it.
pub fn hardware_info(registers: Registers, readings: &Readings, previous: usize) -> (info:
    Aarch64HardwareInfo)
    ensures
        info == (Aarch64HardwareInfo {
            mmu: registers.system_control & 1 != 0,
            gic_interrupt_lines: registers.gic_interrupt_lines,
            timer: registers.timer,
            timer_ticks: readings.timer.ticks,
            cpus_online: readings.cpus_online,
            irq_lock: registers.irq_lock,
            timer_control: registers.timer_control,
            timer_irq_enabled: registers.timer_irq_enabled,
            irq_masked: registers.interrupt_mask & 0x80 != 0,
            gic_state: registers.gic_state,
            tlb_ipi: answered(*readings, previous),
            per_cpu_timer: all_tick(*readings),
            rp1: registers.rp1,
        }),
{
    Aarch64HardwareInfo {
        mmu: registers.system_control & 1 != 0,
        gic_interrupt_lines: registers.gic_interrupt_lines,
        timer: registers.timer,
        timer_ticks: readings.timer.ticks,
        cpus_online: readings.cpus_online,
        irq_lock: registers.irq_lock,
        timer_control: registers.timer_control,
        timer_irq_enabled: registers.timer_irq_enabled,
        irq_masked: registers.interrupt_mask & 0x80 != 0,
        gic_state: registers.gic_state,
        tlb_ipi: have_answered(readings, previous),
        per_cpu_timer: do_tick(readings),
        rp1: registers.rp1,
    }
}

/// How many stages a search still has.
pub open spec fn stages_left(wait: Wait) -> int {
    match wait {
        Wait::FirstTick { since } => 4,
        Wait::SendIpi { previous } => 3,
        Wait::Ipis { since, previous } => 2,
        Wait::CpuTicks { since, previous } => 1,
        Wait::Nothing { previous } => 0,
    }
}

/// A search never goes back, and goes on once its patience is at an end.
pub proof fn law_searches_come_to_an_end(wait: Wait, readings: Readings)
    ensures
        stages_left(waited(wait, readings)) <= stages_left(wait),
        wait matches Wait::FirstTick { since } && !patient(since, readings.now_ns) ==> stages_left(
            waited(wait, readings),
        ) < 4,
        wait is SendIpi ==> stages_left(waited(wait, readings)) < 3,
        wait matches Wait::Ipis { since, previous } && !patient(since, readings.now_ns)
            ==> stages_left(waited(wait, readings)) < 2,
        wait matches Wait::CpuTicks { since, previous } && !patient(since, readings.now_ns)
            ==> stages_left(waited(wait, readings)) < 1,
{
}

} // verus!
