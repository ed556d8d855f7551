//! The second part of the start: what the tables of the firmware, the interrupts, the clock
//! and the other processors turn out to be.
use crate::mm::frame;
use crate::mm::frame::{FrameView, NumaRange, PhysicalFrames};
use vstd::prelude::*;

verus! {

/// How often the ticks of the timer are looked at before it is given up.
pub const TIMER_LOOKS: usize = 20_000_000;

#[derive(Clone, Copy, Debug)]
pub struct HardwareSummary {
    pub acpi_revision: u8,
    pub acpi_xsdt: bool,
    pub idt: bool,
    pub syscall: bool,
    pub exception_guard: bool,
    pub local_apic: bool,
    pub ioapic: bool,
    pub apic_id: u8,
    pub ioapic_redirections: u8,
    pub clock_source: &'static str,
    pub invariant_tsc: bool,
    pub tsc_hz: u64,
    pub hpet_hz: u64,
    pub apic_timer_hz: u64,
    pub timer_hz: u32,
    pub timer_irq: bool,
    pub cpus_discovered: usize,
    pub cpus_attempted: usize,
    pub cpus_online: usize,
    pub per_cpu: bool,
    pub irq_lock: bool,
}

/// What the tables of the firmware say.
#[derive(Clone, Copy, Debug, PartialEq, Eq, Structural)]
pub struct AcpiFindings {
    pub revision: u8,
    pub used_xsdt: bool,
}

/// What became of the interrupts.
#[derive(Clone, Copy, Debug, PartialEq, Eq, Structural)]
pub struct InterruptFindings {
    pub idt: bool,
    pub syscall: bool,
    pub exception_guard: bool,
    pub local_apic: bool,
    pub ioapic: bool,
    pub apic_id: u8,
    pub ioapic_redirections: u8,
}

/// What became of the clock.
#[derive(Clone, Copy, Debug)]
pub struct ClockFindings {
    pub source: &'static str,
    pub invariant_tsc: bool,
    pub tsc_hz: u64,
    pub hpet_hz: u64,
    pub apic_hz: u64,
    pub timer_hz: u32,
}

/// What became of the other processors.
#[derive(Clone, Copy, Debug, PartialEq, Eq, Structural)]
pub struct SmpFindings {
    pub discovered: usize,
    pub attempted: usize,
    pub online: usize,
    pub per_cpu: bool,
}

/// Hands what the firmware says of memory nodes to the frames; where it says nothing, or
/// nothing that fits, they stay as they are.
pub fn adopt_topology(frames: &mut PhysicalFrames, ranges: &[NumaRange])
    requires
        old(frames).wf(),
    ensures
        final(frames).wf(),
        final(frames).cpu_nodes() == old(frames).cpu_nodes(),
        final(frames).view() == (match frame::accepted_nodes(old(frames).view(), ranges@) {
            Some(nodes) => if ranges@.len() != 0 {
                FrameView {
                    nodes,
                    local_allocations: 0,
                    fallback_allocations: 0,
                    ..old(frames).view()
                }
            } else {
                old(frames).view()
            },
            None => old(frames).view(),
        }),
{
    if ranges.len() != 0 {
        let _ = frame::configure_topology(frames, ranges);
    }
}

/// What the machine turns out to be.
pub fn initialize_runtime(
    acpi: AcpiFindings,
    interrupt: InterruptFindings,
    clock: ClockFindings,
    smp: SmpFindings,
    timer_irq: bool,
    irq_lock: bool,
) -> (summary: HardwareSummary)
    ensures
        summary == (HardwareSummary {
            acpi_revision: acpi.revision,
            acpi_xsdt: acpi.used_xsdt,
            idt: interrupt.idt,
            syscall: interrupt.syscall,
            exception_guard: interrupt.exception_guard,
            local_apic: interrupt.local_apic,
            ioapic: interrupt.ioapic,
            apic_id: interrupt.apic_id,
            ioapic_redirections: interrupt.ioapic_redirections,
            clock_source: clock.source,
            invariant_tsc: clock.invariant_tsc,
            tsc_hz: clock.tsc_hz,
            hpet_hz: clock.hpet_hz,
            apic_timer_hz: clock.apic_hz,
            timer_hz: clock.timer_hz,
            timer_irq,
            cpus_discovered: smp.discovered,
            cpus_attempted: smp.attempted,
            cpus_online: smp.online,
            per_cpu: smp.per_cpu,
            irq_lock,
        }),
{
    HardwareSummary {
        acpi_revision: acpi.revision,
        acpi_xsdt: acpi.used_xsdt,
        idt: interrupt.idt,
        syscall: interrupt.syscall,
        exception_guard: interrupt.exception_guard,
        local_apic: interrupt.local_apic,
        ioapic: interrupt.ioapic,
        apic_id: interrupt.apic_id,
        ioapic_redirections: interrupt.ioapic_redirections,
        clock_source: clock.source,
        invariant_tsc: clock.invariant_tsc,
        tsc_hz: clock.tsc_hz,
        hpet_hz: clock.hpet_hz,
        apic_timer_hz: clock.apic_hz,
        timer_hz: clock.timer_hz,
        timer_irq,
        cpus_discovered: smp.discovered,
        cpus_attempted: smp.attempted,
        cpus_online: smp.online,
        per_cpu: smp.per_cpu,
        irq_lock,
    }
}

} // verus!
