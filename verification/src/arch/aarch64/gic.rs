//! The interrupt controller: the writes that set it up, and what its registers say.
use vstd::prelude::*;

verus! {

pub const SPURIOUS_INTERRUPT: u32 = 1023;

pub const GROUP1_PENDING: u32 = 1022;

/// The bit that says that an interrupt was acknowledged by the second register.
pub const ALIAS_ACKNOWLEDGE: u32 = 0x8000_0000;

#[derive(Clone, Copy, Debug, PartialEq, Eq, Structural)]
pub struct GicInfo {
    pub interrupt_lines: usize,
}

#[derive(Clone, Copy, Debug, PartialEq, Eq, Structural)]
pub struct GicState {
    pub distributor_control: u32,
    pub cpu_control: u32,
    pub group: u32,
    pub pending: u32,
    pub highest_pending: u32,
}

/// What is to be done to the controller.
#[derive(Clone, Copy, Debug, PartialEq, Eq, Structural)]
pub enum GicStep {
    Distributor { offset: usize, value: u32 },
    CpuInterface { offset: usize, value: u32 },
    /// What was written must be seen before anything else is done.
    Barrier,
}

/// How many interrupts the controller has.
pub open spec fn lines_of(type_register: u32) -> int {
    let lines = (type_register % 32 + 1) * 32;
    if lines < 1020 {
        lines
    } else {
        1020
    }
}

/// The value that puts 32 interrupts into a group.
pub open spec fn group_value(group1: bool) -> u32 {
    if group1 {
        0xffff_ffff
    } else {
        0
    }
}

/// The value that switches the controller on.
pub open spec fn on_value(group1: bool) -> u32 {
    if group1 {
        3
    } else {
        1
    }
}

/// The first `count` blocks of 32 interrupts switched off, cleared and put into a group.
pub open spec fn clearing(group1: bool, count: nat) -> Seq<GicStep>
    decreases count,
{
    if count == 0 {
        Seq::empty()
    } else {
        let offset = (count - 1) * 4;
        clearing(group1, (count - 1) as nat).push(
            GicStep::Distributor { offset: (0x180 + offset) as usize, value: 0xffff_ffff },
        ).push(
            GicStep::Distributor { offset: (0x280 + offset) as usize, value: 0xffff_ffff },
        ).push(
            GicStep::Distributor {
                offset: (0x080 + offset) as usize,
                value: group_value(group1),
            },
        )
    }
}

/// The first `count` blocks of four interrupts with their priorities, and sent to the first
/// processor where they can be.
pub open spec fn ordering(count: nat) -> Seq<GicStep>
    decreases count,
{
    if count == 0 {
        Seq::empty()
    } else {
        let interrupt = (count - 1) * 4;
        let first = ordering((count - 1) as nat).push(
            GicStep::Distributor { offset: (0x400 + interrupt) as usize, value: 0xa0a0_a0a0 },
        );
        if interrupt >= 32 {
            first.push(
                GicStep::Distributor {
                    offset: (0x800 + interrupt) as usize,
                    value: 0x0101_0101,
                },
            )
        } else {
            first
        }
    }
}

/// The first `count` blocks of sixteen interrupts behind the first 32 set to levels.
pub open spec fn leveling(count: nat) -> Seq<GicStep>
    decreases count,
{
    if count == 0 {
        Seq::empty()
    } else {
        leveling((count - 1) as nat).push(
            GicStep::Distributor { offset: (0xc00 + 8 + (count - 1) * 4) as usize, value: 0 },
        )
    }
}

/// The interface of one processor switched on.
pub open spec fn interface_steps(group1: bool) -> Seq<GicStep> {
    seq![
        GicStep::CpuInterface { offset: 0, value: 0 },
        GicStep::CpuInterface { offset: 4, value: 0xff },
        GicStep::CpuInterface { offset: 8, value: 0 },
        GicStep::CpuInterface { offset: 0, value: on_value(group1) },
        GicStep::Barrier,
    ]
}

/// How many blocks of a size so many interrupts take.
pub open spec fn blocks(lines: int, size: int) -> nat {
    ((lines + size - 1) / size) as nat
}

/// The controller switched on.
pub open spec fn primary_steps(type_register: u32, group1: bool) -> Seq<GicStep> {
    let lines = lines_of(type_register);
    seq![GicStep::Distributor { offset: 0, value: 0 }] + clearing(group1, blocks(lines, 32))
        + ordering(blocks(lines, 4)) + leveling(blocks(lines - 32, 16)) + seq![
        GicStep::Distributor { offset: 0, value: on_value(group1) },
        GicStep::Barrier,
    ] + interface_steps(group1)
}

fn group_word(group1: bool) -> (value: u32)
    ensures
        value == group_value(group1),
{
    if group1 {
        0xffff_ffff
    } else {
        0
    }
}

fn on_word(group1: bool) -> (value: u32)
    ensures
        value == on_value(group1),
{
    if group1 {
        3
    } else {
        1
    }
}

fn add_interface(steps: &mut Vec<GicStep>, group1: bool)
    ensures
        final(steps)@ == old(steps)@ + interface_steps(group1),
{
    steps.push(GicStep::CpuInterface { offset: 0, value: 0 });
    steps.push(GicStep::CpuInterface { offset: 4, value: 0xff });
    steps.push(GicStep::CpuInterface { offset: 8, value: 0 });
    steps.push(GicStep::CpuInterface { offset: 0, value: on_word(group1) });
    steps.push(GicStep::Barrier);
    assert(steps@ =~= old(steps)@ + interface_steps(group1));
}

fn add_clearing(steps: &mut Vec<GicStep>, group1: bool, count: usize)
    requires
        count <= 32,
    ensures
        final(steps)@ == old(steps)@ + clearing(group1, count as nat),
{
    let mut index: usize = 0;
    assert(steps@ =~= old(steps)@ + clearing(group1, 0));
    while index < count
        invariant
            index <= count <= 32,
            steps@ == old(steps)@ + clearing(group1, index as nat),
        decreases count - index,
    {
        let offset: usize = index * 4;
        steps.push(GicStep::Distributor { offset: 0x180 + offset, value: 0xffff_ffff });
        steps.push(GicStep::Distributor { offset: 0x280 + offset, value: 0xffff_ffff });
        steps.push(GicStep::Distributor { offset: 0x080 + offset, value: group_word(group1) });
        index += 1;
        assert(steps@ =~= old(steps)@ + clearing(group1, index as nat));
    }
}

fn add_ordering(steps: &mut Vec<GicStep>, count: usize)
    requires
        count <= 255,
    ensures
        final(steps)@ == old(steps)@ + ordering(count as nat),
{
    let mut index: usize = 0;
    assert(steps@ =~= old(steps)@ + ordering(0));
    while index < count
        invariant
            index <= count <= 255,
            steps@ == old(steps)@ + ordering(index as nat),
        decreases count - index,
    {
        let interrupt: usize = index * 4;
        steps.push(GicStep::Distributor { offset: 0x400 + interrupt, value: 0xa0a0_a0a0 });
        if interrupt >= 32 {
            steps.push(GicStep::Distributor { offset: 0x800 + interrupt, value: 0x0101_0101 });
        }
        index += 1;
        assert(steps@ =~= old(steps)@ + ordering(index as nat));
    }
}

fn add_leveling(steps: &mut Vec<GicStep>, count: usize)
    requires
        count <= 64,
    ensures
        final(steps)@ == old(steps)@ + leveling(count as nat),
{
    let mut index: usize = 0;
    assert(steps@ =~= old(steps)@ + leveling(0));
    while index < count
        invariant
            index <= count <= 64,
            steps@ == old(steps)@ + leveling(index as nat),
        decreases count - index,
    {
        steps.push(GicStep::Distributor { offset: 0xc08 + index * 4, value: 0 });
        index += 1;
        assert(steps@ =~= old(steps)@ + leveling(index as nat));
    }
}

/// What switches the controller on, by what its type register says.
pub fn init_primary(type_register: u32, group1: bool) -> (result: (GicInfo, Vec<GicStep>))
    ensures
        result.0.interrupt_lines == lines_of(type_register),
        result.1@ == primary_steps(type_register, group1),
{
    let all: usize = ((type_register % 32 + 1) * 32) as usize;
    let lines: usize = if all < 1020 {
        all
    } else {
        1020
    };
    let mut steps: Vec<GicStep> = Vec::new();
    steps.push(GicStep::Distributor { offset: 0, value: 0 });
    assert(steps@ =~= seq![GicStep::Distributor { offset: 0, value: 0 }]);
    add_clearing(&mut steps, group1, (lines + 31) / 32);
    add_ordering(&mut steps, (lines + 3) / 4);
    add_leveling(&mut steps, (lines - 32 + 15) / 16);
    let ghost before = steps@;
    steps.push(GicStep::Distributor { offset: 0, value: on_word(group1) });
    steps.push(GicStep::Barrier);
    assert(steps@ =~= before + seq![
        GicStep::Distributor { offset: 0, value: on_value(group1) },
        GicStep::Barrier,
    ]);
    add_interface(&mut steps, group1);
    (GicInfo { interrupt_lines: lines }, steps)
}

/// What switches the controller on for another processor.
pub fn init_secondary(group1: bool) -> (steps: Vec<GicStep>)
    ensures
        steps@ == seq![GicStep::Distributor { offset: 0x080, value: group_value(group1) }]
            + interface_steps(group1),
{
    let mut steps: Vec<GicStep> = Vec::new();
    steps.push(GicStep::Distributor { offset: 0x080, value: group_word(group1) });
    assert(steps@ =~= seq![GicStep::Distributor { offset: 0x080, value: group_value(group1) }]);
    add_interface(&mut steps, group1);
    steps
}

/// What switches an interrupt on.
pub fn enable_interrupt(interrupt: u32) -> (steps: Vec<GicStep>)
    ensures
        steps@ == seq![
            GicStep::Distributor {
                offset: (0x100 + interrupt / 32 * 4) as usize,
                value: 1u32 << (interrupt % 32),
            },
            GicStep::Barrier,
        ],
{
    let steps = vec![
        GicStep::Distributor {
            offset: 0x100 + (interrupt / 32 * 4) as usize,
            value: 1u32 << (interrupt % 32),
        },
        GicStep::Barrier,
    ];
    assert(steps@ =~= seq![
        GicStep::Distributor {
            offset: (0x100 + interrupt / 32 * 4) as usize,
            value: 1u32 << (interrupt % 32),
        },
        GicStep::Barrier,
    ]);
    steps
}

/// Whether an interrupt is on, by its register.
pub fn interrupt_enabled(interrupt: u32, register: u32) -> (enabled: bool)
    ensures
        enabled == (register & (1u32 << (interrupt % 32)) != 0),
{
    register & (1u32 << (interrupt % 32)) != 0
}

pub fn state(
    distributor_control: u32,
    cpu_control: u32,
    group: u32,
    pending: u32,
    highest_pending: u32,
) -> (state: GicState)
    ensures
        state == (GicState {
            distributor_control,
            cpu_control,
            group,
            pending,
            highest_pending,
        }),
{
    GicState { distributor_control, cpu_control, group, pending, highest_pending }
}

/// Whether the second register of the controller says which interrupt came in.
pub fn needs_alias(value: u32) -> (needs: bool)
    ensures
        needs == (value % 1024 == GROUP1_PENDING),
{
    value % 1024 == GROUP1_PENDING
}

/// The interrupt that came in, by the first register and, where that says so, by the
/// second.
pub open spec fn acknowledged(value: u32, alias: u32) -> Option<u32> {
    let taken = if value % 1024 == GROUP1_PENDING {
        alias | ALIAS_ACKNOWLEDGE
    } else {
        value
    };
    if taken % 1024 == SPURIOUS_INTERRUPT {
        None
    } else {
        Some(taken)
    }
}

pub fn acknowledge(value: u32, alias: u32) -> (interrupt: Option<u32>)
    ensures
        interrupt == acknowledged(value, alias),
{
    let taken: u32 = if value % 1024 == GROUP1_PENDING {
        alias | ALIAS_ACKNOWLEDGE
    } else {
        value
    };
    if taken % 1024 == SPURIOUS_INTERRUPT {
        None
    } else {
        Some(taken)
    }
}

/// The end of an interrupt goes to the register that acknowledged it.
pub fn end_interrupt(acknowledge: u32) -> (step: GicStep)
    ensures
        step == (if acknowledge & ALIAS_ACKNOWLEDGE != 0 {
            GicStep::CpuInterface { offset: 0x24, value: acknowledge & !ALIAS_ACKNOWLEDGE }
        } else {
            GicStep::CpuInterface { offset: 0x10, value: acknowledge }
        }),
{
    if acknowledge & ALIAS_ACKNOWLEDGE != 0 {
        GicStep::CpuInterface { offset: 0x24, value: acknowledge & !ALIAS_ACKNOWLEDGE }
    } else {
        GicStep::CpuInterface { offset: 0x10, value: acknowledge }
    }
}

/// What sends an interrupt to all other processors; only the first sixteen can be sent.
pub fn send_sgi_all_others(interrupt: u32) -> (steps: Vec<GicStep>)
    ensures
        steps@ == (if interrupt < 16 {
            seq![
                GicStep::Distributor { offset: 0xf00, value: 0x100_0000 | interrupt },
                GicStep::Barrier,
            ]
        } else {
            Seq::<GicStep>::empty()
        }),
{
    let mut steps: Vec<GicStep> = Vec::new();
    if interrupt < 16 {
        steps.push(GicStep::Distributor { offset: 0xf00, value: 0x100_0000 | interrupt });
        steps.push(GicStep::Barrier);
        assert(steps@ =~= seq![
            GicStep::Distributor { offset: 0xf00, value: 0x100_0000 | interrupt },
            GicStep::Barrier,
        ]);
    }
    steps
}

/// An interrupt that was acknowledged by the second register ends there, and the number
/// that is written is the one that was read.
pub proof fn law_alias_interrupts_end_there(value: u32, alias: u32)
    requires
        value % 1024 == GROUP1_PENDING,
        alias < ALIAS_ACKNOWLEDGE,
        acknowledged(value, alias) is Some,
    ensures
        acknowledged(value, alias)->Some_0 & ALIAS_ACKNOWLEDGE != 0,
        acknowledged(value, alias)->Some_0 & !ALIAS_ACKNOWLEDGE == alias,
{
    assert((alias | 0x8000_0000u32) & 0x8000_0000u32 != 0) by (bit_vector);
    assert(alias < 0x8000_0000u32 ==> (alias | 0x8000_0000u32) & !0x8000_0000u32 == alias)
        by (bit_vector);
}

} // verus!
