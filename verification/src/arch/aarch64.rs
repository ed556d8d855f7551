//! Machines with an Arm processor: the boards, the serial console, the clock, and the
//! start of the processors.
use crate::arch::ClockTime;
use crate::boot::device_tree::HardwareDiscovery;
use crate::fixed::InlineString;
use crate::linux::syscall;
use vstd::prelude::*;
use vstd::string::*;

pub mod gic;
pub mod hardware;
pub mod platform;
pub mod rp1;
pub mod timer;

verus! {

pub const MAX_CPUS: usize = 4;

pub const TLB_SHOOTDOWN_IPI: u32 = 1;

/// A board: where its devices lie, and how it starts.
#[derive(Clone, Copy, Debug, PartialEq, Eq, Structural)]
pub struct Board {
    pub uart_base: u64,
    pub uart_requires_init: bool,
    pub uart_ibrd: u32,
    pub uart_fbrd: u32,
    pub gic_distributor_base: u64,
    pub gic_cpu_interface_base: u64,
    pub gic_use_group1: bool,
    pub system_timer_base: Option<u64>,
    pub secondaries_enter_image: bool,
    pub default_psci_hvc: bool,
}

/// The virtual board of the emulator.
pub fn qemu_virt() -> (board: Board)
    ensures
        board == (Board {
            uart_base: 0x0900_0000,
            uart_requires_init: true,
            uart_ibrd: 13,
            uart_fbrd: 1,
            gic_distributor_base: 0x0800_0000,
            gic_cpu_interface_base: 0x0801_0000,
            gic_use_group1: false,
            system_timer_base: None,
            secondaries_enter_image: false,
            default_psci_hvc: true,
        }),
{
    Board {
        uart_base: 0x0900_0000,
        uart_requires_init: true,
        uart_ibrd: 13,
        uart_fbrd: 1,
        gic_distributor_base: 0x0800_0000,
        gic_cpu_interface_base: 0x0801_0000,
        gic_use_group1: false,
        system_timer_base: None,
        secondaries_enter_image: false,
        default_psci_hvc: true,
    }
}

/// The Raspberry Pi 5.
pub fn rpi5() -> (board: Board)
    ensures
        board == (Board {
            uart_base: 0x10_7d00_1000,
            uart_requires_init: false,
            uart_ibrd: 0,
            uart_fbrd: 0,
            gic_distributor_base: 0x10_7fff_9000,
            gic_cpu_interface_base: 0x10_7fff_a000,
            gic_use_group1: true,
            system_timer_base: Some(0x10_7d00_3000),
            secondaries_enter_image: true,
            default_psci_hvc: false,
        }),
{
    Board {
        uart_base: 0x10_7d00_1000,
        uart_requires_init: false,
        uart_ibrd: 0,
        uart_fbrd: 0,
        gic_distributor_base: 0x10_7fff_9000,
        gic_cpu_interface_base: 0x10_7fff_a000,
        gic_use_group1: true,
        system_timer_base: Some(0x10_7d00_3000),
        secondaries_enter_image: true,
        default_psci_hvc: false,
    }
}

/// A number to be written to a register of a device.
#[derive(Clone, Copy, Debug, PartialEq, Eq, Structural)]
pub struct RegisterWrite {
    pub address: u64,
    pub value: u32,
}

/// The writes that set up the serial line.
pub open spec fn uart_writes(board: Board) -> Seq<RegisterWrite> {
    if !board.uart_requires_init {
        Seq::empty()
    } else {
        let base = board.uart_base;
        seq![
            RegisterWrite { address: (base + 0x30) as u64, value: 0 },
            RegisterWrite { address: (base + 0x44) as u64, value: 0x7ff },
            RegisterWrite { address: (base + 0x24) as u64, value: board.uart_ibrd },
            RegisterWrite { address: (base + 0x28) as u64, value: board.uart_fbrd },
            RegisterWrite { address: (base + 0x2c) as u64, value: 0x70 },
            RegisterWrite { address: (base + 0x30) as u64, value: 0x301 },
        ]
    }
}

/// The writes that set up the serial line.
pub fn init_uart(board: &Board) -> (writes: Vec<RegisterWrite>)
    requires
        board.uart_requires_init ==> board.uart_base + 0x44 <= u64::MAX,
    ensures
        writes@ == uart_writes(*board),
{
    if !board.uart_requires_init {
        let none: Vec<RegisterWrite> = Vec::new();
        assert(none@ =~= uart_writes(*board));
        return none;
    }
    let base: u64 = board.uart_base;
    let writes = vec![
        RegisterWrite { address: base + 0x30, value: 0 },
        RegisterWrite { address: base + 0x44, value: 0x7ff },
        RegisterWrite { address: base + 0x24, value: board.uart_ibrd },
        RegisterWrite { address: base + 0x28, value: board.uart_fbrd },
        RegisterWrite { address: base + 0x2c, value: 0x70 },
        RegisterWrite { address: base + 0x30, value: 0x301 },
    ];
    assert(writes@ =~= uart_writes(*board));
    writes
}

/// The first `count` bytes of a text as they go out on the serial line: a line break goes
/// out as a return and a line break.
pub open spec fn serial_bytes(text: Seq<u8>, count: nat) -> Seq<u8>
    decreases count,
{
    if count == 0 {
        Seq::empty()
    } else {
        let before = serial_bytes(text, (count - 1) as nat);
        if text[count - 1] == 10 {
            before.push(13).push(10)
        } else {
            before.push(text[count - 1])
        }
    }
}

/// The bytes of a text as they go out on the serial line.
pub fn console_write(text: &str) -> (bytes: Vec<u8>)
    ensures
        bytes@ == serial_bytes(text.spec_bytes(), text.spec_bytes().len()),
{
    let source = text.as_bytes();
    let mut bytes: Vec<u8> = Vec::new();
    let mut index: usize = 0;
    while index < source.len()
        invariant
            index <= source@.len(),
            source@ == text.spec_bytes(),
            bytes@ == serial_bytes(source@, index as nat),
        decreases source@.len() - index,
    {
        if source[index] == 10 {
            bytes.push(13);
        }
        bytes.push(source[index]);
        index += 1;
    }
    bytes
}

/// A byte that came in on the serial line: a return is a line break, and a rubout a
/// backspace.
pub fn console_read_byte(byte: u8) -> (shown: u8)
    ensures
        shown == (if byte == 13 {
            10
        } else if byte == 0x7f {
            8
        } else {
            byte
        }),
{
    if byte == 13 {
        10
    } else if byte == 0x7f {
        8
    } else {
        byte
    }
}

/// There is no screen.
pub fn graphics_mode_enabled() -> (enabled: bool)
    ensures
        !enabled,
{
    false
}

pub fn screen_width() -> (width: i32)
    ensures
        width == 0,
{
    0
}

pub fn screen_height() -> (height: i32)
    ensures
        height == 0,
{
    0
}

/// How wide a text would be. The width must fit in 32 bits.
pub fn text_width(text: &str, scale: i32) -> (width: i32)
    requires
        text@.len() * 6 * scale <= i32::MAX,
        text@.len() * 6 <= i32::MAX,
    ensures
        width == (if scale <= 0 {
            0
        } else {
            text@.len() * 6 * scale
        }),
{
    if scale <= 0 {
        return 0;
    }
    let count: i32 = text.unicode_len() as i32;
    assert(0 <= count * 6 * scale) by (nonlinear_arith)
        requires
            count >= 0,
            scale > 0,
    ;
    count * 6 * scale
}

pub fn gfx_console_rows() -> (rows: usize)
    ensures
        rows == 25,
{
    25
}

pub fn gfx_console_cols() -> (columns: usize)
    ensures
        columns == 80,
{
    80
}

/// The rows of a console that is not there are empty.
pub fn gfx_console_line<const N: usize>(row: usize, out: &mut InlineString<N>)
    ensures
        final(out)@ == Seq::<u8>::empty(),
{
    out.clear();
}

pub fn gfx_console_cursor() -> (cursor: (usize, usize))
    ensures
        cursor == (0usize, 0usize),
{
    (0, 0)
}

pub fn gfx_console_cell(row: usize, column: usize) -> (cell: u16)
    ensures
        cell == 0,
{
    0
}

/// There is no clock.
pub fn read_clock_time() -> (time: Option<ClockTime>)
    ensures
        time is None,
{
    None
}

pub fn port_in8(port: u16) -> (value: u8)
    ensures
        value == 0,
{
    0
}

pub fn port_in16(port: u16) -> (value: u16)
    ensures
        value == 0,
{
    0
}

pub fn port_in32(port: u16) -> (value: u32)
    ensures
        value == 0,
{
    0
}

/// A product that stops at the largest number.
pub open spec fn limited_product(first: int, second: int) -> int {
    if first * second > u64::MAX {
        u64::MAX as int
    } else {
        first * second
    }
}

/// A product that stops at the largest number.
fn limited(first: u64, second: u64) -> (product: u64)
    ensures
        product == limited_product(first as int, second as int),
{
    match first.checked_mul(second) {
        Some(product) => product,
        None => u64::MAX,
    }
}

/// The time that a counter of a frequency shows, in nanoseconds. Where the time does not
/// fit, it is the largest number.
pub open spec fn counter_time(counter: u64, frequency: u64) -> int {
    if frequency == 0 {
        0
    } else {
        let whole = limited_product(counter as int / frequency as int, 1_000_000_000);
        let rest = limited_product(counter as int % frequency as int, 1_000_000_000)
            / frequency as int;
        if whole + rest > u64::MAX {
            u64::MAX as int
        } else {
            whole + rest
        }
    }
}

/// The time: that of the timer of the system if there is one, else that of the counter of
/// the processor.
pub fn monotonic_time_ns(system: Option<u64>, counter: u64, frequency: u64) -> (time: u64)
    ensures
        time == (match system {
            Some(now) => now as int,
            None => counter_time(counter, frequency),
        }),
{
    if let Some(now) = system {
        return now;
    }
    if frequency == 0 {
        return 0;
    }
    let seconds: u64 = counter / frequency;
    let remainder: u64 = counter % frequency;
    let whole: u64 = limited(seconds, 1_000_000_000);
    let rest: u64 = limited(remainder, 1_000_000_000) / frequency;
    whole.saturating_add(rest)
}

/// The time of the timer of the system by the two halves of its counter, if the upper half
/// did not change while they were read.
pub fn counter_ns(high: u32, low: u32, high_again: u32) -> (time: Option<u64>)
    ensures
        time is Some <==> high == high_again,
        time matches Some(now) ==> now == limited_product(high * 0x1_0000_0000 + low, 1000),
{
    if high != high_again {
        return None;
    }
    let count: u64 = high as u64 * 0x1_0000_0000 + low as u64;
    Some(limited(count, 1000))
}

/// The processors that have started: a bit for each, and how many there are.
#[derive(Clone, Copy, Debug, PartialEq, Eq, Structural)]
pub struct OnlineCpus {
    pub mask: u32,
    pub count: usize,
}

/// The bit of a processor; those behind the last share its bit.
pub open spec fn cpu_bit(cpu: u64) -> u32 {
    if cpu % 0x1_0000_0000 == 0 {
        1
    } else if cpu % 0x1_0000_0000 == 1 {
        2
    } else if cpu % 0x1_0000_0000 == 2 {
        4
    } else {
        8
    }
}

impl OnlineCpus {
    /// Only the first processor has started.
    pub fn first() -> (online: Self)
        ensures
            online == (OnlineCpus { mask: 1, count: 1 }),
    {
        OnlineCpus { mask: 1, count: 1 }
    }

    /// A processor has started. It counts once.
    pub fn started(&mut self, cpu: u64)
        requires
            old(self).count < usize::MAX,
        ensures
            final(self).mask == old(self).mask | cpu_bit(cpu),
            final(self).count == (if old(self).mask & cpu_bit(cpu) == 0 {
                (old(self).count + 1) as usize
            } else {
                old(self).count
            }),
    {
        let number: u64 = cpu % 0x1_0000_0000;
        let bit: u32 = if number == 0 {
            1
        } else if number == 1 {
            2
        } else if number == 2 {
            4
        } else {
            8
        };
        if self.mask & bit == 0 {
            self.count = self.count + 1;
        }
        self.mask = self.mask | bit;
    }

    /// Whether a processor still has to be started.
    pub fn must_start(&self, cpu: u64) -> (start: bool)
        requires
            cpu < 4,
        ensures
            start == (cpu >= 1 && self.mask & cpu_bit(cpu) == 0),
    {
        let bit: u32 = if cpu == 1 {
            2
        } else if cpu == 2 {
            4
        } else {
            8
        };
        cpu >= 1 && self.mask & bit == 0
    }

    pub fn online_cpu_count(&self) -> (count: usize)
        ensures
            count == self.count,
    {
        self.count
    }
}

/// The number of the processor that its affinity register says.
pub fn current_cpu_id(affinity: u64) -> (cpu: u32)
    ensures
        cpu == affinity % 256,
{
    (affinity % 256) as u32
}

/// What an interrupt asks for.
#[derive(Clone, Copy, Debug, PartialEq, Eq, Structural)]
pub enum IrqAction {
    Timer,
    TlbShootdown,
    Other,
}

/// What an interrupt asks for.
pub fn irq_action(acknowledge: u32, timer_interrupt: u32) -> (action: IrqAction)
    ensures
        action == (if acknowledge % 1024 == timer_interrupt {
            IrqAction::Timer
        } else if acknowledge % 1024 == TLB_SHOOTDOWN_IPI {
            IrqAction::TlbShootdown
        } else {
            IrqAction::Other
        }),
{
    if acknowledge % 1024 == timer_interrupt {
        IrqAction::Timer
    } else if acknowledge % 1024 == TLB_SHOOTDOWN_IPI {
        IrqAction::TlbShootdown
    } else {
        IrqAction::Other
    }
}

/// What a system call leaves in the first register; nothing where the exception is no
/// system call.
pub fn svc_dispatch(syndrome: u64, registers: &[u64; 31]) -> (result: Option<u64>)
    ensures
        result is Some <==> syndrome as int / 0x400_0000 == 0x15,
        result matches Some(value) ==> value == syscall::encoded(
            crate::linux::errno::Result::<u64>::Err(crate::linux::errno::Errno::ENOSYS),
        ),
{
    if syndrome / 0x400_0000 != 0x15 {
        return None;
    }
    let arguments: [u64; 6] = [
        registers[0],
        registers[1],
        registers[2],
        registers[3],
        registers[4],
        registers[5],
    ];
    Some(syscall::dispatch(registers[8], arguments))
}

/// The entry of the table of pages for an address; none behind the table or before the
/// gigabyte of the kernel.
pub open spec fn page_entry(address: u64, kernel_start: u64, table: Seq<u64>) -> u64 {
    let window = kernel_start as int / 0x4000_0000 * 0x4000_0000;
    let index = (address - window) / 4096;
    if address < window || index >= 2048 {
        0
    } else {
        table[index]
    }
}

pub fn page_descriptor(address: u64, kernel_start: u64, table: &[u64]) -> (entry: u64)
    requires
        table@.len() == 2048,
    ensures
        entry == page_entry(address, kernel_start, table@),
{
    let window: u64 = kernel_start / 0x4000_0000 * 0x4000_0000;
    if address < window {
        return 0;
    }
    let index: u64 = (address - window) / 4096;
    if index >= 2048 {
        return 0;
    }
    table[index as usize]
}

/// Whether code can only be read and run, data can be written but not run, and the
/// processor enforces it.
pub fn write_xor_execute_enabled(text: u64, data: u64, control: u64) -> (enabled: bool)
    ensures
        enabled == (text % 4 == 3 && data % 4 == 3 && text & 0x80 != 0 && text
            & 0x20_0000_0000_0000 == 0 && data & 0x80 == 0 && data & 0x20_0000_0000_0000 != 0
            && data & 0x40_0000_0000_0000 != 0 && control & 0x8_0000 != 0),
{
    let text_read_only = text & 0x80 != 0;
    let text_privileged_executable = text & 0x20_0000_0000_0000 == 0;
    let data_writable = data & 0x80 == 0;
    let data_execute_never = data & 0x20_0000_0000_0000 != 0 && data & 0x40_0000_0000_0000 != 0;
    text % 4 == 3 && data % 4 == 3 && text_read_only && text_privileged_executable && data_writable
        && data_execute_never && control & 0x8_0000 != 0
}

/// Whether the page below the stack is not there.
pub fn stack_guard_enabled(entry: u64) -> (enabled: bool)
    ensures
        enabled == (entry == 0),
{
    entry == 0
}

/// Whether all other processors have answered a request to forget translations.
pub fn tlb_ipi_answered(online: usize, before: usize, after: usize) -> (answered: bool)
    ensures
        answered == (online <= 1 || (if after >= before {
            after - before
        } else {
            0
        }) >= online - 1),
{
    online <= 1 || after.saturating_sub(before) >= online - 1
}

/// What is known of the hardware, where a device tree is given.
pub fn configure_boot(
    state: &mut platform::PlatformState,
    protocol: u64,
    discovery: &HardwareDiscovery,
)
    requires
        discovery.cpu_count <= 8,
    ensures
        final(state)@ == (if protocol == crate::boot::PROTOCOL_DEVICE_TREE {
            platform::configured(old(state)@, *discovery)
        } else {
            old(state)@
        }),
{
    if protocol == crate::boot::PROTOCOL_DEVICE_TREE {
        state.configure(discovery);
    }
}

} // verus!
