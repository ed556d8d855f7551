//! The personal computer: its keyboard, its clock, its loudspeaker and the control
//! registers of its processor.
use crate::arch::{ClockTime, ConsoleInput};
use vstd::prelude::*;

pub mod runtime;

verus! {

/// A byte from the controller of the keyboard and the mouse.
#[derive(Clone, Copy, Debug, PartialEq, Eq, Structural)]
pub struct InputByte {
    pub is_mouse: bool,
    pub value: u8,
}

/// The keyboard: whether a shift key is down, and whether the next code is one of the
/// extended keys.
#[derive(Clone, Copy, Debug, PartialEq, Eq, Structural)]
pub struct Keyboard {
    pub shift: bool,
    pub extended: bool,
}

/// A letter, large if a shift key is down.
pub open spec fn letter_for(byte: u8, shift: bool) -> u8 {
    if shift {
        (byte - 32) as u8
    } else {
        byte
    }
}

fn letter(byte: u8, shift: bool) -> (result: u8)
    requires
        byte >= 32,
    ensures
        result == letter_for(byte, shift),
{
    if shift {
        byte - 32
    } else {
        byte
    }
}

/// One of two bytes, by whether a shift key is down.
pub open spec fn either_byte(shift: bool, with: u8, without: u8) -> u8 {
    if shift {
        with
    } else {
        without
    }
}

fn either(shift: bool, with: u8, without: u8) -> (result: u8)
    ensures
        result == either_byte(shift, with, without),
{
    if shift {
        with
    } else {
        without
    }
}

/// The letter of a key.
pub open spec fn ascii_of(code: u8, shift: bool) -> Option<u8> {
    match code {
        0x02 => Some(either_byte(shift, 33, 49)),
        0x03 => Some(either_byte(shift, 64, 50)),
        0x04 => Some(either_byte(shift, 35, 51)),
        0x05 => Some(either_byte(shift, 36, 52)),
        0x06 => Some(either_byte(shift, 37, 53)),
        0x07 => Some(either_byte(shift, 94, 54)),
        0x08 => Some(either_byte(shift, 38, 55)),
        0x09 => Some(either_byte(shift, 42, 56)),
        0x0a => Some(either_byte(shift, 40, 57)),
        0x0b => Some(either_byte(shift, 41, 48)),
        0x0c => Some(either_byte(shift, 95, 45)),
        0x0d => Some(either_byte(shift, 43, 61)),
        0x0e => Some(8),
        0x10 => Some(letter_for(113, shift)),
        0x11 => Some(letter_for(119, shift)),
        0x12 => Some(letter_for(101, shift)),
        0x13 => Some(letter_for(114, shift)),
        0x14 => Some(letter_for(116, shift)),
        0x15 => Some(letter_for(121, shift)),
        0x16 => Some(letter_for(117, shift)),
        0x17 => Some(letter_for(105, shift)),
        0x18 => Some(letter_for(111, shift)),
        0x19 => Some(letter_for(112, shift)),
        0x1a => Some(either_byte(shift, 123, 91)),
        0x1b => Some(either_byte(shift, 125, 93)),
        0x1c => Some(10),
        0x1e => Some(letter_for(97, shift)),
        0x1f => Some(letter_for(115, shift)),
        0x20 => Some(letter_for(100, shift)),
        0x21 => Some(letter_for(102, shift)),
        0x22 => Some(letter_for(103, shift)),
        0x23 => Some(letter_for(104, shift)),
        0x24 => Some(letter_for(106, shift)),
        0x25 => Some(letter_for(107, shift)),
        0x26 => Some(letter_for(108, shift)),
        0x27 => Some(either_byte(shift, 58, 59)),
        0x28 => Some(either_byte(shift, 34, 39)),
        0x29 => Some(either_byte(shift, 126, 96)),
        0x2b => Some(either_byte(shift, 124, 92)),
        0x2c => Some(letter_for(122, shift)),
        0x2d => Some(letter_for(120, shift)),
        0x2e => Some(letter_for(99, shift)),
        0x2f => Some(letter_for(118, shift)),
        0x30 => Some(letter_for(98, shift)),
        0x31 => Some(letter_for(110, shift)),
        0x32 => Some(letter_for(109, shift)),
        0x33 => Some(either_byte(shift, 60, 44)),
        0x34 => Some(either_byte(shift, 62, 46)),
        0x35 => Some(either_byte(shift, 63, 47)),
        0x39 => Some(32),
        _ => None,
    }
}

/// The letter of a key.
pub fn scancode_to_ascii(code: u8, shift: bool) -> (byte: Option<u8>)
    ensures
        byte == ascii_of(code, shift),
{
    match code {
        0x02 => Some(either(shift, 33, 49)),
        0x03 => Some(either(shift, 64, 50)),
        0x04 => Some(either(shift, 35, 51)),
        0x05 => Some(either(shift, 36, 52)),
        0x06 => Some(either(shift, 37, 53)),
        0x07 => Some(either(shift, 94, 54)),
        0x08 => Some(either(shift, 38, 55)),
        0x09 => Some(either(shift, 42, 56)),
        0x0a => Some(either(shift, 40, 57)),
        0x0b => Some(either(shift, 41, 48)),
        0x0c => Some(either(shift, 95, 45)),
        0x0d => Some(either(shift, 43, 61)),
        0x0e => Some(8),
        0x10 => Some(letter(113, shift)),
        0x11 => Some(letter(119, shift)),
        0x12 => Some(letter(101, shift)),
        0x13 => Some(letter(114, shift)),
        0x14 => Some(letter(116, shift)),
        0x15 => Some(letter(121, shift)),
        0x16 => Some(letter(117, shift)),
        0x17 => Some(letter(105, shift)),
        0x18 => Some(letter(111, shift)),
        0x19 => Some(letter(112, shift)),
        0x1a => Some(either(shift, 123, 91)),
        0x1b => Some(either(shift, 125, 93)),
        0x1c => Some(10),
        0x1e => Some(letter(97, shift)),
        0x1f => Some(letter(115, shift)),
        0x20 => Some(letter(100, shift)),
        0x21 => Some(letter(102, shift)),
        0x22 => Some(letter(103, shift)),
        0x23 => Some(letter(104, shift)),
        0x24 => Some(letter(106, shift)),
        0x25 => Some(letter(107, shift)),
        0x26 => Some(letter(108, shift)),
        0x27 => Some(either(shift, 58, 59)),
        0x28 => Some(either(shift, 34, 39)),
        0x29 => Some(either(shift, 126, 96)),
        0x2b => Some(either(shift, 124, 92)),
        0x2c => Some(letter(122, shift)),
        0x2d => Some(letter(120, shift)),
        0x2e => Some(letter(99, shift)),
        0x2f => Some(letter(118, shift)),
        0x30 => Some(letter(98, shift)),
        0x31 => Some(letter(110, shift)),
        0x32 => Some(letter(109, shift)),
        0x33 => Some(either(shift, 60, 44)),
        0x34 => Some(either(shift, 62, 46)),
        0x35 => Some(either(shift, 63, 47)),
        0x39 => Some(32),
        _ => None,
    }
}

impl Keyboard {
    /// What a code of the keyboard does.
    pub open spec fn pressed(self, scancode: u8) -> (Keyboard, Option<ConsoleInput>) {
        let code = (scancode % 128) as u8;
        if scancode == 0xe0 {
            (Keyboard { extended: true, ..self }, None)
        } else if code == 0x2a || code == 0x36 {
            (Keyboard { shift: scancode < 128, extended: false }, None)
        } else if scancode >= 128 {
            (Keyboard { extended: false, ..self }, None)
        } else {
            (
                Keyboard { extended: false, ..self },
                Some(
                    ConsoleInput::Key {
                        code,
                        translated: if self.extended {
                            None
                        } else {
                            ascii_of(code, self.shift)
                        },
                    },
                ),
            )
        }
    }

    /// What comes in at the console: the serial line goes first, then the controller.
    pub open spec fn polled(self, serial: Option<u8>, controller: Option<InputByte>) -> (
        Keyboard,
        Option<ConsoleInput>,
    ) {
        match serial {
            Some(byte) => (
                self,
                Some(
                    ConsoleInput::Byte(
                        if byte == 13 {
                            10
                        } else {
                            byte
                        },
                    ),
                ),
            ),
            None => match controller {
                None => (self, None),
                Some(input) => if input.is_mouse {
                    (self, Some(ConsoleInput::MouseByte(input.value)))
                } else {
                    self.pressed(input.value)
                },
            },
        }
    }

    fn press(&mut self, scancode: u8) -> (input: Option<ConsoleInput>)
        ensures
            (*final(self), input) == old(self).pressed(scancode),
    {
        if scancode == 0xe0 {
            self.extended = true;
            return None;
        }
        let released = scancode >= 128;
        let code: u8 = scancode % 128;
        if code == 0x2a || code == 0x36 {
            self.shift = !released;
            self.extended = false;
            return None;
        }
        if released {
            self.extended = false;
            return None;
        }
        let translated = if self.extended {
            None
        } else {
            scancode_to_ascii(code, self.shift)
        };
        self.extended = false;
        Some(ConsoleInput::Key { code, translated })
    }

    pub fn poll_console_input(&mut self, serial: Option<u8>, controller: Option<InputByte>) -> (input:
        Option<ConsoleInput>)
        ensures
            (*final(self), input) == old(self).polled(serial, controller),
    {
        if let Some(byte) = serial {
            return Some(
                ConsoleInput::Byte(
                    if byte == 13 {
                        10
                    } else {
                        byte
                    },
                ),
            );
        }
        match controller {
            None => None,
            Some(input) => {
                if input.is_mouse {
                    Some(ConsoleInput::MouseByte(input.value))
                } else {
                    self.press(input.value)
                }
            },
        }
    }
}

/// A byte of the controller, if its status says that there is one.
pub open spec fn controller_byte(status: u8, value: u8) -> Option<InputByte> {
    if status % 2 == 0 {
        None
    } else {
        Some(InputByte { is_mouse: status as int / 32 % 2 == 1, value })
    }
}

pub fn read_controller_byte(status: u8, value: u8) -> (input: Option<InputByte>)
    ensures
        input == controller_byte(status, value),
{
    if status % 2 == 0 {
        None
    } else {
        Some(InputByte { is_mouse: status / 32 % 2 == 1, value })
    }
}

/// The command byte of the controller with both devices and their interrupts on.
pub open spec fn controller_command(command: u8) -> u8 {
    ((((command | 0x01) | 0x02) & !0x10u8) | 0x40) & !0x20u8
}

pub fn controller_command_byte(command: u8) -> (result: u8)
    ensures
        result == controller_command(command),
{
    ((((command | 0x01) | 0x02) & !0x10u8) | 0x40) & !0x20u8
}

/// A number of the clock: as it is, or in two decimal digits of four bits each.
pub open spec fn clock_number(value: u8, binary: bool) -> int {
    if binary {
        value as int
    } else {
        value as int / 16 * 10 + value as int % 16
    }
}

pub fn rtc_decode_value(value: u8, binary_mode: bool) -> (number: u8)
    ensures
        number == clock_number(value, binary_mode),
{
    if binary_mode {
        value
    } else {
        value / 16 * 10 + value % 16
    }
}

/// The hour without the bit that says afternoon.
pub open spec fn clock_hour(value: u8, binary: bool) -> int {
    clock_number((value % 128) as u8, binary)
}

pub fn rtc_decode_hour(value: u8, binary_mode: bool) -> (number: u8)
    ensures
        number == clock_hour(value, binary_mode),
{
    rtc_decode_value(value % 128, binary_mode)
}

/// The time that the registers of the clock say, if it is one.
pub open spec fn clock_reading(second: u8, minute: u8, hour: u8, status: u8) -> Option<ClockTime> {
    let binary = status as int / 4 % 2 == 1;
    let whole_day = status as int / 2 % 2 == 1;
    let seconds = clock_number(second, binary);
    let minutes = clock_number(minute, binary);
    let given = clock_hour(hour, binary);
    let hours = if whole_day {
        given
    } else if hour >= 128 {
        given % 12 + 12
    } else {
        given % 12
    };
    if hours < 24 && minutes < 60 && seconds < 60 {
        Some(ClockTime { hour: hours as u8, minute: minutes as u8, second: seconds as u8 })
    } else {
        None
    }
}

/// The time that the registers of the clock say, if it is one.
pub fn rtc_snapshot(second: u8, minute: u8, hour: u8, status: u8) -> (time: Option<ClockTime>)
    ensures
        time == clock_reading(second, minute, hour, status),
{
    let binary = status / 4 % 2 == 1;
    let whole_day = status / 2 % 2 == 1;
    let seconds: u8 = rtc_decode_value(second, binary);
    let minutes: u8 = rtc_decode_value(minute, binary);
    let given: u8 = rtc_decode_hour(hour, binary);
    let hours: u8 = if whole_day {
        given
    } else if hour >= 128 {
        given % 12 + 12
    } else {
        given % 12
    };
    if hours < 24 && minutes < 60 && seconds < 60 {
        Some(ClockTime { hour: hours, minute: minutes, second: seconds })
    } else {
        None
    }
}

/// The time by two readings of the clock: the second of them, if both could be taken.
pub fn read_clock_time(first: Option<ClockTime>, second: Option<ClockTime>) -> (time: Option<
    ClockTime,
>)
    ensures
        time == (if first is Some {
            second
        } else {
            None
        }),
{
    if first.is_some() {
        second
    } else {
        None
    }
}

/// What the counter of the loudspeaker is set to for a tone.
pub open spec fn tone_divisor(frequency: u32) -> int {
    let quotient = 1_193_180int / frequency as int;
    if quotient < 1 {
        1
    } else if quotient > 65535 {
        65535
    } else {
        quotient
    }
}

/// What the counter of the loudspeaker is set to for a tone; no tone at all for none.
pub fn speaker_play(frequency_hz: u32) -> (divisor: Option<u16>)
    ensures
        divisor is None <==> frequency_hz == 0,
        divisor matches Some(value) ==> value == tone_divisor(frequency_hz),
{
    if frequency_hz == 0 {
        return None;
    }
    let quotient: u32 = 1_193_180 / frequency_hz;
    let divisor: u32 = if quotient < 1 {
        1
    } else if quotient > 65535 {
        65535
    } else {
        quotient
    };
    Some(divisor as u16)
}

#[derive(Clone, Copy, Debug, PartialEq, Eq, Structural)]
pub struct SupervisorProtections {
    pub smep: bool,
    pub smap: bool,
}

/// The protections that the features of a processor allow, and the control register with
/// them on.
pub open spec fn protections_for(maximum_leaf: u32, features: u32, control: u64) -> (
    SupervisorProtections,
    u64,
) {
    let smep = maximum_leaf >= 7 && features & 0x80 != 0;
    let smap = maximum_leaf >= 7 && features & 0x10_0000 != 0;
    let first = if smep {
        control | 0x10_0000
    } else {
        control
    };
    (
        SupervisorProtections { smep, smap },
        if smap {
            first | 0x20_0000
        } else {
            first
        },
    )
}

pub fn enable_supervisor_protections(maximum_leaf: u32, features: u32, control: u64) -> (result: (
    SupervisorProtections,
    u64,
))
    ensures
        result == protections_for(maximum_leaf, features, control),
{
    let mut protections = SupervisorProtections { smep: false, smap: false };
    let mut cr4: u64 = control;
    if maximum_leaf < 7 {
        return (protections, cr4);
    }
    if features & 0x80 != 0 {
        cr4 = cr4 | 0x10_0000;
        protections.smep = true;
    }
    if features & 0x10_0000 != 0 {
        cr4 = cr4 | 0x20_0000;
        protections.smap = true;
    }
    (protections, cr4)
}

/// The two control registers with the floating point unit on.
pub fn initialize_fpu(cr0: u64, cr4: u64) -> (result: (u64, u64))
    ensures
        result.0 == (cr0 | 0x2 | 0x20) & !0xcu64,
        result.1 == cr4 | 0x600,
{
    ((cr0 | 0x2 | 0x20) & !0xcu64, cr4 | 0x600)
}

/// Whether access to user memory must be opened first.
pub fn begin_user_access(control: u64) -> (smap: bool)
    ensures
        smap == (control & 0x20_0000 != 0),
{
    control & 0x20_0000 != 0
}

/// Whether the ticks between two readings of the timer show that its interrupt comes in.
pub fn timer_interrupt_seen(timer_hz: u32, before: u64, after: u64) -> (seen: bool)
    ensures
        seen == (timer_hz == 0 || after.wrapping_sub(before) >= 2),
{
    timer_hz == 0 || after.wrapping_sub(before) >= 2
}

} // verus!
