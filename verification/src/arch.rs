//! What the kernel knows of the machines that it runs on.
use vstd::prelude::*;

pub mod aarch64;
pub mod per_cpu;
pub mod x86_64;

verus! {

/// What comes in at the console.
#[derive(Clone, Copy, Debug, PartialEq, Eq, Structural)]
pub enum ConsoleInput {
    Byte(u8),
    Key { code: u8, translated: Option<u8> },
    MouseByte(u8),
}

#[derive(Clone, Copy, Debug, PartialEq, Eq, Structural)]
pub struct ClockTime {
    pub hour: u8,
    pub minute: u8,
    pub second: u8,
}

/// What a machine says of itself.
#[derive(Clone, Copy, Debug)]
pub struct PlatformInfo {
    pub name: &'static str,
    pub shell_banner: &'static str,
    pub uname: &'static str,
    pub proc_version: &'static str,
    pub ipc_trace_supported: bool,
    pub backspace_echo: &'static str,
}

/// The machines.
#[derive(Clone, Copy, Debug, PartialEq, Eq, Structural)]
pub enum Platform {
    X86_64,
    QemuVirt,
    Rpi5,
}

impl Platform {
    /// What a machine says of itself.
    pub open spec fn info(self) -> PlatformInfo {
        match self {
            Platform::X86_64 => PlatformInfo {
                name: "x86_64",
                shell_banner: "Rustix v-kernel (x86_64)",
                uname: "Rustix v-kernel x86_64",
                proc_version: "Rustix v-kernel 0.1.0 x86_64\n",
                ipc_trace_supported: true,
                backspace_echo: "\x08",
            },
            Platform::QemuVirt => PlatformInfo {
                name: "aarch64-qemu-virt",
                shell_banner: "Rustix v-kernel (AArch64 QEMU virt)",
                uname: "Rustix v-kernel aarch64 qemu-virt",
                proc_version: "Rustix v-kernel 0.1.0 aarch64 qemu-virt\n",
                ipc_trace_supported: false,
                backspace_echo: "\x08 \x08",
            },
            Platform::Rpi5 => PlatformInfo {
                name: "aarch64-rpi5",
                shell_banner: "Rustix v-kernel (Raspberry Pi 5)",
                uname: "Rustix v-kernel aarch64 raspberrypi-5",
                proc_version: "Rustix v-kernel 0.1.0 aarch64 raspberrypi-5\n",
                ipc_trace_supported: false,
                backspace_echo: "\x08 \x08",
            },
        }
    }

    /// Where the physical memory ends that a machine can use.
    pub open spec fn spec_memory_limit(self) -> u64 {
        match self {
            Platform::X86_64 => 0x1_0000_0000,
            _ => 0x4_0000_0000,
        }
    }

    /// Where the physical memory ends that a machine can use: behind four gibibytes, or
    /// sixteen.
    pub fn memory_limit(self) -> (limit: u64)
        ensures
            limit == self.spec_memory_limit(),
    {
        match self {
            Platform::X86_64 => 0x1_0000_0000,
            _ => 0x4_0000_0000,
        }
    }

    pub fn platform_info(self) -> (info: PlatformInfo)
        ensures
            info == self.info(),
    {
        match self {
            Platform::X86_64 => PlatformInfo {
                name: "x86_64",
                shell_banner: "Rustix v-kernel (x86_64)",
                uname: "Rustix v-kernel x86_64",
                proc_version: "Rustix v-kernel 0.1.0 x86_64\n",
                ipc_trace_supported: true,
                backspace_echo: "\x08",
            },
            Platform::QemuVirt => PlatformInfo {
                name: "aarch64-qemu-virt",
                shell_banner: "Rustix v-kernel (AArch64 QEMU virt)",
                uname: "Rustix v-kernel aarch64 qemu-virt",
                proc_version: "Rustix v-kernel 0.1.0 aarch64 qemu-virt\n",
                ipc_trace_supported: false,
                backspace_echo: "\x08 \x08",
            },
            Platform::Rpi5 => PlatformInfo {
                name: "aarch64-rpi5",
                shell_banner: "Rustix v-kernel (Raspberry Pi 5)",
                uname: "Rustix v-kernel aarch64 raspberrypi-5",
                proc_version: "Rustix v-kernel 0.1.0 aarch64 raspberrypi-5\n",
                ipc_trace_supported: false,
                backspace_echo: "\x08 \x08",
            },
        }
    }
}

pub fn arch_name(platform: Platform) -> (name: &'static str)
    ensures
        name == platform.info().name,
{
    platform.platform_info().name
}

pub fn shell_banner(platform: Platform) -> (banner: &'static str)
    ensures
        banner == platform.info().shell_banner,
{
    platform.platform_info().shell_banner
}

pub fn uname(platform: Platform) -> (name: &'static str)
    ensures
        name == platform.info().uname,
{
    platform.platform_info().uname
}

pub fn proc_version(platform: Platform) -> (version: &'static str)
    ensures
        version == platform.info().proc_version,
{
    platform.platform_info().proc_version
}

pub fn supports_ipc_trace(platform: Platform) -> (supported: bool)
    ensures
        supported == platform.info().ipc_trace_supported,
{
    platform.platform_info().ipc_trace_supported
}

pub fn backspace_echo(platform: Platform) -> (echo: &'static str)
    ensures
        echo == platform.info().backspace_echo,
{
    platform.platform_info().backspace_echo
}

/// The byte that an input stands for: keys without a letter and the mouse have none.
pub open spec fn input_byte(input: Option<ConsoleInput>) -> Option<u8> {
    match input {
        Some(ConsoleInput::Byte(byte)) => Some(byte),
        Some(ConsoleInput::Key { code, translated }) => translated,
        _ => None,
    }
}

/// The byte that came in at the console, if any.
pub fn read_console_byte(input: Option<ConsoleInput>) -> (byte: Option<u8>)
    ensures
        byte == input_byte(input),
{
    match input {
        Some(ConsoleInput::Byte(byte)) => Some(byte),
        Some(ConsoleInput::Key { code, translated }) => translated,
        _ => None,
    }
}

} // verus!
