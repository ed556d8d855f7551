//! The verified core of the Rustix v-kernel.
pub mod apps;
pub mod arch;
pub mod bits;
pub mod boot;
pub mod bytes;
pub mod c_fastpath;
pub mod chars;
pub mod counting;
pub mod extfs;
pub mod fixed;
pub mod gui;
pub mod initramfs;
pub mod ipc;
pub mod kernel;
pub mod lines;
pub mod linux;
pub mod mm;
pub mod net;
pub mod numbers;
pub mod print;
pub mod screen;
pub mod startup;
pub mod storage;
pub mod text;
