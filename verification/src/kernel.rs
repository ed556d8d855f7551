//! The kernel: its tasks, the programs that it loads, and its monitor.
pub mod elf;
pub mod monitor;
pub mod run_queue;
pub mod task;
pub use self::monitor::api::SysApi;
pub use self::monitor::Kernel;
