pub mod elf;
pub mod errno;
pub mod path;
pub mod syscall;
pub use errno::{Errno, Result, MAX_ERRNO};
