//! Core of a small Unix-like kernel: virtual memory, address spaces,
//! file descriptors and the device registry, with machine-checked contracts.

pub mod cpu;
pub mod device;
pub mod errno;
pub mod file;
pub mod limits;
pub mod memory;
pub mod net;
pub mod process;
pub mod syscall;
pub mod util;
