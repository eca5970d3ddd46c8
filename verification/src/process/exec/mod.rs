//! What the kernel needs to run a program.

pub mod vdso;
