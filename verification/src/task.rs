//! User tasks: the ELF image reader, the resident set, the initial stack,
//! and the task itself with its trap handling.

pub mod elf;
pub mod memset;
pub mod schedular;
pub mod stack;
pub mod syscall;
pub mod task;
