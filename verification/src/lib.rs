//! Task management and system-call logic of a small teaching kernel, with
//! the state of the kernel held as plain values and every operation proved
//! against a mathematical model.

pub mod mm;

pub mod task;
pub mod process;
pub mod timeval;
pub mod syscall;
pub mod laws;
pub mod processor;
