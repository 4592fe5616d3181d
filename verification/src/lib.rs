//! A verified executable model of a minimal supervisor-mode runtime for a
//! single-core 32-bit RISC-V machine.
//!
//! The machine is held in plain values: the register file, the control and
//! status registers of the trap path, kernel stacks of 32-bit words, and the
//! bytes of the memory regions. Every routine of the kernel is a function on
//! these values, with a contract that says exactly what it leaves behind.
//!
//! - `types`: machine words, the register file, the trap frame and the
//!   layout of frames on a stack.
//! - `common_func`: the firmware call convention, the console call and the
//!   byte fill.
//! - `page_alloc`: the physical page allocator.
//! - `trap`: trap entry and return, the dispatcher, and the boot entry.
//! - `process`: the process table, process creation, the context switch and
//!   the round-robin scheduler.
//! - `halt`: the report that a fatal condition leaves on the console.
//!
//! A fatal condition comes back as a `types::Fatal`, with the state untouched
//! from the point at which it was found. Whoever drives the kernel reports
//! it with `halt::panic` and goes no further.

pub mod common_func;
pub mod halt;
pub mod page_alloc;
pub mod process;
pub mod trap;
pub mod types;
