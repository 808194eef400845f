//! Core of a small 32-bit x86 preemptive multitasking kernel.
//!
//! The library holds the kernel's rules as functions on plain values, each
//! with a contract that Verus proves: the layout of the hardware tables,
//! the physical and virtual memory managers, the task table with its
//! round-robin scheduler, the dispatch of traps and the system calls.
//!
//! Physical memory is a value, [`paging::physmem::PhysMem`]: the bytes of
//! RAM behind the kernel's window and the bitmap of the frame allocator.
//! Page directories, page tables, allocation bitmaps and stacks live in
//! its bytes, and every operation on them takes it explicitly, so that
//! what the operation reads and writes is stated in its contract. The
//! state of the whole kernel is one value, [`tasks::Kernel`].
//!
//! What only the CPU can do is left to the caller: a handler answers with
//! what is to be done, a context switch with the registers to load, a
//! panic with its text.
//!
//! - [`paging`]: frames, page tables, address spaces and what mapping does
//!   to memory.
//! - [`segmem`]: the GDT and the TSS.
//! - [`interrupts`]: the IDT, the interrupt context, the dispatch of traps
//!   and the panics with which the kernel halts.
//! - [`tasks`]: the kernel state, tasks, context switches and scheduling.
//! - [`syscalls`]: the four system calls.
//! - [`userland_tasks`]: the registers with which a task makes a call.
//! - [`pic`], [`peripherals`], [`multiboot`]: the interrupt controllers,
//!   the serial port and the boot protocol, as far as the kernel decides
//!   about them.

pub mod interrupts;
pub mod multiboot;
pub mod paging;
pub mod peripherals;
pub mod pic;
pub mod segmem;
pub mod syscalls;
pub mod tasks;
pub mod userland_tasks;
