//! The user side of the system call interface: the register values with
//! which a task traps into the kernel.

use vstd::prelude::*;
use crate::interrupts::{InterruptContext, InterruptFrame, Registers, FORGED_ERROR_CODE};
use crate::syscalls::{SYS_EXIT, SYS_MMAP_SHARED, SYS_PRINT_NUMBER, SYS_WRITE};

verus! {

/// The vector of the system call trap.
pub const SYSCALL_TRAP: u32 = 0x80;

/// The registers that carry a system call: the number in EAX, the
/// arguments in ECX and EDX.
#[derive(Debug, Copy, Clone, PartialEq, Eq, Structural)]
pub struct SyscallArgs {
    pub eax: u32,
    pub ecx: u32,
    pub edx: u32,
}

/// The `exit` call.
pub fn exit() -> (args: SyscallArgs)
    ensures
        args == (SyscallArgs { eax: SYS_EXIT, ecx: 0, edx: 0 }),
{
    SyscallArgs { eax: SYS_EXIT, ecx: 0, edx: 0 }
}

/// The `write` call for the `len` bytes at `addr`.
pub fn write(addr: u32, len: u32) -> (args: SyscallArgs)
    ensures
        args == (SyscallArgs { eax: SYS_WRITE, ecx: addr, edx: len }),
{
    SyscallArgs { eax: SYS_WRITE, ecx: addr, edx: len }
}

/// The `print_number` call for `num`.
pub fn print_number(num: u32) -> (args: SyscallArgs)
    ensures
        args == (SyscallArgs { eax: SYS_PRINT_NUMBER, ecx: num, edx: 0 }),
{
    SyscallArgs { eax: SYS_PRINT_NUMBER, ecx: num, edx: 0 }
}

/// The `mmap_shared` call that maps the shared region `id` at `addr`.
pub fn mmap_shared(addr: u32, id: u32) -> (args: SyscallArgs)
    ensures
        args == (SyscallArgs { eax: SYS_MMAP_SHARED, ecx: addr, edx: id }),
{
    SyscallArgs { eax: SYS_MMAP_SHARED, ecx: addr, edx: id }
}

impl SyscallArgs {
    /// The interrupt context that the trap entry builds when a task traps
    /// with these registers: vector 0x80, no error code, every other
    /// register as in `at`.
    pub fn trap(&self, at: &InterruptContext) -> (ctx: InterruptContext)
        ensures
            ctx == (InterruptContext {
                regs: Registers { eax: self.eax, ecx: self.ecx, edx: self.edx, ..at.regs },
                nr: SYSCALL_TRAP,
                err: FORGED_ERROR_CODE,
                frame: at.frame,
            }),
    {
        InterruptContext {
            regs: Registers {
                edi: at.regs.edi,
                esi: at.regs.esi,
                ebp: at.regs.ebp,
                esp: at.regs.esp,
                ebx: at.regs.ebx,
                edx: self.edx,
                ecx: self.ecx,
                eax: self.eax,
            },
            nr: SYSCALL_TRAP,
            err: FORGED_ERROR_CODE,
            frame: InterruptFrame {
                ip: at.frame.ip,
                cs: at.frame.cs,
                eflags: at.frame.eflags,
                sp: at.frame.sp,
                ss: at.frame.ss,
            },
        }
    }
}

} // verus!
