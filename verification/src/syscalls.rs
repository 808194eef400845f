//! All system call handlers.

use vstd::prelude::*;
use vstd::utf8::valid_utf8;
use crate::interrupts::{InterruptContext, KernelPanic};
use crate::paging::effects::{
    apart, frame_base, lemma_fresh_kept, lemma_frame_kept, lemma_mapped_raw, lemma_other_kept,
    map_raw_effect, maps_to, only_fresh,
};
use crate::paging::pagemem::{
    present, PageDirectory, PhysAddr, VirtAddr, PAGE_PRESENT, PAGE_SIZE, PAGE_USER,
    PAGE_WRITE,
};
use crate::paging::physmem::{
    fill_zero, frame_addr, frame_in_use, frame_index, free_count, lemma_free_count_positive,
    lemma_free_count_update, lemma_frame_of_index, lemma_lowest_free, lowest_free,
};
use crate::paging::KERNEL_PHYS_WINDOW_SIZE;
use crate::tasks::{Kernel, MAX_SHARED_MAPPINGS, MAX_TASKS};

verus! {

/// Number of the `exit` system call.
pub const SYS_EXIT: u32 = 1;

/// Number of the `write` system call.
pub const SYS_WRITE: u32 = 2;

/// Number of the `print_number` system call.
pub const SYS_PRINT_NUMBER: u32 = 3;

/// Number of the `mmap_shared` system call.
pub const SYS_MMAP_SHARED: u32 = 10;

/// The address `i` bytes after `start`; linear addresses wrap at 4 GiB.
pub open spec fn addr_at(start: u32, i: int) -> u32 {
    ((start + i) % 0x1_0000_0000) as u32
}

/// The bytes that the `len` addresses from `start` on resolve to, where
/// all of them do.
pub open spec fn user_bytes(pgd: PageDirectory, ram: Seq<u8>, start: u32, len: nat) -> Seq<u8> {
    Seq::new(len, |i: int| pgd.byte_at(ram, addr_at(start, i)).unwrap())
}

/// `fault` is the first of the `len` addresses from `start` on that does
/// not resolve.
pub open spec fn first_fault(pgd: PageDirectory, ram: Seq<u8>, start: u32, len: nat, fault: int) -> bool {
    &&& 0 <= fault < len
    &&& pgd.byte_at(ram, addr_at(start, fault)) is None
    &&& forall|j: int| 0 <= j < fault ==> (#[trigger] pgd.byte_at(ram, addr_at(start, j))) is Some
}

/// What `write` answers for the buffer of `len` bytes at `start`: a page
/// fault at the first address that does not resolve; else a panic if the
/// bytes are not UTF-8; else the bytes, for the log.
pub open spec fn write_result(
    pgd: PageDirectory,
    ram: Seq<u8>,
    start: u32,
    len: nat,
    res: Result<Vec<u8>, KernelPanic>,
) -> bool {
    match res {
        Ok(bytes) => {
            &&& forall|j: int| 0 <= j < len ==> (#[trigger] pgd.byte_at(ram, addr_at(start, j))) is Some
            &&& bytes@ == user_bytes(pgd, ram, start, len)
            &&& valid_utf8(bytes@)
        },
        Err(KernelPanic::PageFault { addr }) => exists|i: int|
            #[trigger] first_fault(pgd, ram, start, len, i) && addr == addr_at(start, i),
        Err(KernelPanic::InvalidUtf8) => {
            &&& forall|j: int| 0 <= j < len ==> (#[trigger] pgd.byte_at(ram, addr_at(start, j))) is Some
            &&& !valid_utf8(user_bytes(pgd, ram, start, len))
        },
        Err(_) => false,
    }
}

/// The decimal digits of `n`, in ASCII.
pub open spec fn decimal(n: nat) -> Seq<u8>
    decreases n,
{
    if n < 10 {
        seq![(48 + n) as u8]
    } else {
        decimal(n / 10).push((48 + n % 10) as u8)
    }
}

/// What `print_number` logs for `n`: its decimal digits and a newline.
pub open spec fn number_line(n: u32) -> Seq<u8> {
    decimal(n as nat).push(10u8)
}

/// Whether `bytes` is well-formed UTF-8, as `core::str::from_utf8` finds:
/// it returns `Ok` for exactly the byte slices that are UTF-8.
#[verifier::external_body]
fn is_utf8(bytes: &[u8]) -> (ok: bool)
    ensures
        ok == valid_utf8(bytes@),
{
    core::str::from_utf8(bytes).is_ok()
}

/// Appends the decimal digits of `n` to `out`.
fn push_decimal(out: &mut Vec<u8>, n: u32)
    ensures
        final(out)@ == old(out)@ + decimal(n as nat),
    decreases n,
{
    if n >= 10 {
        push_decimal(out, n / 10);
    }
    out.push(48 + (n % 10) as u8);
    proof {
        if n >= 10 {
            assert(final(out)@ =~= old(out)@ + decimal(n as nat));
        } else {
            assert(final(out)@ =~= old(out)@ + decimal(n as nat));
        }
    }
}

/// The `exit` system call: the kernel halts.
pub fn sys_exit() -> (panic: KernelPanic)
    ensures
        panic == KernelPanic::Exit,
{
    KernelPanic::Exit
}

/// The `write` system call: the `size` bytes at `buffer`, read through the
/// active address space, for the log.
pub fn sys_write(kernel: &Kernel, buffer: u32, size: u32) -> (res: Result<Vec<u8>, KernelPanic>)
    requires
        kernel.wf(),
    ensures
        write_result(PageDirectory::at(kernel.cr3), kernel.mem.ram(), buffer, size as nat, res),
{
    let pgd = PageDirectory::from_paddr(kernel.cr3);
    proof {
        kernel.lemma_current_space();
    }
    let mut bytes: Vec<u8> = Vec::new();
    let mut i: u32 = 0;
    while i < size
        invariant
            i <= size,
            kernel.wf(),
            pgd == PageDirectory::at(kernel.cr3),
            pgd.wf(&kernel.mem),
            bytes@.len() == i,
            forall|j: int|
                0 <= j < i ==> (#[trigger] pgd.byte_at(kernel.mem.ram(), addr_at(buffer, j))) == Some(
                    bytes@[j],
                ),
        decreases size - i,
    {
        let sum: u64 = buffer as u64 + i as u64;
        let addr: u32 = (sum % 0x1_0000_0000) as u32;
        match pgd.read_u8(&kernel.mem, VirtAddr(addr)) {
            Some(byte) => {
                bytes.push(byte);
            },
            None => {
                proof {
                    assert(first_fault(pgd, kernel.mem.ram(), buffer, size as nat, i as int));
                }
                return Err(KernelPanic::PageFault { addr: addr });
            },
        }
        i += 1;
    }
    proof {
        assert(bytes@ =~= user_bytes(pgd, kernel.mem.ram(), buffer, size as nat));
    }
    if is_utf8(bytes.as_slice()) {
        Ok(bytes)
    } else {
        Err(KernelPanic::InvalidUtf8)
    }
}

/// The `print_number` system call: `num` in decimal and a newline, for
/// the log.
pub fn sys_print_number(num: u32) -> (line: Vec<u8>)
    ensures
        line@ == number_line(num),
{
    let mut line: Vec<u8> = Vec::new();
    push_decimal(&mut line, num);
    line.push(10);
    proof {
        assert(line@ =~= number_line(num));
    }
    line
}

/// The frame behind shared mapping `id`: the one recorded, or else the
/// lowest free frame, which the mapping takes.
pub open spec fn shared_frame(before: Kernel, id: int) -> u32 {
    match before.shared@[id] {
        Some(frame) => frame.0,
        None => frame_addr(lowest_free(before.mem.bitmap())),
    }
}

/// Number of frames that `mmap_shared(vaddr, id)` takes: one for the
/// shared frame unless it exists, one for a page table unless the active
/// directory has one for `vaddr`.
pub open spec fn frames_needed(before: Kernel, vaddr: u32, id: int) -> nat {
    let for_frame: nat = if before.shared@[id] is None {
        1
    } else {
        0
    };
    let for_table: nat = if present(PageDirectory::at(before.cr3).pde(before.mem.ram(), vaddr)) {
        0
    } else {
        1
    };
    for_frame + for_table
}

/// What `mmap_shared(vaddr, id)` does to the kernel state `before`, giving
/// `after`, and what it answers: a panic, with nothing changed, for an id
/// that is not below the number of mappings, or where fewer frames are
/// free than it needs; else the frame behind the mapping exists, cleared
/// if it is new, and `vaddr` is mapped to it in the active address space,
/// present, writable and user-accessible.
pub open spec fn mmap_result(
    before: Kernel,
    after: Kernel,
    vaddr: u32,
    id: usize,
    res: Result<(), KernelPanic>,
) -> bool {
    if id >= MAX_SHARED_MAPPINGS {
        res == Err::<(), KernelPanic>(KernelPanic::InvalidSharedId { id }) && after == before
    } else if free_count(before.mem.bitmap()) < frames_needed(before, vaddr, id as int) {
        res == Err::<(), KernelPanic>(KernelPanic::OutOfMemory) && after == before
    } else {
        let pgd = PageDirectory::at(before.cr3);
        let frame = shared_frame(before, id as int);
        let bitmap = before.mem.bitmap();
        let ram = before.mem.ram();
        let cleared = if before.shared@[id as int] is None {
            (bitmap.update(lowest_free(bitmap), 1), fill_zero(ram, frame as int, PAGE_SIZE as int))
        } else {
            (bitmap, ram)
        };
        &&& res is Ok
        &&& after.shared@ == before.shared@.update(id as int, Some(PhysAddr(frame)))
        &&& (after.mem.bitmap(), after.mem.ram()) == pgd.mapped_raw(
            cleared.0,
            cleared.1,
            vaddr,
            frame | 7,
        )
        &&& maps_to(pgd, after.mem.ram(), vaddr, frame | 7)
        &&& after.cr3 == before.cr3
        &&& after.tss == before.tss
        &&& after.tasks == before.tasks
        &&& after.kernel_vspace == before.kernel_vspace
        &&& after.current_task_idx == before.current_task_idx
    }
}

/// Taking a free frame for a shared mapping and clearing it keeps the
/// kernel state well formed.
#[verifier::rlimit(50)]
pub proof fn lemma_kernel_fresh(before: Kernel, after: Kernel, id: int, frame: u32)
    requires
        before.wf(),
        0 <= id < MAX_SHARED_MAPPINGS,
        after.shared@ == before.shared@.update(id, Some(PhysAddr(frame))),
        after.mem.wf(),
        after.mem.in_use(frame),
        only_fresh(before.mem.bitmap(), before.mem.ram(), after.mem.bitmap(), after.mem.ram()),
        after.cr3 == before.cr3,
        after.tasks == before.tasks,
        after.kernel_vspace == before.kernel_vspace,
        after.current_task_idx == before.current_task_idx,
    ensures
        after.wf(),
{
    let b0 = before.mem.bitmap();
    let r0 = before.mem.ram();
    let b = after.mem.bitmap();
    let r = after.mem.ram();
    assert forall|i: int| 0 <= i <= MAX_TASKS implies #[trigger] after.space(i) == before.space(i) by {}
    assert forall|i: int| 0 <= i <= MAX_TASKS && (#[trigger] before.space(i)) is Some implies ({
        let vm = before.space(i).unwrap();
        &&& vm.wf(&after.mem)
        &&& forall|a: int| vm.pgd.owns(r, a) <==> vm.pgd.owns(r0, a)
    }) by {
        let vm = before.space(i).unwrap();
        assert(vm.wf(&before.mem));
        lemma_fresh_kept(vm.pgd, b0, r0, b, r);
        assert(b[frame_index(vm.allocator_bitmap.0)] == 1);
    }
    assert forall|i: int| 0 <= i <= MAX_TASKS && (#[trigger] after.space(i)) is Some implies after.space(
        i,
    ).unwrap().wf(&after.mem) by {
        assert(before.space(i) is Some);
    }
    assert forall|i: int, j: int|
        0 <= i <= MAX_TASKS && 0 <= j <= MAX_TASKS && i != j && (#[trigger] after.space(i)) is Some && (
        #[trigger] after.space(j)) is Some implies apart(
        after.space(i).unwrap().pgd,
        after.space(j).unwrap().pgd,
        r,
    ) by {
        assert(before.space(i) is Some && before.space(j) is Some);
        let p = before.space(i).unwrap().pgd;
        let q = before.space(j).unwrap().pgd;
        assert(apart(p, q, r0));
        assert forall|a: int| !(#[trigger] p.owns(r, a) && q.owns(r, a)) by {
            if p.owns(r, a) && q.owns(r, a) {
                assert(p.owns(r0, a) && q.owns(r0, a));
            }
        }
    }
    let c = choose|i: int|
        0 <= i <= MAX_TASKS && (#[trigger] before.space(i)) is Some && before.space(i).unwrap().pgd.table
            == before.cr3;
    assert(after.space(c) is Some && after.space(c).unwrap().pgd.table == after.cr3);
    assert forall|i: int|
        0 <= i < MAX_SHARED_MAPPINGS && (#[trigger] after.shared[i]) is Some implies after.mem.in_use(
        after.shared[i].unwrap().0,
    ) by {
        if i != id {
            let f = before.shared[i].unwrap().0;
            assert(before.mem.in_use(f));
            assert(b[frame_index(f)] == 1);
        }
    }
    assert forall|i: int|
        0 <= i < MAX_TASKS && (#[trigger] after.tasks[i]) is Some implies after.tasks[i].unwrap().kernel_sp
        + crate::tasks::SWITCH_FRAME_SIZE + crate::interrupts::INTERRUPT_CONTEXT_SIZE <= u32::MAX by {
        assert(before.tasks[i] is Some);
    }
}

/// `map_raw` in the active address space keeps the kernel state well
/// formed: every other address space is untouched.
#[verifier::rlimit(50)]
pub proof fn lemma_kernel_mapped(before: Kernel, after: Kernel, vaddr: u32, raw: u32)
    requires
        before.wf(),
        after.mem.wf(),
        map_raw_effect(
            PageDirectory::at(before.cr3),
            before.mem.bitmap(),
            before.mem.ram(),
            after.mem.bitmap(),
            after.mem.ram(),
            vaddr,
            raw,
        ),
        after.shared == before.shared,
        after.cr3 == before.cr3,
        after.tasks == before.tasks,
        after.kernel_vspace == before.kernel_vspace,
        after.current_task_idx == before.current_task_idx,
    ensures
        after.wf(),
{
    let b0 = before.mem.bitmap();
    let r0 = before.mem.ram();
    let b = after.mem.bitmap();
    let r = after.mem.ram();
    let pgd = PageDirectory::at(before.cr3);
    before.lemma_current_space();
    let c = choose|i: int|
        0 <= i <= MAX_TASKS && (#[trigger] before.space(i)) is Some && before.space(i).unwrap().pgd == pgd;
    assert forall|i: int| 0 <= i <= MAX_TASKS implies #[trigger] after.space(i) == before.space(i) by {}
    assert forall|i: int| 0 <= i <= MAX_TASKS && (#[trigger] before.space(i)) is Some implies ({
        let vm = before.space(i).unwrap();
        &&& vm.wf(&after.mem)
        &&& vm.pgd != pgd ==> forall|a: int| vm.pgd.owns(r, a) <==> vm.pgd.owns(r0, a)
        &&& vm.pgd != pgd ==> apart(pgd, vm.pgd, r)
    }) by {
        let vm = before.space(i).unwrap();
        assert(vm.wf(&before.mem));
        assert(b[frame_index(vm.allocator_bitmap.0)] == 1);
        if vm.pgd == pgd {
            lemma_frame_kept(pgd, b0, r0, b, r, vm.allocator_bitmap.0);
        } else {
            assert(i != c);
            assert(apart(before.space(c).unwrap().pgd, before.space(i).unwrap().pgd, r0));
            lemma_other_kept(pgd, vm.pgd, b0, r0, b, r);
        }
    }
    assert forall|i: int| 0 <= i <= MAX_TASKS && (#[trigger] after.space(i)) is Some implies after.space(
        i,
    ).unwrap().wf(&after.mem) by {
        assert(before.space(i) is Some);
    }
    assert forall|i: int, j: int|
        0 <= i <= MAX_TASKS && 0 <= j <= MAX_TASKS && i != j && (#[trigger] after.space(i)) is Some && (
        #[trigger] after.space(j)) is Some implies apart(
        after.space(i).unwrap().pgd,
        after.space(j).unwrap().pgd,
        r,
    ) by {
        assert(before.space(i) is Some && before.space(j) is Some);
        let p = before.space(i).unwrap().pgd;
        let q = before.space(j).unwrap().pgd;
        assert(apart(p, q, r0));
        assert(p.wf_on(b0, r0) && q.wf_on(b0, r0));
        if p == q {
            assert(p.owns(r0, p.table.0 as int));
        } else if p == pgd {
            assert(apart(pgd, q, r));
        } else if q == pgd {
            assert(apart(pgd, p, r));
            assert forall|a: int| !(#[trigger] p.owns(r, a) && q.owns(r, a)) by {}
        } else {
            assert forall|a: int| !(#[trigger] p.owns(r, a) && q.owns(r, a)) by {
                if p.owns(r, a) && q.owns(r, a) {
                    assert(p.owns(r0, a) && q.owns(r0, a));
                }
            }
        }
    }
    assert(after.space(c) is Some && after.space(c).unwrap().pgd.table == after.cr3);
    assert forall|i: int|
        0 <= i < MAX_SHARED_MAPPINGS && (#[trigger] after.shared[i]) is Some implies after.mem.in_use(
        after.shared[i].unwrap().0,
    ) by {
        let f = before.shared[i].unwrap().0;
        assert(before.mem.in_use(f));
        assert(b[frame_index(f)] == 1);
    }
    assert forall|i: int|
        0 <= i < MAX_TASKS && (#[trigger] after.tasks[i]) is Some implies after.tasks[i].unwrap().kernel_sp
        + crate::tasks::SWITCH_FRAME_SIZE + crate::interrupts::INTERRUPT_CONTEXT_SIZE <= u32::MAX by {
        assert(before.tasks[i] is Some);
    }
}

/// The `mmap_shared` system call: maps the shared region `id` at `vaddr`
/// in the active address space.
#[verifier::rlimit(50)]
pub fn sys_mmap_shared(kernel: &mut Kernel, vaddr: VirtAddr, id: usize) -> (res: Result<
    (),
    KernelPanic,
>)
    requires
        old(kernel).wf(),
    ensures
        final(kernel).wf(),
        mmap_result(*old(kernel), *final(kernel), vaddr.0, id, res),
{
    if id >= MAX_SHARED_MAPPINGS {
        return Err(KernelPanic::InvalidSharedId { id: id });
    }
    let ghost before = *kernel;
    let ghost bitmap0 = kernel.mem.bitmap();
    let ghost ram0 = kernel.mem.ram();
    let pgd = PageDirectory::from_paddr(kernel.cr3);
    proof {
        kernel.lemma_current_space();
    }
    let has_table = pgd.translate(&kernel.mem, vaddr).pte.is_some();
    let is_new = kernel.shared[id].is_none();
    let mut needed: usize = 0;
    if is_new {
        needed += 1;
    }
    if !has_table {
        needed += 1;
    }
    if kernel.mem.free_frames() < needed {
        return Err(KernelPanic::OutOfMemory);
    }
    let page = match kernel.shared[id] {
        Some(page) => page,
        None => {
            proof {
                lemma_free_count_positive(bitmap0);
                lemma_lowest_free(bitmap0);
                lemma_free_count_update(bitmap0, lowest_free(bitmap0), 1);
            }
            let page = kernel.mem.alloc_phys_zeroed();
            kernel.shared.set(id, Some(page));
            proof {
                lemma_frame_of_index(page.0);
                assert(only_fresh(bitmap0, ram0, kernel.mem.bitmap(), kernel.mem.ram())) by {
                    assert forall|a: int|
                        0 <= a < KERNEL_PHYS_WINDOW_SIZE && frame_in_use(
                            bitmap0,
                            frame_base(a),
                        ) implies #[trigger] kernel.mem.ram()[a] == ram0[a] by {
                        assert(frame_base(a) != page.0);
                    }
                }
                lemma_kernel_fresh(before, *kernel, id as int, page.0);
                lemma_fresh_kept(pgd, bitmap0, ram0, kernel.mem.bitmap(), kernel.mem.ram());
                crate::paging::pagemem::lemma_indices(vaddr.0);
            }
            page
        },
    };
    let ghost middle = *kernel;
    proof {
        if !has_table {
            lemma_free_count_positive(kernel.mem.bitmap());
        }
        let p = page.0;
        assert(p | 1 | 4 | 2 == p | 7) by (bit_vector);
        kernel.lemma_current_space();
        lemma_mapped_raw(pgd, kernel.mem.bitmap(), kernel.mem.ram(), vaddr.0, page.0 | 7);
    }
    pgd.map_raw(&mut kernel.mem, vaddr, page.0 | PAGE_PRESENT | PAGE_USER | PAGE_WRITE);
    proof {
        lemma_kernel_mapped(middle, *kernel, vaddr.0, page.0 | 7);
        assert(kernel.shared@ =~= before.shared@.update(id as int, Some(page)));
    }
    Ok(())
}

/// What a system call does to the kernel state `before`, giving `after`,
/// and what it answers: the bytes to log, or the panic with which the
/// kernel halts. The call number is the low byte of EAX; the arguments
/// are ECX and EDX.
pub open spec fn syscall_result(
    before: Kernel,
    after: Kernel,
    ctx: InterruptContext,
    res: Result<Vec<u8>, KernelPanic>,
) -> bool {
    let number = ctx.regs.eax & 0xff;
    if number == SYS_EXIT {
        res == Err::<Vec<u8>, KernelPanic>(KernelPanic::Exit) && after == before
    } else if number == SYS_WRITE {
        &&& after == before
        &&& write_result(
            PageDirectory::at(before.cr3),
            before.mem.ram(),
            ctx.regs.ecx,
            ctx.regs.edx as nat,
            res,
        )
    } else if number == SYS_PRINT_NUMBER {
        &&& after == before
        &&& res is Ok
        &&& res.unwrap()@ == number_line(ctx.regs.ecx)
    } else if number == SYS_MMAP_SHARED {
        &&& mmap_result(
            before,
            after,
            ctx.regs.ecx,
            ctx.regs.edx as usize,
            match res {
                Ok(_) => Ok(()),
                Err(panic) => Err(panic),
            },
        )
        &&& res is Ok ==> res.unwrap()@.len() == 0
    } else {
        res == Err::<Vec<u8>, KernelPanic>(
            KernelPanic::UnimplementedSyscall { number: ctx.regs.eax },
        ) && after == before
    }
}

/// Handles a system call: answers with the bytes to write to the log, or
/// with the panic with which the kernel halts.
pub fn handle_syscall(kernel: &mut Kernel, ctx: &InterruptContext) -> (res: Result<
    Vec<u8>,
    KernelPanic,
>)
    requires
        old(kernel).wf(),
    ensures
        final(kernel).wf(),
        syscall_result(*old(kernel), *final(kernel), *ctx, res),
{
    let number = ctx.regs.eax & 0xff;
    if number == SYS_EXIT {
        Err(sys_exit())
    } else if number == SYS_WRITE {
        sys_write(kernel, ctx.regs.ecx, ctx.regs.edx)
    } else if number == SYS_PRINT_NUMBER {
        Ok(sys_print_number(ctx.regs.ecx))
    } else if number == SYS_MMAP_SHARED {
        match sys_mmap_shared(kernel, VirtAddr(ctx.regs.ecx), ctx.regs.edx as usize) {
            Ok(()) => Ok(Vec::new()),
            Err(panic) => Err(panic),
        }
    } else {
        Err(KernelPanic::UnimplementedSyscall { number: ctx.regs.eax })
    }
}

/// The numbers of the four calls fit in the low byte of EAX, so a trap
/// with one of them in EAX reaches its handler: `exit` halts the kernel,
/// and `print_number` logs the number in ECX and changes nothing.
pub proof fn lemma_calls_by_number(
    before: Kernel,
    after: Kernel,
    ctx: InterruptContext,
    res: Result<Vec<u8>, KernelPanic>,
)
    requires
        syscall_result(before, after, ctx, res),
    ensures
        SYS_EXIT & 0xff == SYS_EXIT,
        SYS_WRITE & 0xff == SYS_WRITE,
        SYS_PRINT_NUMBER & 0xff == SYS_PRINT_NUMBER,
        SYS_MMAP_SHARED & 0xff == SYS_MMAP_SHARED,
        ctx.regs.eax == SYS_EXIT ==> res == Err::<Vec<u8>, KernelPanic>(KernelPanic::Exit),
        ctx.regs.eax == SYS_PRINT_NUMBER ==> res is Ok && res.unwrap()@ == number_line(ctx.regs.ecx)
            && after == before,
        ctx.regs.eax == SYS_WRITE ==> after == before && write_result(
            PageDirectory::at(before.cr3),
            before.mem.ram(),
            ctx.regs.ecx,
            ctx.regs.edx as nat,
            res,
        ),
{
    assert(1u32 & 0xff == 1 && 2u32 & 0xff == 2 && 3u32 & 0xff == 3 && 10u32 & 0xff == 10)
        by (bit_vector);
}

/// `mmap_shared` leaves every address space but the active one as it is:
/// each walk of its directory finds what it found before.
#[verifier::rlimit(50)]
pub proof fn lemma_mmap_keeps_other_spaces(
    before: Kernel,
    after: Kernel,
    vaddr: u32,
    id: usize,
    res: Result<(), KernelPanic>,
    space: int,
    other: u32,
)
    requires
        before.wf(),
        mmap_result(before, after, vaddr, id, res),
        0 <= space <= MAX_TASKS,
        before.space(space) is Some,
        before.space(space).unwrap().pgd.table != before.cr3,
    ensures
        after.space(space) == before.space(space),
        before.space(space).unwrap().pgd.walk(after.mem.ram(), other) == before.space(
            space,
        ).unwrap().pgd.walk(before.mem.ram(), other),
{
    if res is Ok {
        let pgd = PageDirectory::at(before.cr3);
        let vm = before.space(space).unwrap();
        let bitmap = before.mem.bitmap();
        let ram = before.mem.ram();
        let frame = shared_frame(before, id as int);
        before.lemma_current_space();
        let c = choose|i: int|
            0 <= i <= MAX_TASKS && (#[trigger] before.space(i)) is Some && before.space(i).unwrap().pgd
                == pgd;
        assert(space != c);
        assert(apart(before.space(c).unwrap().pgd, before.space(space).unwrap().pgd, ram));
        assert(vm.wf(&before.mem));
        let cleared = if before.shared@[id as int] is None {
            (bitmap.update(lowest_free(bitmap), 1), fill_zero(ram, frame as int, PAGE_SIZE as int))
        } else {
            (bitmap, ram)
        };
        if before.shared@[id as int] is None {
            lemma_free_count_positive(bitmap);
            lemma_lowest_free(bitmap);
            lemma_free_count_update(bitmap, lowest_free(bitmap), 1);
            assert(frame == 0x40_0000 + lowest_free(bitmap) * 0x1000);
            assert(only_fresh(bitmap, ram, cleared.0, cleared.1)) by {
                assert forall|a: int|
                    0 <= a < KERNEL_PHYS_WINDOW_SIZE && frame_in_use(
                        bitmap,
                        frame_base(a),
                    ) implies #[trigger] cleared.1[a] == ram[a] by {
                    assert(frame_base(a) != frame);
                }
            }
        }
        lemma_fresh_kept(pgd, bitmap, ram, cleared.0, cleared.1);
        lemma_fresh_kept(vm.pgd, bitmap, ram, cleared.0, cleared.1);
        assert(apart(pgd, vm.pgd, cleared.1)) by {
            assert forall|a: int| !(#[trigger] pgd.owns(cleared.1, a) && vm.pgd.owns(cleared.1, a)) by {
                if pgd.owns(cleared.1, a) && vm.pgd.owns(cleared.1, a) {
                    assert(pgd.owns(ram, a) && vm.pgd.owns(ram, a));
                }
            }
        }
        crate::paging::pagemem::lemma_indices(vaddr);
        assert(pgd.entry(cleared.1, crate::paging::pagemem::pde_index(vaddr)) == pgd.entry(
            ram,
            crate::paging::pagemem::pde_index(vaddr),
        ));
        if !present(pgd.pde(cleared.1, vaddr)) {
            lemma_free_count_positive(cleared.0);
        }
        lemma_mapped_raw(pgd, cleared.0, cleared.1, vaddr, frame | 7);
        lemma_other_kept(pgd, vm.pgd, cleared.0, cleared.1, after.mem.bitmap(), after.mem.ram());
        crate::paging::effects::lemma_same_walks(vm.pgd, ram, cleared.1, other);
        crate::paging::effects::lemma_same_walks(vm.pgd, cleared.1, after.mem.ram(), other);
    }
}

} // verus!
