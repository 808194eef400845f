use kernel_core::interrupts::{
    handle_double_fault, handle_page_fault, handle_timer_intr, interrupt_handler, interrupt_panic,
    InterruptContext, KernelPanic, TrapAction,
};
use kernel_core::paging::pagemem::{PageDirectory, PhysAddr, VirtAddr};
use kernel_core::paging::physmem::BITMAP_SIZE;
use kernel_core::pic::PortWrite;
use kernel_core::segmem::TssEntry;
use kernel_core::syscalls::{
    handle_syscall, sys_exit, sys_mmap_shared, sys_print_number, sys_write,
};
use kernel_core::tasks::{
    next_task_index, schedule, switch_to, ContextSwitch, Kernel, Task, MAX_TASKS, NO_TASK,
    TASK_FRAMES, TASK_KERNEL_STACK, TASK_USER_STACK,
};
use kernel_core::userland_tasks::{exit, mmap_shared, print_number, SyscallArgs};

const TASK1_ENTRY: u32 = 0x0010_2000;
const TASK2_ENTRY: u32 = 0x0010_3000;
const RESUME: u32 = 0x0010_0abc;
const ESP: u32 = 0x1337_0f00;

fn two_tasks() -> Kernel {
    let mut kernel = Kernel::new();
    Task::new(&mut kernel, b"first_task", TASK1_ENTRY, RESUME);
    Task::new(&mut kernel, b"second_task", TASK2_ENTRY, RESUME);
    kernel
}

fn task(kernel: &Kernel, slot: usize) -> Task {
    kernel.tasks[slot].expect("slot holds a task")
}

fn trap(args: SyscallArgs) -> InterruptContext {
    args.trap(&InterruptContext::default())
}

/// Stores `bytes` at the virtual address `vaddr` of the active address space.
fn poke(kernel: &mut Kernel, vaddr: u32, bytes: &[u8]) {
    let pgd = PageDirectory::from_paddr(kernel.cr3);
    for (i, byte) in bytes.iter().enumerate() {
        let at = vaddr + i as u32;
        let frame = pgd.translate(&kernel.mem, VirtAddr(at)).page.expect("address is mapped");
        kernel.mem.write_u8(PhysAddr(frame.0 + at % 0x1000), *byte);
    }
}

fn read_word(kernel: &Kernel, pgd: &PageDirectory, vaddr: u32) -> u32 {
    let frame = pgd.translate(&kernel.mem, VirtAddr(vaddr)).page.expect("address is mapped");
    kernel.mem.read_u32(PhysAddr(frame.0 + vaddr % 0x1000))
}

fn log_of(res: Result<TrapAction, KernelPanic>) -> Vec<u8> {
    match res {
        Ok(TrapAction::Return { log }) => log,
        other => panic!("expected a return to the task, got {:?}", other),
    }
}

#[test]
fn boot_leaves_the_kernel_space_active() {
    let kernel = Kernel::new();
    assert_eq!(kernel.cr3, kernel.kernel_vspace.get_pgd_paddr());
    assert_eq!(kernel.current_task_idx, NO_TASK);
    assert_eq!(kernel.tasks.len(), MAX_TASKS);
    assert!(kernel.tasks.iter().all(|slot| slot.is_none()));
    assert!(kernel.shared.iter().all(|slot| slot.is_none()));
    assert_eq!(kernel.tss, TssEntry::default());
    // Directory, bitmap, its table and 32 tables for the window.
    assert_eq!(kernel.mem.free_frames(), BITMAP_SIZE - 35);
    let pgd = kernel.kernel_vspace.pgd;
    assert_eq!(pgd.translate(&kernel.mem, VirtAddr(0x0040_0123)).page, Some(PhysAddr(0x0040_0000)));
}

#[test]
fn task_new_builds_stacks_and_address_space() {
    let mut kernel = Kernel::new();
    let boot_cr3 = kernel.cr3;
    let free_before = kernel.mem.free_frames();
    let slot = Task::new(&mut kernel, b"first_task", TASK1_ENTRY, RESUME);
    assert_eq!(slot, 0);
    assert_eq!(kernel.cr3, boot_cr3);
    assert_eq!(kernel.current_task_idx, NO_TASK);
    let created = task(&kernel, 0);
    assert_eq!(&created.name, b"first_task\0\0\0\0\0\0");
    assert_eq!(created.kernel_sp, 0x1337_1000 - 80);
    assert_eq!(created.user_sp, 0x1337_2000);
    assert_eq!((TASK_KERNEL_STACK, TASK_USER_STACK), (0x1337_0000, 0x1337_1000));
    assert!(free_before - kernel.mem.free_frames() <= TASK_FRAMES);
    assert_eq!(free_before - kernel.mem.free_frames(), 38);

    let pgd = created.vspace.pgd;
    assert_ne!(pgd.get_paddr(), boot_cr3);
    // The window is mapped one to one, writable, for the kernel only.
    let window = pgd.translate(&kernel.mem, VirtAddr(0x0345_6000));
    assert_eq!(window.page, Some(PhysAddr(0x0345_6000)));
    assert_eq!(kernel.mem.read_u32(window.pte.unwrap()), 0x0345_6003);
    // The entry is mapped at its own address, for the user to read.
    let code = pgd.translate(&kernel.mem, VirtAddr(TASK1_ENTRY));
    assert_eq!(code.page, Some(PhysAddr(TASK1_ENTRY)));
    assert_eq!(kernel.mem.read_u32(code.pte.unwrap()), TASK1_ENTRY | 5);
    // The kernel stack is for ring 0, the user stack for ring 3.
    let kernel_stack = pgd.translate(&kernel.mem, VirtAddr(TASK_KERNEL_STACK));
    let user_stack = pgd.translate(&kernel.mem, VirtAddr(TASK_USER_STACK));
    assert_eq!(kernel.mem.read_u32(kernel_stack.pte.unwrap()) & 0xfff, 3);
    assert_eq!(kernel.mem.read_u32(user_stack.pte.unwrap()) & 0xfff, 7);
    assert_ne!(kernel_stack.page, user_stack.page);
    assert!(kernel.mem.is_allocated(kernel_stack.page.unwrap()));
    assert!(kernel.mem.is_allocated(user_stack.page.unwrap()));
    assert_eq!(pgd.translate(&kernel.mem, VirtAddr(0x1337_2000)).page, None);

    // The frames from which the first switch resumes in ring 3.
    let expected: [u32; 20] = [
        0x23, 0, 0, 0, RESUME, // saved data segment, padding, return address
        0, 0, 0, 0, 0, 0, 0, 0, // general-purpose registers
        0, 0, // vector and error code
        TASK1_ENTRY, 0x1b, 0x200, 0x1337_2000, 0x23,
    ];
    for (i, word) in expected.iter().enumerate() {
        assert_eq!(read_word(&kernel, &pgd, created.kernel_sp + 4 * i as u32), *word, "word {}", i);
    }
}

#[test]
fn tasks_fill_the_first_empty_slot() {
    let mut kernel = two_tasks();
    assert_eq!(&task(&kernel, 1).name, b"second_task\0\0\0\0\0");
    assert!(kernel.tasks[2].is_none());
    assert_ne!(task(&kernel, 0).vspace.pgd, task(&kernel, 1).vspace.pgd);
    kernel.tasks[0] = None;
    assert_eq!(Task::new(&mut kernel, b"0123456789abcdef", TASK1_ENTRY, RESUME), 0);
    assert_eq!(&task(&kernel, 0).name, b"0123456789abcdef");
    assert_eq!(Task::new(&mut kernel, b"", TASK1_ENTRY, RESUME), 2);
    assert_eq!(task(&kernel, 2).name, [0u8; 16]);
    // The address space of the second task is as it was.
    let second = task(&kernel, 1).vspace.pgd;
    assert_eq!(second.translate(&kernel.mem, VirtAddr(TASK2_ENTRY)).page, Some(PhysAddr(TASK2_ENTRY)));
}

#[test]
fn next_task_goes_round_and_skips_empty_slots() {
    let mut kernel = two_tasks();
    Task::new(&mut kernel, b"third", TASK1_ENTRY, RESUME);
    kernel.tasks[1] = None;
    kernel.tasks[7] = kernel.tasks[0];
    assert_eq!(next_task_index(&kernel.tasks, NO_TASK), 0);
    assert_eq!(next_task_index(&kernel.tasks, 0), 2);
    assert_eq!(next_task_index(&kernel.tasks, 1), 2);
    assert_eq!(next_task_index(&kernel.tasks, 2), 7);
    assert_eq!(next_task_index(&kernel.tasks, 7), 0);
    assert_eq!(next_task_index(&kernel.tasks, 9), 0);
    kernel.tasks[0] = None;
    kernel.tasks[2] = None;
    assert_eq!(next_task_index(&kernel.tasks, 7), 7);
    assert_eq!(next_task_index(&kernel.tasks, NO_TASK), 7);
}

#[test]
fn schedule_alternates_between_two_tasks() {
    let mut kernel = two_tasks();
    let first = task(&kernel, 0);
    let second = task(&kernel, 1);
    let boot_cr3 = kernel.cr3;

    // The first switch enters the first task; no stack pointer is saved.
    let plan = schedule(&mut kernel, ESP);
    assert_eq!(
        plan,
        ContextSwitch {
            save_prev: false,
            reload_cr3: true,
            cr3: first.vspace.get_pgd_paddr(),
            esp: first.kernel_sp,
        }
    );
    assert_ne!(plan.cr3, boot_cr3);
    assert_eq!(kernel.current_task_idx, 0);
    assert_eq!(kernel.cr3, first.vspace.get_pgd_paddr());
    assert_eq!(kernel.tss.esp0, 0x1337_1000);
    assert_eq!(task(&kernel, 0).kernel_sp, first.kernel_sp);

    let plan = schedule(&mut kernel, 0x1337_0e00);
    assert_eq!(
        plan,
        ContextSwitch {
            save_prev: true,
            reload_cr3: true,
            cr3: second.vspace.get_pgd_paddr(),
            esp: second.kernel_sp,
        }
    );
    assert_eq!(kernel.current_task_idx, 1);
    assert_eq!(task(&kernel, 0).kernel_sp, 0x1337_0e00);
    assert_eq!(kernel.tss.esp0, second.kernel_sp + 80);

    let plan = schedule(&mut kernel, 0x1337_0d00);
    assert_eq!(plan.cr3, first.vspace.get_pgd_paddr());
    assert_eq!(plan.esp, 0x1337_0e00);
    assert_eq!(kernel.current_task_idx, 0);
    assert_eq!(task(&kernel, 1).kernel_sp, 0x1337_0d00);
    assert_eq!(kernel.tss.esp0, 0x1337_0e00 + 80);
}

#[test]
fn a_single_task_is_switched_to_itself() {
    let mut kernel = Kernel::new();
    Task::new(&mut kernel, b"only", TASK1_ENTRY, RESUME);
    let only = task(&kernel, 0);
    schedule(&mut kernel, ESP);
    let plan = schedule(&mut kernel, 0x1337_0e00);
    assert_eq!(
        plan,
        ContextSwitch {
            save_prev: false,
            reload_cr3: false,
            cr3: only.vspace.get_pgd_paddr(),
            esp: only.kernel_sp,
        }
    );
    assert_eq!(task(&kernel, 0).kernel_sp, only.kernel_sp);
    assert_eq!(kernel.current_task_idx, 0);
}

#[test]
fn switch_to_records_the_stack_of_the_task_left() {
    let mut kernel = two_tasks();
    let second = task(&kernel, 1);
    let plan = switch_to(&mut kernel, 0, 1, 0x1337_0abc);
    assert!(plan.save_prev);
    assert_eq!(plan.esp, second.kernel_sp);
    assert_eq!(task(&kernel, 0).kernel_sp, 0x1337_0abc);
    assert_eq!(kernel.tss.esp0, second.kernel_sp + 20 + 60);
    assert_eq!(kernel.cr3, second.vspace.get_pgd_paddr());
    let again = switch_to(&mut kernel, 1, 1, 0x1337_0123);
    assert!(!again.save_prev);
    assert!(!again.reload_cr3);
    assert_eq!(task(&kernel, 1).kernel_sp, second.kernel_sp);
}

#[test]
fn timer_acknowledges_and_schedules() {
    let mut kernel = two_tasks();
    let mut ctx = InterruptContext::default();
    ctx.nr = 0x20;
    match interrupt_handler(&mut kernel, &ctx, 0, ESP) {
        Ok(TrapAction::Switch { eoi, switch }) => {
            assert_eq!(eoi, PortWrite { port: 0x20, value: 0x20 });
            assert_eq!(switch.cr3, task(&kernel, 0).vspace.get_pgd_paddr());
        }
        other => panic!("expected a switch, got {:?}", other),
    }
    assert_eq!(kernel.current_task_idx, 0);
    match handle_timer_intr(&mut kernel, &ctx, ESP) {
        Ok(TrapAction::Switch { switch, .. }) => assert!(switch.save_prev),
        other => panic!("expected a switch, got {:?}", other),
    }
    assert_eq!(kernel.current_task_idx, 1);
}

#[test]
fn timer_without_a_task_halts() {
    let mut kernel = Kernel::new();
    let mut ctx = InterruptContext::default();
    ctx.nr = 0x20;
    match interrupt_handler(&mut kernel, &ctx, 0, ESP) {
        Err(panic) => {
            assert_eq!(panic, KernelPanic::NoTask);
            assert_eq!(panic.message(), "called `Option::unwrap()` on a `None` value");
        }
        other => panic!("expected a panic, got {:?}", other),
    }
    assert_eq!(kernel.current_task_idx, NO_TASK);
}

#[test]
fn write_syscall_logs_the_bytes() {
    let mut kernel = two_tasks();
    schedule(&mut kernel, ESP);
    let buffer = TASK_USER_STACK + 0x100;
    poke(&mut kernel, buffer, b"hello\n");
    let res = interrupt_handler(&mut kernel, &trap(kernel_core::userland_tasks::write(buffer, 6)), 0, ESP);
    assert_eq!(log_of(res), b"hello\n");
    // Part of the buffer only.
    let res = handle_syscall(&mut kernel, &trap(kernel_core::userland_tasks::write(buffer + 1, 3)));
    assert_eq!(res, Ok(b"ell".to_vec()));
    assert_eq!(sys_write(&kernel, buffer, 0), Ok(Vec::new()));
    // A buffer that crosses from the kernel stack page into the user stack page.
    poke(&mut kernel, TASK_USER_STACK - 2, "h\u{e9}llo".as_bytes());
    assert_eq!(sys_write(&kernel, TASK_USER_STACK - 2, 6), Ok("h\u{e9}llo".as_bytes().to_vec()));
}

#[test]
fn write_syscall_rejects_bytes_that_are_not_utf8() {
    let mut kernel = two_tasks();
    schedule(&mut kernel, ESP);
    let buffer = TASK_USER_STACK;
    poke(&mut kernel, buffer, &[b'o', b'k', 0xff, 0xfe]);
    assert_eq!(sys_write(&kernel, buffer, 2), Ok(b"ok".to_vec()));
    assert_eq!(sys_write(&kernel, buffer, 3), Err(KernelPanic::InvalidUtf8));
    // A sequence that is cut short is not UTF-8 either.
    poke(&mut kernel, buffer, "\u{20ac}".as_bytes());
    assert_eq!(sys_write(&kernel, buffer, 3), Ok("\u{20ac}".as_bytes().to_vec()));
    assert_eq!(sys_write(&kernel, buffer, 2), Err(KernelPanic::InvalidUtf8));
    let res = interrupt_handler(&mut kernel, &trap(kernel_core::userland_tasks::write(buffer, 2)), 0, ESP);
    match res {
        Err(panic) => assert_eq!(panic.message(), "couldn't translate to uft8"),
        other => panic!("expected a panic, got {:?}", other),
    }
}

#[test]
fn write_syscall_faults_at_the_first_unmapped_byte() {
    let mut kernel = two_tasks();
    schedule(&mut kernel, ESP);
    assert_eq!(
        sys_write(&kernel, 0x5000_0000, 4),
        Err(KernelPanic::PageFault { addr: 0x5000_0000 })
    );
    // The user stack ends at 0x13372000.
    poke(&mut kernel, 0x1337_1ffe, b"ab");
    assert_eq!(sys_write(&kernel, 0x1337_1ffe, 2), Ok(b"ab".to_vec()));
    assert_eq!(
        sys_write(&kernel, 0x1337_1ffe, 4),
        Err(KernelPanic::PageFault { addr: 0x1337_2000 })
    );
    // Addresses wrap at 4 GiB, into the window.
    assert_eq!(sys_write(&kernel, 0xffff_ffff, 2), Err(KernelPanic::PageFault { addr: 0xffff_ffff }));
}

#[test]
fn print_number_syscall_logs_decimal() {
    let mut kernel = two_tasks();
    schedule(&mut kernel, ESP);
    let res = interrupt_handler(&mut kernel, &trap(print_number(42)), 0, ESP);
    assert_eq!(log_of(res), b"42\n");
    assert_eq!(sys_print_number(0), b"0\n");
    assert_eq!(sys_print_number(9), b"9\n");
    assert_eq!(sys_print_number(10), b"10\n");
    assert_eq!(sys_print_number(1_000_000), b"1000000\n");
    assert_eq!(sys_print_number(u32::MAX), b"4294967295\n");
}

#[test]
fn exit_syscall_halts_the_kernel() {
    let mut kernel = two_tasks();
    schedule(&mut kernel, ESP);
    match interrupt_handler(&mut kernel, &trap(exit()), 0, ESP) {
        Err(panic) => {
            assert_eq!(panic, KernelPanic::Exit);
            assert_eq!(panic, sys_exit());
            assert!(panic.message().contains("exit"));
            assert_eq!(panic.message(), "exit syscall");
        }
        other => panic!("expected a panic, got {:?}", other),
    }
}

#[test]
fn page_fault_halts_with_the_faulting_address() {
    let mut kernel = two_tasks();
    schedule(&mut kernel, ESP);
    let mut ctx = InterruptContext::default();
    ctx.nr = 0xe;
    ctx.err = 4;
    match interrupt_handler(&mut kernel, &ctx, 0xdead_beef, ESP) {
        Err(panic) => {
            assert_eq!(panic, KernelPanic::PageFault { addr: 0xdead_beef });
            assert_eq!(panic.message(), "Page fault @0xdeadbeef");
        }
        other => panic!("expected a panic, got {:?}", other),
    }
    assert_eq!(handle_page_fault(&ctx, 0), KernelPanic::PageFault { addr: 0 });
    assert_eq!(handle_page_fault(&ctx, 0).message(), "Page fault @0x0");
    assert_eq!(handle_page_fault(&ctx, 0x1000).message(), "Page fault @0x1000");
}

#[test]
fn double_fault_and_unknown_vectors_halt() {
    let mut kernel = two_tasks();
    let mut ctx = InterruptContext::default();
    ctx.nr = 8;
    match interrupt_handler(&mut kernel, &ctx, 0, ESP) {
        Err(panic) => {
            assert_eq!(panic, KernelPanic::DoubleFault);
            assert_eq!(panic, handle_double_fault(&ctx));
            assert_eq!(panic.message(), "double fault !");
        }
        other => panic!("expected a panic, got {:?}", other),
    }
    ctx.nr = 13;
    ctx.err = 0x1b;
    ctx.regs.eax = 77;
    match interrupt_handler(&mut kernel, &ctx, 0, ESP) {
        Err(panic) => {
            let cr3 = kernel.cr3.0;
            assert_eq!(panic, KernelPanic::Unhandled { ctx, cr3 });
            assert_eq!(panic, interrupt_panic(&ctx, cr3));
            assert_eq!(
                panic.message(),
                format!(
                    "\nInterrupt 13, error code 0x1b\nRegisters state:\n    eax 0x0000004d ecx 0x00000000 edx 0x00000000 ebx 0x00000000\n    esp 0x00000000 ebp 0x00000000 esi 0x00000000 edi 0x00000000\n    \n    cs:eip 0x00:0x00000000\n    ss:esp 0x00:0x00000000\n    eflags 0x0\n    ds     0x10\n    es     0x10\n    fs     0x10\n    gs     0x10\n    cr3    {:#x}\n",
                    cr3
                )
            );
        }
        other => panic!("expected a panic, got {:?}", other),
    }
    for vector in [0u32, 1, 7, 9, 0x1f, 0x21, 0x7f, 0x81, 0xff] {
        ctx.nr = vector;
        assert!(interrupt_handler(&mut kernel, &ctx, 0, ESP).is_err());
    }
}

#[test]
fn unknown_syscalls_halt_and_the_number_is_the_low_byte() {
    let mut kernel = two_tasks();
    schedule(&mut kernel, ESP);
    let unknown = trap(SyscallArgs { eax: 7, ecx: 0, edx: 0 });
    match handle_syscall(&mut kernel, &unknown) {
        Err(panic) => {
            assert_eq!(panic, KernelPanic::UnimplementedSyscall { number: 7 });
            assert_eq!(panic.message(), "Unimplemented syscall : 0x7");
        }
        other => panic!("expected a panic, got {:?}", other),
    }
    assert!(handle_syscall(&mut kernel, &trap(SyscallArgs { eax: 0, ecx: 0, edx: 0 })).is_err());
    // Only the low byte of EAX selects the call.
    let high = trap(SyscallArgs { eax: 0xabcd_0003, ecx: 5, edx: 0 });
    assert_eq!(handle_syscall(&mut kernel, &high), Ok(b"5\n".to_vec()));
}

#[test]
fn mmap_shared_maps_one_frame_into_both_tasks() {
    let mut kernel = two_tasks();
    // The first task maps the region at 0x10000000 and writes a counter.
    schedule(&mut kernel, ESP);
    let free_before = kernel.mem.free_frames();
    let res = interrupt_handler(&mut kernel, &trap(mmap_shared(0x1000_0000, 0)), 0, ESP);
    assert_eq!(log_of(res), b"");
    let frame = kernel.shared[0].expect("the region has a frame");
    assert!(kernel.mem.is_allocated(frame));
    // The shared frame and a page table.
    assert_eq!(kernel.mem.free_frames(), free_before - 2);
    let first = task(&kernel, 0).vspace.pgd;
    let mapping = first.translate(&kernel.mem, VirtAddr(0x1000_0000));
    assert_eq!(mapping.page, Some(frame));
    assert_eq!(kernel.mem.read_u32(mapping.pte.unwrap()), frame.0 | 7);
    assert_eq!(read_word(&kernel, &first, 0x1000_0000), 0);

    // The second task maps the same region at 0x20000000.
    schedule(&mut kernel, ESP);
    assert_eq!(sys_mmap_shared(&mut kernel, VirtAddr(0x2000_0000), 0), Ok(()));
    assert_eq!(kernel.shared[0], Some(frame));
    let second = task(&kernel, 1).vspace.pgd;
    assert_eq!(second.translate(&kernel.mem, VirtAddr(0x2000_0000)).page, Some(frame));
    assert_eq!(second.translate(&kernel.mem, VirtAddr(0x1000_0000)).page, None);
    assert_eq!(first.translate(&kernel.mem, VirtAddr(0x2000_0000)).page, None);

    // What the first task writes, the second reads and prints: the
    // numbers never go down.
    let mut log: Vec<u8> = Vec::new();
    for counter in [1u32, 2, 3, 10, 11, 4_000_000_000] {
        schedule(&mut kernel, ESP);
        assert_eq!(kernel.current_task_idx, 0);
        first.write_words(&mut kernel.mem, VirtAddr(0x1000_0000), &vec![counter]);
        schedule(&mut kernel, ESP);
        assert_eq!(kernel.current_task_idx, 1);
        let seen = read_word(&kernel, &second, 0x2000_0000);
        assert_eq!(seen, counter);
        log.extend_from_slice(b"task 2 : ");
        log.extend(log_of(interrupt_handler(&mut kernel, &trap(print_number(seen)), 0, ESP)));
    }
    assert_eq!(
        String::from_utf8(log).unwrap(),
        "task 2 : 1\ntask 2 : 2\ntask 2 : 3\ntask 2 : 10\ntask 2 : 11\ntask 2 : 4000000000\n"
    );
}

#[test]
fn mmap_shared_regions_are_distinct_and_cleared() {
    let mut kernel = two_tasks();
    schedule(&mut kernel, ESP);
    // Leave something in the frame that the region will take.
    let next = kernel.mem.alloc_phys();
    kernel.mem.write_u32(next, 0xffff_ffff);
    kernel.mem.free_phys(next);
    assert_eq!(sys_mmap_shared(&mut kernel, VirtAddr(0x1000_0000), 9), Ok(()));
    assert_eq!(kernel.shared[9], Some(next));
    assert_eq!(kernel.mem.read_u32(next), 0);
    assert_eq!(sys_mmap_shared(&mut kernel, VirtAddr(0x1000_1000), 3), Ok(()));
    assert_ne!(kernel.shared[3], kernel.shared[9]);
    // Mapping a region again, elsewhere, takes no frame.
    let free_before = kernel.mem.free_frames();
    assert_eq!(sys_mmap_shared(&mut kernel, VirtAddr(0x1000_2000), 9), Ok(()));
    assert_eq!(kernel.mem.free_frames(), free_before);
    let pgd = task(&kernel, 0).vspace.pgd;
    assert_eq!(pgd.translate(&kernel.mem, VirtAddr(0x1000_2000)).page, Some(next));
    assert_eq!(pgd.translate(&kernel.mem, VirtAddr(0x1000_0000)).page, Some(next));
}

#[test]
fn mmap_shared_rejects_ids_out_of_range() {
    let mut kernel = two_tasks();
    schedule(&mut kernel, ESP);
    let free_before = kernel.mem.free_frames();
    match handle_syscall(&mut kernel, &trap(mmap_shared(0x1000_0000, 10))) {
        Err(panic) => {
            assert_eq!(panic, KernelPanic::InvalidSharedId { id: 10 });
            assert_eq!(panic.message(), "invalid shared mapping id : 10");
        }
        other => panic!("expected a panic, got {:?}", other),
    }
    assert_eq!(
        sys_mmap_shared(&mut kernel, VirtAddr(0x1000_0000), 0xffff_ffff),
        Err(KernelPanic::InvalidSharedId { id: 0xffff_ffff })
    );
    assert_eq!(kernel.mem.free_frames(), free_before);
    assert!(kernel.shared.iter().all(|slot| slot.is_none()));
}

#[test]
fn mmap_shared_halts_when_frames_run_out() {
    let mut kernel = two_tasks();
    schedule(&mut kernel, ESP);
    // Leave one frame only: the region and its page table need two.
    while kernel.mem.free_frames() > 1 {
        kernel.mem.alloc_phys();
    }
    match handle_syscall(&mut kernel, &trap(mmap_shared(0x1000_0000, 0))) {
        Err(panic) => {
            assert_eq!(panic, KernelPanic::OutOfMemory);
            assert_eq!(panic.message(), "Out of memory");
        }
        other => panic!("expected a panic, got {:?}", other),
    }
    assert_eq!(kernel.mem.free_frames(), 1);
    assert_eq!(kernel.shared[0], None);
    // Where the page table exists, one frame is enough.
    assert_eq!(sys_mmap_shared(&mut kernel, VirtAddr(TASK_USER_STACK + 0x1000), 0), Ok(()));
    assert_eq!(kernel.mem.free_frames(), 0);
    assert_eq!(
        sys_mmap_shared(&mut kernel, VirtAddr(TASK_USER_STACK + 0x2000), 1),
        Err(KernelPanic::OutOfMemory)
    );
    assert_eq!(sys_mmap_shared(&mut kernel, VirtAddr(TASK_USER_STACK + 0x2000), 0), Ok(()));
}

#[test]
fn both_tasks_say_hello() {
    let mut kernel = two_tasks();
    let mut log: Vec<u8> = Vec::new();
    for text in ["hello from userland task1!\n", "hello from userland task2!\n"] {
        let mut ctx = InterruptContext::default();
        ctx.nr = 0x20;
        assert!(interrupt_handler(&mut kernel, &ctx, 0, ESP).is_ok());
        // The text of a task lies with its code.
        let entry = if kernel.current_task_idx == 0 { TASK1_ENTRY } else { TASK2_ENTRY };
        poke(&mut kernel, entry + 0x800, text.as_bytes());
        let res = interrupt_handler(&mut kernel, &trap(kernel_core::userland_tasks::write(entry + 0x800, text.len() as u32)), 0, ESP);
        log.extend(log_of(res));
    }
    let log = String::from_utf8(log).unwrap();
    assert!(log.contains("hello from userland task1!"));
    assert!(log.contains("hello from userland task2!"));
}

#[test]
fn user_stubs_carry_the_call_in_registers() {
    assert_eq!(exit(), SyscallArgs { eax: 1, ecx: 0, edx: 0 });
    assert_eq!(kernel_core::userland_tasks::write(0x1234, 6), SyscallArgs { eax: 2, ecx: 0x1234, edx: 6 });
    assert_eq!(print_number(42), SyscallArgs { eax: 3, ecx: 42, edx: 0 });
    assert_eq!(mmap_shared(0x1000_0000, 5), SyscallArgs { eax: 10, ecx: 0x1000_0000, edx: 5 });
    let mut at = InterruptContext::default();
    at.regs.ebx = 99;
    at.frame.ip = 0x400;
    let ctx = print_number(42).trap(&at);
    assert_eq!(ctx.nr, 0x80);
    assert_eq!(ctx.err, 0xffff_ffff);
    assert_eq!((ctx.regs.eax, ctx.regs.ecx, ctx.regs.edx), (3, 42, 0));
    assert_eq!(ctx.regs.ebx, 99);
    assert_eq!(ctx.frame.ip, 0x400);
}

#[test]
fn register_dump_has_the_documented_layout() {
    let mut ctx = InterruptContext::default();
    ctx.nr = 6;
    ctx.err = 0xffff_ffff;
    ctx.regs.eax = 0xdead_beef;
    ctx.regs.ecx = 1;
    ctx.regs.edx = 0x10;
    ctx.regs.ebx = 0xabc;
    ctx.regs.esp = 0x1337_0fc0;
    ctx.regs.ebp = 0x1337_1ff0;
    ctx.regs.esi = 0xffff_ffff;
    ctx.regs.edi = 0x8000_0000;
    ctx.frame.ip = 0x0010_2004;
    ctx.frame.cs = 0x1b;
    ctx.frame.eflags = 0x202;
    ctx.frame.sp = 0x1337_1ff8;
    ctx.frame.ss = 0x23;
    let text = interrupt_panic(&ctx, 0x0042_5000).message();
    let expected = format!(
        "\nInterrupt {}, error code {:#x}\nRegisters state:\n    eax {:#010x} ecx {:#010x} edx {:#010x} ebx {:#010x}\n    esp {:#010x} ebp {:#010x} esi {:#010x} edi {:#010x}\n    \n    cs:eip {:#04x}:{:#010x}\n    ss:esp {:#04x}:{:#010x}\n    eflags {:#x}\n    ds     {:#x}\n    es     {:#x}\n    fs     {:#x}\n    gs     {:#x}\n    cr3    {:#x}\n",
        ctx.nr, ctx.err, ctx.regs.eax, ctx.regs.ecx, ctx.regs.edx, ctx.regs.ebx, ctx.regs.esp,
        ctx.regs.ebp, ctx.regs.esi, ctx.regs.edi, ctx.frame.cs, ctx.frame.ip, ctx.frame.ss,
        ctx.frame.sp, ctx.frame.eflags, 0x10, 0x10, 0x10, 0x10, 0x0042_5000
    );
    assert_eq!(text, expected);
    // Selectors of one digit are padded, longer ones are not cut.
    ctx.frame.cs = 0x8;
    ctx.frame.ss = 0x1234;
    let text = interrupt_panic(&ctx, 0).message();
    assert!(text.contains("cs:eip 0x08:0x00102004"));
    assert!(text.contains("ss:esp 0x1234:0x13371ff8"));
    assert!(text.contains("cr3    0x0\n"));
}

#[test]
fn switch_vspace_loads_the_directory() {
    let mut kernel = two_tasks();
    let second = task(&kernel, 1).vspace;
    let free_before = kernel.mem.free_frames();
    kernel_core::tasks::switch_vspace(&mut kernel, &second);
    assert_eq!(kernel.cr3, second.get_pgd_paddr());
    assert_eq!(kernel.current_task_idx, NO_TASK);
    assert_eq!(kernel.mem.free_frames(), free_before);
    let boot = kernel.kernel_vspace;
    kernel_core::tasks::switch_vspace(&mut kernel, &boot);
    assert_eq!(kernel.cr3, boot.get_pgd_paddr());
}
