//! Ring 3 tasks, the kernel state that holds them, context switches and
//! round-robin scheduling.

use vstd::prelude::*;
use crate::interrupts::{InterruptContext, InterruptFrame, Registers, INTERRUPT_CONTEXT_SIZE};
use crate::paging::effects::{
    absent_tables, apart, blocks, building, lemma_absent_tables_all, map_count, needs_table,
    tables_needed, fresh_space, identity_page, lemma_building_confined, lemma_building_written,
    lemma_fresh_apart, lemma_fresh_kept, lemma_frame_kept, lemma_maps_kept_by_map,
    lemma_maps_kept_by_map_raw, map_effect, map_raw_effect, maps_to, nth_page,
    only_fresh, outside, page_mapped,
};
use crate::paging::pagemem::{
    in_frame, lemma_indices, page_of, pde_index, present, PageDirectory, PhysAddr, VirtAddr,
    PAGE_PRESENT, PAGE_SIZE, PAGE_USER,
};
use crate::paging::physmem::{
    fill_bytes, frame_in_use, free_count, lemma_frame_of_index, lemma_free_count_all,
    lemma_store_words, store_words, word_at, PhysMem, BITMAP_SIZE,
};
use crate::paging::virtmem::{is_lowest_run, lemma_lowest_run, run_free, VirtMem, VMEM_PAGES};
use crate::paging::{
    identity_mapped, setup_identity_mapping, KERNEL_PHYS_WINDOW_PAGES, KERNEL_PHYS_WINDOW_SIZE,
    KERNEL_VMEM_ALLOCATOR_BITMAP, KERNEL_VMEM_BASE,
};
use crate::segmem::{TssEntry, USER_CODE_SELECTOR, USER_DATA_SELECTOR};

verus! {

/// Size in pages of the kernel stack of a task.
pub const KERNEL_STACK_SIZE: usize = 1;

/// Size in pages of the user stack of a task.
pub const USER_STACK_SIZE: usize = 1;

/// Maximum number of tasks that can run on the system.
pub const MAX_TASKS: usize = 10;

/// Maximum number of shared mappings.
pub const MAX_SHARED_MAPPINGS: usize = 10;

/// Value of the current-task index before the first task is scheduled.
pub const NO_TASK: usize = usize::MAX;

/// Bytes that the switch keeps on a suspended kernel stack below the
/// interrupt context: the return address, three words of padding and the
/// saved data segment selector.
pub const SWITCH_FRAME_SIZE: u32 = 20;

/// Virtual address of the kernel stack of a new task: the first dynamic
/// page of its address space.
pub const TASK_KERNEL_STACK: u32 = 0x1337_0000;

/// Virtual address of the user stack of a new task: the second dynamic
/// page of its address space.
pub const TASK_USER_STACK: u32 = 0x1337_1000;

/// Number of words that a new task's kernel stack holds: the saved data
/// segment selector, three words of padding, the return address and the
/// interrupt context.
pub const INITIAL_STACK_WORDS: usize = 20;

/// Number of frames that the creation of a task takes: the directory, the
/// bitmap and its page table, 32 page tables for the physical window, the
/// two stacks and their page table.
pub const TASK_FRAMES: usize = 38;

/// All information needed to represent a task.
#[derive(Debug, Copy, Clone)]
pub struct Task {
    /// The name of the task, padded with zero bytes.
    pub name: [u8; 16],
    /// The address space of the task.
    pub vspace: VirtMem,
    /// The kernel stack pointer at which the next switch to the task
    /// resumes.
    pub kernel_sp: u32,
    /// Top of the user stack.
    pub user_sp: u32,
}

/// What the CPU is to do for a context switch.
#[derive(Debug, Copy, Clone, PartialEq, Eq, Structural)]
pub struct ContextSwitch {
    /// Whether the stack pointer of the task that is left has been
    /// recorded: it is when another task comes next.
    pub save_prev: bool,
    /// Whether CR3 has to be loaded: it has unless it holds `cr3` already.
    pub reload_cr3: bool,
    /// Physical address of the page directory of the task that comes next.
    pub cr3: PhysAddr,
    /// The kernel stack pointer at which the task that comes next resumes.
    pub esp: u32,
}

/// The process-wide state of the kernel.
pub struct Kernel {
    /// Physical memory and its frame allocator.
    pub mem: PhysMem,
    /// The task state segment.
    pub tss: TssEntry,
    /// Physical address of the page directory that the CPU uses.
    pub cr3: PhysAddr,
    /// The address space of the kernel itself.
    pub kernel_vspace: VirtMem,
    /// The task table: each slot is empty or holds a task.
    pub tasks: Vec<Option<Task>>,
    /// Index of the task that runs, or `NO_TASK`.
    pub current_task_idx: usize,
    /// The frame behind each shared mapping, once it has been asked for.
    pub shared: Vec<Option<PhysAddr>>,
}

/// `next` is the first slot after `current`, going round, that holds a
/// task; `current` is a slot, or -1 for a search that starts at slot 0.
pub open spec fn is_next_task(tasks: Seq<Option<Task>>, current: int, next: int) -> bool {
    &&& 0 <= next < MAX_TASKS
    &&& tasks[next] is Some
    &&& if current < next {
        forall|j: int| current < j < next ==> #[trigger] tasks[j] is None
    } else {
        &&& forall|j: int| current < j < MAX_TASKS ==> #[trigger] tasks[j] is None
        &&& forall|j: int| 0 <= j < next ==> #[trigger] tasks[j] is None
    }
}

/// `slot` is the first empty slot of the task table.
pub open spec fn is_first_empty(tasks: Seq<Option<Task>>, slot: int) -> bool {
    &&& 0 <= slot < tasks.len()
    &&& tasks[slot] is None
    &&& forall|j: int| 0 <= j < slot ==> #[trigger] tasks[j] is Some
}

/// The first slot after `current`, going round, that holds a task;
/// `current` is a slot or `NO_TASK`, from which the search starts at slot 0.
pub fn next_task_index(tasks: &Vec<Option<Task>>, current: usize) -> (next: usize)
    requires
        tasks.len() == MAX_TASKS,
        current == NO_TASK || current < MAX_TASKS,
        exists|i: int| 0 <= i < MAX_TASKS && #[trigger] tasks@[i] is Some,
    ensures
        next < MAX_TASKS,
        tasks[next as int] is Some,
        is_next_task(
            tasks@,
            if current == NO_TASK {
                -1
            } else {
                current as int
            },
            next as int,
        ),
{
    let first: usize = if current == NO_TASK {
        0
    } else {
        current + 1
    };
    let mut i: usize = first;
    while i < MAX_TASKS
        invariant
            tasks.len() == MAX_TASKS,
            first <= i <= MAX_TASKS,
            first == if current == NO_TASK {
                0
            } else {
                current + 1
            },
            forall|j: int| first <= j < i ==> #[trigger] tasks@[j] is None,
        decreases MAX_TASKS - i,
    {
        if tasks[i].is_some() {
            return i;
        }
        i += 1;
    }
    let mut i: usize = 0;
    while tasks[i].is_none()
        invariant
            tasks.len() == MAX_TASKS,
            first <= MAX_TASKS,
            first == if current == NO_TASK {
                0
            } else {
                current + 1
            },
            i < first,
            forall|j: int| first <= j < MAX_TASKS ==> #[trigger] tasks@[j] is None,
            forall|j: int| 0 <= j < i ==> #[trigger] tasks@[j] is None,
            exists|k: int| 0 <= k < MAX_TASKS && #[trigger] tasks@[k] is Some,
        decreases MAX_TASKS - i,
    {
        i += 1;
    }
    i
}

impl Kernel {
    /// The address space with number `i`: that of the task in slot `i`,
    /// or, for `i == MAX_TASKS`, that of the kernel.
    pub open spec fn space(&self, i: int) -> Option<VirtMem> {
        if i == MAX_TASKS {
            Some(self.kernel_vspace)
        } else if 0 <= i < MAX_TASKS {
            match self.tasks[i] {
                Some(task) => Some(task.vspace),
                None => None,
            }
        } else {
            None
        }
    }

    /// The current task index, or -1 before the first task is scheduled.
    pub open spec fn current(&self) -> int {
        if self.current_task_idx == NO_TASK {
            -1
        } else {
            self.current_task_idx as int
        }
    }

    /// The kernel state is well formed: physical memory is; the tables
    /// have their fixed sizes; every address space is well formed, and no
    /// two of them share a frame; CR3 holds the directory of one of them;
    /// the current task, if any, exists; and every suspended kernel stack
    /// pointer leaves room for the frames that a switch expects above it.
    pub open spec fn wf(&self) -> bool {
        &&& self.mem.wf()
        &&& self.tasks.len() == MAX_TASKS
        &&& self.shared.len() == MAX_SHARED_MAPPINGS
        &&& forall|i: int|
            0 <= i <= MAX_TASKS && (#[trigger] self.space(i)) is Some ==> self.space(i).unwrap().wf(
                &self.mem,
            )
        &&& forall|i: int, j: int|
            0 <= i <= MAX_TASKS && 0 <= j <= MAX_TASKS && i != j && (#[trigger] self.space(i)) is Some
                && (#[trigger] self.space(j)) is Some ==> apart(
                self.space(i).unwrap().pgd,
                self.space(j).unwrap().pgd,
                self.mem.ram(),
            )
        &&& exists|i: int|
            0 <= i <= MAX_TASKS && (#[trigger] self.space(i)) is Some && self.space(i).unwrap().pgd.table
                == self.cr3
        &&& self.current_task_idx == NO_TASK || (self.current_task_idx < MAX_TASKS
            && self.tasks[self.current_task_idx as int] is Some)
        &&& forall|i: int|
            0 <= i < MAX_TASKS && (#[trigger] self.tasks[i]) is Some ==> self.tasks[i].unwrap().kernel_sp
                + SWITCH_FRAME_SIZE + INTERRUPT_CONTEXT_SIZE <= u32::MAX
        &&& forall|i: int|
            0 <= i < MAX_SHARED_MAPPINGS && (#[trigger] self.shared[i]) is Some ==> self.mem.in_use(
                self.shared[i].unwrap().0,
            )
    }

    /// The directory that CR3 holds is that of one of the address spaces,
    /// so it is well formed.
    pub proof fn lemma_current_space(&self)
        requires
            self.wf(),
        ensures
            PageDirectory::at(self.cr3).wf(&self.mem),
            exists|i: int|
                0 <= i <= MAX_TASKS && (#[trigger] self.space(i)) is Some && self.space(i).unwrap().pgd
                    == PageDirectory::at(self.cr3),
    {
        let c = choose|i: int|
            0 <= i <= MAX_TASKS && (#[trigger] self.space(i)) is Some && self.space(i).unwrap().pgd.table
                == self.cr3;
        assert(self.space(c).unwrap().wf(&self.mem));
        assert(self.space(c).unwrap().pgd == PageDirectory::at(self.cr3));
    }

    /// The kernel state after boot: physical memory all free but for the
    /// kernel's own address space, which maps the physical window one to
    /// one and is the active one; no task, no shared mapping.
    pub fn new() -> (kernel: Self)
        ensures
            kernel.wf(),
            kernel.kernel_vspace == VirtMem::created_space(Seq::new(BITMAP_SIZE as nat, |i: int| 0u8)),
            (kernel.mem.bitmap(), kernel.mem.ram()) == window_memory(
                Seq::new(BITMAP_SIZE as nat, |i: int| 0u8),
                Seq::new(KERNEL_PHYS_WINDOW_SIZE as nat, |i: int| 0u8),
            ),
            kernel.cr3 == kernel.kernel_vspace.pgd.table,
            kernel.current_task_idx == NO_TASK,
            kernel.tss == TssEntry::zeroed(),
            forall|i: int| 0 <= i < MAX_TASKS ==> #[trigger] kernel.tasks[i] is None,
            forall|i: int| 0 <= i < MAX_SHARED_MAPPINGS ==> #[trigger] kernel.shared[i] is None,
            forall|k: int|
                0 <= k < KERNEL_PHYS_WINDOW_PAGES ==> #[trigger] crate::paging::effects::identity_page(
                    kernel.kernel_vspace.pgd,
                    kernel.mem.ram(),
                    k,
                ),
            free_count(kernel.mem.bitmap()) + 35 == BITMAP_SIZE,
    {
        let mut mem = PhysMem::new();
        proof {
            lemma_free_count_all(mem.bitmap());
            assert(mem.bitmap() =~= Seq::new(BITMAP_SIZE as nat, |i: int| 0u8));
            assert(mem.ram() =~= Seq::new(KERNEL_PHYS_WINDOW_SIZE as nat, |i: int| 0u8));
        }
        let kernel_vspace = VirtMem::new(&mut mem);
        let ghost bitmap1 = mem.bitmap();
        let ghost ram1 = mem.ram();
        proof {
            lemma_window_tables_absent(kernel_vspace.pgd, ram1);
        }
        setup_identity_mapping(&kernel_vspace, &mut mem);
        let mut tasks: Vec<Option<Task>> = Vec::new();
        let mut shared: Vec<Option<PhysAddr>> = Vec::new();
        let mut i: usize = 0;
        while i < MAX_TASKS
            invariant
                i <= MAX_TASKS,
                tasks.len() == i,
                shared.len() == i,
                forall|j: int| 0 <= j < i ==> #[trigger] tasks[j] is None,
                forall|j: int| 0 <= j < i ==> #[trigger] shared[j] is None,
            decreases MAX_TASKS - i,
        {
            tasks.push(None);
            shared.push(None);
            i += 1;
        }
        let kernel = Kernel {
            mem: mem,
            tss: TssEntry::default(),
            cr3: kernel_vspace.get_pgd_paddr(),
            kernel_vspace: kernel_vspace,
            tasks: tasks,
            current_task_idx: NO_TASK,
            shared: shared,
        };
        proof {
            crate::paging::effects::lemma_frame_kept(
                kernel_vspace.pgd,
                bitmap1,
                ram1,
                kernel.mem.bitmap(),
                kernel.mem.ram(),
                kernel_vspace.allocator_bitmap.0,
            );
            assert(kernel.space(MAX_TASKS as int) == Some(kernel_vspace));
            assert forall|i: int| 0 <= i <= MAX_TASKS && (#[trigger] kernel.space(i)) is Some implies i
                == MAX_TASKS by {}
        }
        kernel
    }
}

/// Records in the TSS where the kernel stack of the task in slot
/// `next` tops out, makes its address space the active one, and, where
/// another task is left, records `esp` as the stack pointer at which
/// that one resumes. Returns what the CPU is to do.
#[verifier::rlimit(50)]
pub fn switch_to(kernel: &mut Kernel, prev: usize, next: usize, esp: u32) -> (plan: ContextSwitch)
    requires
        old(kernel).wf(),
        prev < MAX_TASKS,
        next < MAX_TASKS,
        old(kernel).tasks[prev as int] is Some,
        old(kernel).tasks[next as int] is Some,
        esp + SWITCH_FRAME_SIZE + INTERRUPT_CONTEXT_SIZE <= u32::MAX,
    ensures
        final(kernel).wf(),
        plan == (ContextSwitch {
            save_prev: prev != next,
            reload_cr3: old(kernel).cr3 != old(kernel).tasks[next as int].unwrap().vspace.pgd.table,
            cr3: old(kernel).tasks[next as int].unwrap().vspace.pgd.table,
            esp: old(kernel).tasks[next as int].unwrap().kernel_sp,
        }),
        final(kernel).tss == (TssEntry {
            esp0: (old(kernel).tasks[next as int].unwrap().kernel_sp + SWITCH_FRAME_SIZE
                + INTERRUPT_CONTEXT_SIZE) as u32,
            ..old(kernel).tss
        }),
        final(kernel).cr3 == plan.cr3,
        final(kernel).tasks@ == if prev != next {
            old(kernel).tasks@.update(
                prev as int,
                Some(Task { kernel_sp: esp, ..old(kernel).tasks[prev as int].unwrap() }),
            )
        } else {
            old(kernel).tasks@
        },
        final(kernel).mem == old(kernel).mem,
        final(kernel).kernel_vspace == old(kernel).kernel_vspace,
        final(kernel).shared == old(kernel).shared,
        final(kernel).current_task_idx == old(kernel).current_task_idx,
{
    let ghost before = *kernel;
    let next_task = kernel.tasks[next].unwrap();
    let next_cr3 = next_task.vspace.get_pgd_paddr();
    // Update the esp0 field of the TSS.
    kernel.tss.update_esp0(next_task.kernel_sp + SWITCH_FRAME_SIZE + INTERRUPT_CONTEXT_SIZE);
    let plan = ContextSwitch {
        save_prev: prev != next,
        reload_cr3: kernel.cr3.0 != next_cr3.0,
        cr3: next_cr3,
        esp: next_task.kernel_sp,
    };
    if prev != next {
        // Save the kernel stack pointer of the task that is left.
        let mut prev_task = kernel.tasks[prev].unwrap();
        prev_task.kernel_sp = esp;
        kernel.tasks.set(prev, Some(prev_task));
    }
    kernel.cr3 = next_cr3;
    proof {
        assert forall|i: int| 0 <= i <= MAX_TASKS implies #[trigger] kernel.space(i) == before.space(
            i,
        ) by {}
        assert(kernel.space(next as int) is Some);
    }
    plan
}

/// Switches the virtual address space: CR3 is to hold the page directory
/// of `vmem`.
pub fn switch_vspace(kernel: &mut Kernel, vmem: &VirtMem)
    ensures
        final(kernel).cr3 == vmem.pgd.table,
        final(kernel).mem == old(kernel).mem,
        final(kernel).tss == old(kernel).tss,
        final(kernel).kernel_vspace == old(kernel).kernel_vspace,
        final(kernel).tasks == old(kernel).tasks,
        final(kernel).current_task_idx == old(kernel).current_task_idx,
        final(kernel).shared == old(kernel).shared,
{
    kernel.cr3 = vmem.get_pgd_paddr();
}

/// The slot of the task that a switch leaves: the current one, or slot 0
/// where no task has run yet.
pub open spec fn prev_slot(kernel: Kernel) -> int {
    if kernel.current_task_idx == NO_TASK {
        0
    } else {
        kernel.current_task_idx as int
    }
}

/// What `schedule` does to the kernel state `before`, giving `after`, and
/// the switch that it plans: the task that comes next is the first after
/// the current one, going round; the TSS tops out at its kernel stack; its
/// address space is the active one; and where another task is left, `esp`
/// is recorded as the stack pointer at which that one resumes.
pub open spec fn scheduled(before: Kernel, after: Kernel, esp: u32, plan: ContextSwitch) -> bool {
    let next = after.current_task_idx as int;
    let prev = prev_slot(before);
    &&& is_next_task(before.tasks@, before.current(), next)
    &&& plan == (ContextSwitch {
        save_prev: prev != next,
        reload_cr3: before.cr3 != before.tasks[next].unwrap().vspace.pgd.table,
        cr3: before.tasks[next].unwrap().vspace.pgd.table,
        esp: before.tasks[next].unwrap().kernel_sp,
    })
    &&& after.cr3 == plan.cr3
    &&& after.tss == (TssEntry {
        esp0: (plan.esp + SWITCH_FRAME_SIZE + INTERRUPT_CONTEXT_SIZE) as u32,
        ..before.tss
    })
    &&& after.tasks@ == if prev != next {
        before.tasks@.update(prev, Some(Task { kernel_sp: esp, ..before.tasks[prev].unwrap() }))
    } else {
        before.tasks@
    }
    &&& after.mem == before.mem
    &&& after.shared == before.shared
    &&& after.kernel_vspace == before.kernel_vspace
}

/// Picks the task that runs next, round robin: the first slot after the
/// current one that holds a task. Switches to it from the current task, or
/// from the task in slot 0 where none has run yet; `esp` is the kernel
/// stack pointer at which the task that is left resumes.
#[verifier::rlimit(50)]
pub fn schedule(kernel: &mut Kernel, esp: u32) -> (plan: ContextSwitch)
    requires
        old(kernel).wf(),
        old(kernel).current_task_idx == NO_TASK ==> old(kernel).tasks[0] is Some,
        esp + SWITCH_FRAME_SIZE + INTERRUPT_CONTEXT_SIZE <= u32::MAX,
    ensures
        final(kernel).wf(),
        scheduled(*old(kernel), *final(kernel), esp, plan),
{
    let prev: usize = if kernel.current_task_idx == NO_TASK {
        0
    } else {
        kernel.current_task_idx
    };
    proof {
        assert(old(kernel).tasks@[prev as int] is Some);
    }
    // Find the next task in the task array.
    let candidate = next_task_index(&kernel.tasks, kernel.current_task_idx);
    kernel.current_task_idx = candidate;
    proof {
        assert forall|i: int| 0 <= i <= MAX_TASKS implies #[trigger] kernel.space(i) == old(
            kernel,
        ).space(i) by {}
        let c = choose|i: int|
            0 <= i <= MAX_TASKS && (#[trigger] old(kernel).space(i)) is Some && old(kernel).space(
                i,
            ).unwrap().pgd.table == old(kernel).cr3;
        assert(kernel.space(c) is Some);
    }
    switch_to(kernel, prev, candidate, esp)
}

/// The allocation bitmap of an address space in which the first `n`
/// dynamic pages are allocated.
pub open spec fn first_pages_taken(n: int) -> Seq<u8> {
    Seq::new(VMEM_PAGES as nat, |i: int| if i < n { 1u8 } else { 0u8 })
}

/// The interrupt context from which a new task starts in ring 3: at its
/// entry, with interrupts enabled, on its own user stack.
pub open spec fn initial_context(code_addr: u32, user_sp: u32) -> InterruptContext {
    InterruptContext {
        regs: Registers { edi: 0, esi: 0, ebp: 0, esp: 0, ebx: 0, edx: 0, ecx: 0, eax: 0 },
        nr: 0,
        err: 0,
        frame: InterruptFrame {
            ip: code_addr,
            cs: USER_CODE_SELECTOR as u32,
            eflags: 0x200,
            sp: user_sp,
            ss: USER_DATA_SELECTOR as u32,
        },
    }
}

/// The words at the top of a new task's kernel stack, lowest address
/// first: the user data selector as saved data segment, three zero words,
/// the address at which the switch returns, and the interrupt context.
pub open spec fn initial_stack(code_addr: u32, resume_addr: u32, user_sp: u32) -> Seq<u32> {
    seq![USER_DATA_SELECTOR as u32, 0u32, 0u32, 0u32, resume_addr] + initial_context(
        code_addr,
        user_sp,
    ).words()
}

/// The name of a task: `name`, padded with zero bytes to sixteen.
pub open spec fn padded_name(name: Seq<u8>) -> Seq<u8> {
    Seq::new(16, |i: int| if i < name.len() { name[i] } else { 0u8 })
}

/// The address space of a new task: it maps the physical window one to
/// one, but for the page of the task's entry, which it maps
/// user-accessible; its first two dynamic pages are allocated, the kernel
/// stack for ring 0 and the user stack for ring 3, each in a frame of its
/// own that was free in `bitmap0`.
pub open spec fn task_space_ready(
    vm: VirtMem,
    bitmap0: Seq<u8>,
    bitmap: Seq<u8>,
    ram: Seq<u8>,
    code_addr: u32,
) -> bool {
    &&& forall|k: int|
        0 <= k < KERNEL_PHYS_WINDOW_PAGES && k != page_of(code_addr) ==> #[trigger] identity_page(
            vm.pgd,
            ram,
            k,
        )
    &&& maps_to(vm.pgd, ram, code_addr, code_addr | 5)
    &&& page_mapped(vm.pgd, bitmap0, bitmap, ram, TASK_KERNEL_STACK, 3)
    &&& page_mapped(vm.pgd, bitmap0, bitmap, ram, TASK_USER_STACK, 7)
    &&& vm.pgd.frame(ram, TASK_KERNEL_STACK) != vm.pgd.frame(ram, TASK_USER_STACK)
    &&& vm.pgd.frame(ram, TASK_KERNEL_STACK) != vm.allocator_bitmap.0
    &&& vm.pgd.frame(ram, TASK_USER_STACK) != vm.allocator_bitmap.0
    &&& vm.bits(ram) == first_pages_taken(2)
}

/// Bitmap and RAM after an address space has been created and the
/// physical window mapped into it.
pub open spec fn window_memory(bitmap: Seq<u8>, ram: Seq<u8>) -> (Seq<u8>, Seq<u8>) {
    let created = VirtMem::created(bitmap, ram);
    identity_mapped(
        VirtMem::created_space(bitmap).pgd,
        created.0,
        created.1,
        KERNEL_PHYS_WINDOW_PAGES as nat,
    )
}

/// Bitmap and RAM after dynamic page `index` of the address space `vm` has
/// been allocated, as a stack for ring 3 if `user`, else for ring 0.
pub open spec fn stack_memory(
    vm: VirtMem,
    bitmap: Seq<u8>,
    ram: Seq<u8>,
    index: int,
    user: bool,
) -> (Seq<u8>, Seq<u8>) {
    vm.pgd.mapped_pages(
        bitmap,
        fill_bytes(ram, vm.allocator_bitmap.0 + index, 1, 1),
        (KERNEL_VMEM_BASE + index * PAGE_SIZE) as u32,
        1,
        if user {
            7
        } else {
            3
        },
    )
}

/// Bitmap and RAM after the address space of a task whose entry is at
/// `code_addr` has been built: the window, the kernel stack, the user
/// stack, and the page of the entry.
pub open spec fn task_space_memory(bitmap: Seq<u8>, ram: Seq<u8>, code_addr: u32) -> (
    Seq<u8>,
    Seq<u8>,
) {
    let vm = VirtMem::created_space(bitmap);
    let window = window_memory(bitmap, ram);
    let kernel_stack = stack_memory(vm, window.0, window.1, 0, false);
    let user_stack = stack_memory(vm, kernel_stack.0, kernel_stack.1, 1, true);
    vm.pgd.mapped_raw(user_stack.0, user_stack.1, code_addr, code_addr | 5)
}

/// Bitmap and RAM after `Task::new`: the address space of the task, and
/// on its kernel stack the frames from which it starts.
pub open spec fn task_memory(bitmap: Seq<u8>, ram: Seq<u8>, code_addr: u32, resume_addr: u32) -> (
    Seq<u8>,
    Seq<u8>,
) {
    let vm = VirtMem::created_space(bitmap);
    let built = task_space_memory(bitmap, ram, code_addr);
    (
        built.0,
        store_words(
            built.1,
            vm.pgd.phys_of(
                built.1,
                (TASK_KERNEL_STACK + PAGE_SIZE - 4 * INITIAL_STACK_WORDS) as u32,
            ),
            initial_stack(code_addr, resume_addr, (TASK_USER_STACK + PAGE_SIZE) as u32),
        ),
    )
}

/// A directory whose only page table is the one for the bitmap has none
/// for the physical window: the identity mapping allocates all 32.
proof fn lemma_window_tables_absent(pgd: PageDirectory, ram: Seq<u8>)
    requires
        forall|i: int|
            0 <= i < 1024 ==> (present(#[trigger] pgd.entry(ram, i)) <==> i == pde_index(
                KERNEL_VMEM_ALLOCATOR_BITMAP,
            )),
    ensures
        absent_tables(pgd, ram, 32) == 32,
        pde_index(KERNEL_VMEM_ALLOCATOR_BITMAP) == 0x37a,
        blocks(KERNEL_PHYS_WINDOW_PAGES as nat) == 32,
{
    lemma_absent_tables_all(pgd, ram, 32);
}

/// Creates an address space and maps the physical window into it.
fn build_window(mem: &mut PhysMem) -> (vm: VirtMem)
    requires
        old(mem).wf(),
        free_count(old(mem).bitmap()) >= 35,
    ensures
        final(mem).wf(),
        vm == VirtMem::created_space(old(mem).bitmap()),
        (final(mem).bitmap(), final(mem).ram()) == window_memory(old(mem).bitmap(), old(mem).ram()),
        forall|i: int|
            0 <= i < 1024 ==> (present(#[trigger] vm.pgd.entry(final(mem).ram(), i)) <==> i < 32 || i
                == pde_index(KERNEL_VMEM_ALLOCATOR_BITMAP)),
        building(
            vm.pgd,
            vm.allocator_bitmap.0,
            old(mem).bitmap(),
            old(mem).ram(),
            final(mem).bitmap(),
            final(mem).ram(),
        ),
        forall|k: int|
            0 <= k < KERNEL_PHYS_WINDOW_PAGES ==> #[trigger] identity_page(vm.pgd, final(mem).ram(), k),
        vm.bits(final(mem).ram()) == first_pages_taken(0),
        free_count(final(mem).bitmap()) + 35 == free_count(old(mem).bitmap()),
{
    let vm = VirtMem::new(mem);
    let ghost bitmap1 = mem.bitmap();
    let ghost ram1 = mem.ram();
    proof {
        lemma_window_tables_absent(vm.pgd, ram1);
    }
    setup_identity_mapping(&vm, mem);
    proof {
        lemma_building_confined(
            vm.pgd,
            vm.allocator_bitmap.0,
            old(mem).bitmap(),
            old(mem).ram(),
            bitmap1,
            ram1,
            mem.bitmap(),
            mem.ram(),
        );
        assert(vm.bits(mem.ram()) =~= first_pages_taken(0)) by {
            assert forall|i: int| 0 <= i < VMEM_PAGES implies vm.bits(mem.ram())[i] == 0 by {
                assert(in_frame(vm.allocator_bitmap.0 + i, vm.allocator_bitmap.0));
                assert(vm.bits(ram1)[i] == 0);
            }
        }
    }
    vm
}

/// Number of frames that dynamic page `index` takes: the frame behind it,
/// and a page table where the directory has none for it.
pub open spec fn stack_cost(pgd: PageDirectory, ram: Seq<u8>, index: int) -> nat {
    if present(pgd.pde(ram, (KERNEL_VMEM_BASE + index * PAGE_SIZE) as u32)) {
        1
    } else {
        2
    }
}

/// Allocates dynamic page `index` of an address space under construction
/// whose dynamic pages below `index` are the ones allocated.
#[verifier::rlimit(50)]
fn build_stack(
    vm: &VirtMem,
    mem: &mut PhysMem,
    index: usize,
    user: bool,
    Ghost(bitmap0): Ghost<Seq<u8>>,
    Ghost(ram0): Ghost<Seq<u8>>,
) -> (stack: VirtAddr)
    requires
        old(mem).wf(),
        bitmap0.len() == BITMAP_SIZE,
        ram0.len() == KERNEL_PHYS_WINDOW_SIZE,
        index < 2,
        building(
            vm.pgd,
            vm.allocator_bitmap.0,
            bitmap0,
            ram0,
            old(mem).bitmap(),
            old(mem).ram(),
        ),
        vm.bits(old(mem).ram()) == first_pages_taken(index as int),
        free_count(old(mem).bitmap()) >= stack_cost(vm.pgd, old(mem).ram(), index as int),
    ensures
        final(mem).wf(),
        stack.0 == KERNEL_VMEM_BASE + index * PAGE_SIZE,
        (final(mem).bitmap(), final(mem).ram()) == stack_memory(
            *vm,
            old(mem).bitmap(),
            old(mem).ram(),
            index as int,
            user,
        ),
        building(
            vm.pgd,
            vm.allocator_bitmap.0,
            bitmap0,
            ram0,
            final(mem).bitmap(),
            final(mem).ram(),
        ),
        vm.bits(final(mem).ram()) == first_pages_taken(index + 1),
        free_count(final(mem).bitmap()) + stack_cost(vm.pgd, old(mem).ram(), index as int)
            == free_count(old(mem).bitmap()),
        page_mapped(
            vm.pgd,
            bitmap0,
            final(mem).bitmap(),
            final(mem).ram(),
            stack.0,
            if user {
                7
            } else {
                3
            },
        ),
        !frame_in_use(old(mem).bitmap(), vm.pgd.frame(final(mem).ram(), stack.0)),
        forall|v: u32, entry: u32|
            maps_to(vm.pgd, old(mem).ram(), v, entry) && page_of(v) != page_of(stack.0)
                ==> #[trigger] maps_to(vm.pgd, final(mem).ram(), v, entry),
        forall|f: u32|
            frame_in_use(old(mem).bitmap(), f) && outside(vm.pgd, old(mem).ram(), f) ==> #[trigger] outside(
                vm.pgd,
                final(mem).ram(),
                f,
            ) && frame_in_use(final(mem).bitmap(), f),
{
    let ghost bitmap1 = mem.bitmap();
    let ghost ram1 = mem.ram();
    let ghost bits1 = vm.bits(ram1);
    let ghost bm = vm.allocator_bitmap.0;
    proof {
        let at = (KERNEL_VMEM_BASE + index * PAGE_SIZE) as u32;
        assert(tables_needed(vm.pgd, ram1, at, 1) + 1 == stack_cost(vm.pgd, ram1, index as int)) by {
            assert(tables_needed(vm.pgd, ram1, at, 0) == 0);
            assert(crate::paging::effects::nth_page(at, 0) == at);
        }
        assert(run_free(bits1, index as int, 1));
        assert forall|s: int| 0 <= s < index implies !#[trigger] run_free(bits1, s, 1) by {
            assert(bits1[s] == 1);
        }
        assert(is_lowest_run(bits1, index as int, 1));
        lemma_lowest_run(bits1, index as int, 1);
    }
    let stack = vm.alloc_virt_pages(mem, 1, true, user);
    proof {
        assert(map_count(vm.pgd, bitmap1, ram1, mem.bitmap(), mem.ram(), stack.0, 1));
        let flags = crate::paging::effects::page_flags(true, user);
        let ram1m = fill_bytes(ram1, bm + index, 1, 1);
        lemma_building_written(vm.pgd, bm, bitmap0, ram0, bitmap1, ram1, ram1m, bm);
        assert(map_effect(vm.pgd, bitmap1, ram1m, mem.bitmap(), mem.ram(), stack.0, 1, flags));
        lemma_building_confined(vm.pgd, bm, bitmap0, ram0, bitmap1, ram1m, mem.bitmap(), mem.ram());
        assert(vm.bits(mem.ram()) =~= first_pages_taken(index + 1));
        assert(nth_page(stack.0, 0) == stack.0);
        assert(page_mapped(vm.pgd, bitmap1, mem.bitmap(), mem.ram(), nth_page(stack.0, 0), flags));
        let f = vm.pgd.frame(mem.ram(), stack.0);
        if frame_in_use(bitmap0, f) {
            assert(bitmap1[crate::paging::physmem::frame_index(f)] == 1);
        }
        assert(page_mapped(vm.pgd, bitmap0, mem.bitmap(), mem.ram(), stack.0, flags));
        assert forall|v: u32, entry: u32|
            maps_to(vm.pgd, ram1, v, entry) && page_of(v) != page_of(stack.0) implies #[trigger] maps_to(
            vm.pgd,
            mem.ram(),
            v,
            entry,
        ) by {
            assert(maps_to(vm.pgd, ram1m, v, entry));
            lemma_maps_kept_by_map(
                vm.pgd,
                bitmap1,
                ram1m,
                mem.bitmap(),
                mem.ram(),
                stack.0,
                1,
                flags,
                v,
                entry,
            );
        }
        assert forall|f: u32|
            frame_in_use(bitmap1, f) && outside(vm.pgd, ram1, f) implies #[trigger] outside(
            vm.pgd,
            mem.ram(),
            f,
        ) && frame_in_use(mem.bitmap(), f) by {
            assert(outside(vm.pgd, ram1m, f));
            lemma_frame_kept(vm.pgd, bitmap1, ram1m, mem.bitmap(), mem.ram(), f);
        }
    }
    stack
}

/// Builds the address space of a new task whose entry is at `code_addr`.
#[verifier::rlimit(50)]
fn build_task_space(mem: &mut PhysMem, code_addr: u32) -> (built: (VirtMem, VirtAddr, VirtAddr))
    requires
        old(mem).wf(),
        free_count(old(mem).bitmap()) >= TASK_FRAMES,
        code_addr < KERNEL_PHYS_WINDOW_SIZE,
    ensures
        final(mem).wf(),
        built.0 == VirtMem::created_space(old(mem).bitmap()),
        built.1.0 == TASK_KERNEL_STACK,
        built.2.0 == TASK_USER_STACK,
        building(
            built.0.pgd,
            built.0.allocator_bitmap.0,
            old(mem).bitmap(),
            old(mem).ram(),
            final(mem).bitmap(),
            final(mem).ram(),
        ),
        task_space_ready(built.0, old(mem).bitmap(), final(mem).bitmap(), final(mem).ram(), code_addr),
        (final(mem).bitmap(), final(mem).ram()) == task_space_memory(
            old(mem).bitmap(),
            old(mem).ram(),
            code_addr,
        ),
        free_count(final(mem).bitmap()) + TASK_FRAMES == free_count(old(mem).bitmap()),
{
    let ghost bitmap0 = mem.bitmap();
    let ghost ram0 = mem.ram();
    let vm = build_window(mem);
    let ghost ram2 = mem.ram();
    let kernel_stack = build_stack(&vm, mem, 0, false, Ghost(bitmap0), Ghost(ram0));
    let ghost bitmap3 = mem.bitmap();
    let ghost ram3 = mem.ram();
    proof {
        reveal_page_numbers();
        assert(vm.pgd.frame(ram3, TASK_KERNEL_STACK) != vm.allocator_bitmap.0);
        assert forall|k: int| 0 <= k < KERNEL_PHYS_WINDOW_PAGES implies #[trigger] identity_page(
            vm.pgd,
            ram3,
            k,
        ) by {
            let v = (k * 0x1000) as u32;
            assert(identity_page(vm.pgd, ram2, k));
            assert(page_of(v) == k);
            assert(maps_to(vm.pgd, ram2, v, v | 3));
            assert(maps_to(vm.pgd, ram3, v, v | 3));
        }
        lemma_stack_frame(vm.pgd, bitmap0, mem.bitmap(), mem.ram(), TASK_KERNEL_STACK, 3);
    }
    let user_stack = build_stack(&vm, mem, 1, true, Ghost(bitmap0), Ghost(ram0));
    let ghost bitmap4 = mem.bitmap();
    let ghost ram4 = mem.ram();
    proof {
        reveal_page_numbers();
        let kf = vm.pgd.frame(ram3, TASK_KERNEL_STACK);
        let ke = vm.pgd.pte(ram3, TASK_KERNEL_STACK);
        assert(maps_to(vm.pgd, ram3, TASK_KERNEL_STACK, ke));
        assert(maps_to(vm.pgd, ram4, TASK_KERNEL_STACK, ke));
        assert(frame_in_use(bitmap3, kf));
        assert(outside(vm.pgd, ram3, kf));
        assert(outside(vm.pgd, ram4, kf));
        assert(frame_in_use(bitmap4, kf));
        assert(vm.pgd.frame(ram4, TASK_KERNEL_STACK) != vm.pgd.frame(ram4, TASK_USER_STACK));
        assert(vm.pgd.frame(ram4, TASK_KERNEL_STACK) != vm.allocator_bitmap.0);
        assert(vm.pgd.frame(ram4, TASK_USER_STACK) != vm.allocator_bitmap.0);
        assert forall|k: int| 0 <= k < KERNEL_PHYS_WINDOW_PAGES implies #[trigger] identity_page(
            vm.pgd,
            ram4,
            k,
        ) by {
            let v = (k * 0x1000) as u32;
            assert(identity_page(vm.pgd, ram3, k));
            assert(page_of(v) == k);
            assert(maps_to(vm.pgd, ram3, v, v | 3));
            assert(maps_to(vm.pgd, ram4, v, v | 3));
        }
        // The entry lies in the window, so its directory entry is present.
        let k = page_of(code_addr);
        let v = (k * 0x1000) as u32;
        assert(identity_page(vm.pgd, ram4, k));
        lemma_indices(v);
        lemma_indices(code_addr);
        assert(pde_index(v) == pde_index(code_addr));
        assert(code_addr | 4 | 1 == code_addr | 5) by (bit_vector);
        crate::paging::effects::lemma_mapped_raw(
            vm.pgd,
            bitmap4,
            ram4,
            code_addr,
            code_addr | 5,
        );
    }
    // Map the user code as user accessible.
    vm.map_raw(mem, VirtAddr(code_addr), code_addr | PAGE_USER | PAGE_PRESENT);
    proof {
        reveal_page_numbers();
        let bm = vm.allocator_bitmap.0;
        let raw = code_addr | 5;
        assert(map_raw_effect(vm.pgd, bitmap4, ram4, mem.bitmap(), mem.ram(), code_addr, raw));
        lemma_building_confined(vm.pgd, bm, bitmap0, ram0, bitmap4, ram4, mem.bitmap(), mem.ram());
        assert forall|k: int|
            0 <= k < KERNEL_PHYS_WINDOW_PAGES && k != page_of(code_addr) implies #[trigger] identity_page(
            vm.pgd,
            mem.ram(),
            k,
        ) by {
            let v = (k * 0x1000) as u32;
            assert(identity_page(vm.pgd, ram4, k));
            assert(page_of(v) == k);
            lemma_maps_kept_by_map_raw(
                vm.pgd,
                bitmap4,
                ram4,
                mem.bitmap(),
                mem.ram(),
                code_addr,
                raw,
                v,
                v | 3,
            );
        }
        lemma_stack_kept(
            vm.pgd,
            bitmap0,
            bitmap4,
            ram4,
            mem.bitmap(),
            mem.ram(),
            code_addr,
            raw,
            TASK_KERNEL_STACK,
            3,
        );
        lemma_stack_kept(
            vm.pgd,
            bitmap0,
            bitmap4,
            ram4,
            mem.bitmap(),
            mem.ram(),
            code_addr,
            raw,
            TASK_USER_STACK,
            7,
        );
        assert(vm.bits(mem.ram()) =~= vm.bits(ram4)) by {
            assert forall|i: int| 0 <= i < VMEM_PAGES implies vm.bits(mem.ram())[i] == vm.bits(ram4)[i] by {
                assert(in_frame(bm + i, bm));
            }
        }
    }
    (vm, kernel_stack, user_stack)
}

/// The page numbers of the two stacks of a task lie above the physical
/// window.
proof fn reveal_page_numbers()
    ensures
        page_of(TASK_KERNEL_STACK) == 0x13370,
        page_of(TASK_USER_STACK) == 0x13371,
        TASK_KERNEL_STACK == KERNEL_VMEM_BASE,
        TASK_USER_STACK == KERNEL_VMEM_BASE + PAGE_SIZE,
        forall|v: u32| v < KERNEL_PHYS_WINDOW_SIZE ==> #[trigger] page_of(v) < 0x8000,
{
}

/// The frame behind a page that has just been mapped is in use and none
/// of the directory's own.
proof fn lemma_stack_frame(
    pgd: PageDirectory,
    bitmap0: Seq<u8>,
    bitmap: Seq<u8>,
    ram: Seq<u8>,
    vaddr: u32,
    flags: u32,
)
    requires
        page_mapped(pgd, bitmap0, bitmap, ram, vaddr, flags),
    ensures
        outside(pgd, ram, pgd.frame(ram, vaddr)),
        frame_in_use(bitmap, pgd.frame(ram, vaddr)),
{
}

/// `map_raw` of another page leaves a page that has been mapped to a
/// fresh frame mapped to it.
proof fn lemma_stack_kept(
    pgd: PageDirectory,
    bitmap0: Seq<u8>,
    bitmap: Seq<u8>,
    ram: Seq<u8>,
    bitmap2: Seq<u8>,
    ram2: Seq<u8>,
    vaddr: u32,
    raw: u32,
    stack: u32,
    flags: u32,
)
    requires
        bitmap.len() == BITMAP_SIZE,
        ram.len() == KERNEL_PHYS_WINDOW_SIZE,
        pgd.wf_on(bitmap, ram),
        map_raw_effect(pgd, bitmap, ram, bitmap2, ram2, vaddr, raw),
        page_mapped(pgd, bitmap0, bitmap, ram, stack, flags),
        page_of(stack) != page_of(vaddr),
    ensures
        page_mapped(pgd, bitmap0, bitmap2, ram2, stack, flags),
        pgd.pte(ram2, stack) == pgd.pte(ram, stack),
{
    let e = pgd.pte(ram, stack);
    assert(maps_to(pgd, ram, stack, e));
    lemma_maps_kept_by_map_raw(pgd, bitmap, ram, bitmap2, ram2, vaddr, raw, stack, e);
    lemma_frame_kept(pgd, bitmap, ram, bitmap2, ram2, pgd.frame(ram, stack));
}

/// What `Task::new` does to the kernel state `before`, giving `after`:
/// physical memory is as [`task_memory`] says; the first empty slot holds
/// the new task, with its padded name, its own
/// address space and its two stack pointers; the address space is as
/// [`task_space_ready`] says; the top of the kernel stack holds the frames
/// from which the first switch to the task resumes at its entry in ring 3;
/// only frames that were free have been touched, `TASK_FRAMES` of them
/// taken; and the rest of the kernel state is as it was.
pub open spec fn task_created(
    before: Kernel,
    after: Kernel,
    slot: int,
    name: Seq<u8>,
    code_addr: u32,
    resume_addr: u32,
) -> bool {
    &&& is_first_empty(before.tasks@, slot)
    &&& after.tasks@[slot] is Some
    &&& after.tasks@ == before.tasks@.update(slot, after.tasks@[slot])
    &&& ({
        let task = after.tasks@[slot].unwrap();
        let kernel_frame = task.vspace.pgd.frame(after.mem.ram(), TASK_KERNEL_STACK);
        &&& task.name@ == padded_name(name)
        &&& task.vspace == VirtMem::created_space(before.mem.bitmap())
        &&& task.kernel_sp == TASK_KERNEL_STACK + PAGE_SIZE - 4 * INITIAL_STACK_WORDS
        &&& task.user_sp == TASK_USER_STACK + PAGE_SIZE
        &&& task_space_ready(
            task.vspace,
            before.mem.bitmap(),
            after.mem.bitmap(),
            after.mem.ram(),
            code_addr,
        )
        &&& fresh_space(task.vspace.pgd, before.mem.bitmap(), after.mem.ram())
        &&& forall|i: int|
            0 <= i < INITIAL_STACK_WORDS ==> #[trigger] word_at(
                after.mem.ram(),
                kernel_frame + PAGE_SIZE - 4 * INITIAL_STACK_WORDS + 4 * i,
            ) == initial_stack(code_addr, resume_addr, task.user_sp)[i]
    })
    &&& (after.mem.bitmap(), after.mem.ram()) == task_memory(
        before.mem.bitmap(),
        before.mem.ram(),
        code_addr,
        resume_addr,
    )
    &&& only_fresh(before.mem.bitmap(), before.mem.ram(), after.mem.bitmap(), after.mem.ram())
    &&& free_count(after.mem.bitmap()) + TASK_FRAMES == free_count(before.mem.bitmap())
    &&& after.cr3 == before.cr3
    &&& after.tss == before.tss
    &&& after.kernel_vspace == before.kernel_vspace
    &&& after.shared == before.shared
    &&& after.current_task_idx == before.current_task_idx
}

/// Adding a task whose address space has been built from frames that were
/// free, with nothing else touched, keeps the kernel state well formed.
#[verifier::rlimit(50)]
pub proof fn lemma_task_added(before: Kernel, after: Kernel, slot: int, task: Task)
    requires
        before.wf(),
        0 <= slot < MAX_TASKS,
        before.tasks@[slot] is None,
        after.tasks@ == before.tasks@.update(slot, Some(task)),
        after.mem.wf(),
        after.cr3 == before.cr3,
        after.kernel_vspace == before.kernel_vspace,
        after.shared == before.shared,
        after.current_task_idx == before.current_task_idx,
        building(
            task.vspace.pgd,
            task.vspace.allocator_bitmap.0,
            before.mem.bitmap(),
            before.mem.ram(),
            after.mem.bitmap(),
            after.mem.ram(),
        ),
        task.kernel_sp + SWITCH_FRAME_SIZE + INTERRUPT_CONTEXT_SIZE <= u32::MAX,
    ensures
        after.wf(),
{
    let b0 = before.mem.bitmap();
    let r0 = before.mem.ram();
    let b = after.mem.bitmap();
    let r = after.mem.ram();
    assert(after.space(slot) == Some(task.vspace));
    assert forall|i: int| 0 <= i <= MAX_TASKS && i != slot implies #[trigger] after.space(i)
        == before.space(i) by {}
    assert forall|i: int| 0 <= i <= MAX_TASKS && i != slot && (#[trigger] before.space(i)) is Some implies ({
        let vm = before.space(i).unwrap();
        &&& vm.wf(&after.mem)
        &&& forall|a: int| vm.pgd.owns(r, a) <==> vm.pgd.owns(r0, a)
    }) by {
        let vm = before.space(i).unwrap();
        assert(vm.wf(&before.mem));
        lemma_fresh_kept(vm.pgd, b0, r0, b, r);
        assert(b[crate::paging::physmem::frame_index(vm.allocator_bitmap.0)] == 1);
    }
    assert forall|i: int| 0 <= i <= MAX_TASKS && (#[trigger] after.space(i)) is Some implies after.space(
        i,
    ).unwrap().wf(&after.mem) by {
        if i != slot {
            assert(before.space(i) is Some);
        }
    }
    assert forall|i: int, j: int|
        0 <= i <= MAX_TASKS && 0 <= j <= MAX_TASKS && i != j && (#[trigger] after.space(i)) is Some && (
        #[trigger] after.space(j)) is Some implies apart(
        after.space(i).unwrap().pgd,
        after.space(j).unwrap().pgd,
        r,
    ) by {
        if i == slot {
            assert(before.space(j) is Some);
            lemma_fresh_apart(task.vspace.pgd, before.space(j).unwrap().pgd, b0, r0, r);
        } else if j == slot {
            assert(before.space(i) is Some);
            lemma_fresh_apart(task.vspace.pgd, before.space(i).unwrap().pgd, b0, r0, r);
        } else {
            assert(before.space(i) is Some && before.space(j) is Some);
            let p = before.space(i).unwrap().pgd;
            let q = before.space(j).unwrap().pgd;
            assert(apart(p, q, r0));
            assert forall|a: int| !(#[trigger] p.owns(r, a) && q.owns(r, a)) by {
                if p.owns(r, a) && q.owns(r, a) {
                    assert(p.owns(r0, a) && q.owns(r0, a));
                }
            }
        }
    }
    let c = choose|i: int|
        0 <= i <= MAX_TASKS && (#[trigger] before.space(i)) is Some && before.space(i).unwrap().pgd.table
            == before.cr3;
    assert(after.space(c) is Some && after.space(c).unwrap().pgd.table == after.cr3);
    assert forall|i: int|
        0 <= i < MAX_SHARED_MAPPINGS && (#[trigger] after.shared[i]) is Some implies after.mem.in_use(
        after.shared[i].unwrap().0,
    ) by {
        let f = before.shared[i].unwrap().0;
        assert(before.mem.in_use(f));
        assert(b[crate::paging::physmem::frame_index(f)] == 1);
    }
    assert forall|i: int|
        0 <= i < MAX_TASKS && (#[trigger] after.tasks[i]) is Some implies after.tasks[i].unwrap().kernel_sp
        + SWITCH_FRAME_SIZE + INTERRUPT_CONTEXT_SIZE <= u32::MAX by {
        if i != slot {
            assert(before.tasks[i] is Some);
        }
    }
}

impl Task {
    /// Creates a task named `name` that starts at `code_addr` and enters it
    /// in the first empty slot of the task table. `resume_addr` is the
    /// address of the code that restores an interrupt context and returns
    /// from the interrupt: the first switch to the task returns there.
    #[verifier::rlimit(50)]
    pub fn new(kernel: &mut Kernel, name: &[u8], code_addr: u32, resume_addr: u32) -> (slot: usize)
        requires
            old(kernel).wf(),
            name@.len() <= 16,
            exists|i: int| 0 <= i < MAX_TASKS && #[trigger] old(kernel).tasks@[i] is None,
            code_addr < KERNEL_PHYS_WINDOW_SIZE,
            free_count(old(kernel).mem.bitmap()) >= TASK_FRAMES,
        ensures
            final(kernel).wf(),
            task_created(*old(kernel), *final(kernel), slot as int, name@, code_addr, resume_addr),
    {
        let ghost before = *kernel;
        let ghost bitmap0 = kernel.mem.bitmap();
        let ghost ram0 = kernel.mem.ram();
        // The address space to come back to.
        let orig_cr3 = kernel.cr3;

        let mut task_name: [u8; 16] = [0;16];
        let mut n: usize = 0;
        while n < name.len()
            invariant
                n <= name@.len() <= 16,
                forall|i: int| 0 <= i < n ==> #[trigger] task_name@[i] == name@[i],
                forall|i: int| n <= i < 16 ==> #[trigger] task_name@[i] == 0,
            decreases name@.len() - n,
        {
            task_name[n] = name[n];
            n += 1;
        }

        let (vspace, kernel_stack, user_stack) = build_task_space(&mut kernel.mem, code_addr);
        // The stacks are written through the address space of the task.
        switch_vspace(kernel, &vspace);
        let ghost bitmap5 = kernel.mem.bitmap();
        let ghost ram5 = kernel.mem.ram();

        let mut kernel_sp: u32 = kernel_stack.0 + (KERNEL_STACK_SIZE * PAGE_SIZE) as u32;
        let user_sp: u32 = user_stack.0 + (USER_STACK_SIZE * PAGE_SIZE) as u32;

        // The interrupt context from which the task starts in userland.
        let context = InterruptContext {
            regs: Registers { edi: 0, esi: 0, ebp: 0, esp: 0, ebx: 0, edx: 0, ecx: 0, eax: 0 },
            nr: 0,
            err: 0,
            frame: InterruptFrame {
                ip: code_addr,
                cs: USER_CODE_SELECTOR as u32,
                // To enable interrupts on the switch to the task.
                eflags: 0x200,
                sp: user_sp,
                ss: USER_DATA_SELECTOR as u32,
            },
        };
        // Below the context: the saved data segment selector, three words
        // of padding and the address at which the switch returns.
        let mut words: Vec<u32> = Vec::new();
        words.push(USER_DATA_SELECTOR as u32);
        words.push(0);
        words.push(0);
        words.push(0);
        words.push(resume_addr);
        let mut context_words = context.to_words();
        words.append(&mut context_words);
        kernel_sp = kernel_sp - INTERRUPT_CONTEXT_SIZE - SWITCH_FRAME_SIZE;
        proof {
            assert(words@ =~= initial_stack(code_addr, resume_addr, user_sp));
            let kf = vspace.pgd.frame(ram5, TASK_KERNEL_STACK);
            assert(page_mapped(vspace.pgd, bitmap0, bitmap5, ram5, TASK_KERNEL_STACK, 3));
            lemma_frame_of_index(kf);
            let e = vspace.pgd.pte(ram5, TASK_KERNEL_STACK);
            assert(e & 0xfff == 3 ==> e & 1 != 0) by (bit_vector);
            assert(page_of(kernel_sp) == page_of(TASK_KERNEL_STACK));
            lemma_same_page(vspace.pgd, ram5, TASK_KERNEL_STACK, kernel_sp);
        }
        vspace.pgd.write_words(&mut kernel.mem, VirtAddr(kernel_sp), &words);
        proof {
            let kf = vspace.pgd.frame(ram5, TASK_KERNEL_STACK);
            let at = kf + PAGE_SIZE - 4 * INITIAL_STACK_WORDS;
            lemma_store_words(ram5, at, words@);
            lemma_building_written(
                vspace.pgd,
                vspace.allocator_bitmap.0,
                bitmap0,
                ram0,
                bitmap5,
                ram5,
                kernel.mem.ram(),
                kf,
            );
            lemma_task_space_kept(vspace, bitmap0, bitmap5, ram5, kernel.mem.ram(), code_addr, kf);
            let ke = vspace.pgd.pte(ram5, TASK_KERNEL_STACK);
            assert(maps_to(vspace.pgd, ram5, TASK_KERNEL_STACK, ke));
            assert(maps_to(vspace.pgd, kernel.mem.ram(), TASK_KERNEL_STACK, ke));
            assert(vspace.pgd.frame(kernel.mem.ram(), TASK_KERNEL_STACK) == kf);
            assert(vspace.pgd.phys_of(ram5, kernel_sp) == at);
            assert forall|i: int| 0 <= i < INITIAL_STACK_WORDS implies #[trigger] word_at(
                kernel.mem.ram(),
                kf + PAGE_SIZE - 4 * INITIAL_STACK_WORDS + 4 * i,
            ) == words@[i] by {
                assert(word_at(store_words(ram5, at, words@), at + 4 * i) == words@[i]);
            }
        }

        // Find an empty task spot.
        let mut empty_spot: usize = 0;
        while kernel.tasks[empty_spot].is_some()
            invariant
                *kernel == (Kernel { cr3: kernel.cr3, mem: kernel.mem, ..before }),
                before.tasks.len() == MAX_TASKS,
                empty_spot < MAX_TASKS,
                exists|i: int| 0 <= i < MAX_TASKS && #[trigger] before.tasks@[i] is None,
                forall|j: int| 0 <= j < empty_spot ==> #[trigger] before.tasks@[j] is Some,
            decreases MAX_TASKS - empty_spot,
        {
            empty_spot += 1;
        }
        let task = Task { name: task_name, vspace: vspace, kernel_sp: kernel_sp, user_sp: user_sp };
        // Add the task to the task array.
        kernel.tasks.set(empty_spot, Some(task));
        kernel.cr3 = orig_cr3;
        proof {
            assert(task.name@ =~= padded_name(name@));
            lemma_task_added(before, *kernel, empty_spot as int, task);
        }
        empty_spot
    }
}

/// An address in the same page resolves through the same entries.
proof fn lemma_same_page(pgd: PageDirectory, ram: Seq<u8>, page: u32, vaddr: u32)
    requires
        page_of(vaddr) == page_of(page),
    ensures
        pgd.pde(ram, vaddr) == pgd.pde(ram, page),
        pgd.pte(ram, vaddr) == pgd.pte(ram, page),
        pgd.frame(ram, vaddr) == pgd.frame(ram, page),
{
    lemma_indices(vaddr);
    lemma_indices(page);
    assert(pde_index(vaddr) == pde_index(page));
}

/// Writing into the frame of its kernel stack leaves the address space of
/// a new task as it was.
#[verifier::rlimit(50)]
proof fn lemma_task_space_kept(
    vm: VirtMem,
    bitmap0: Seq<u8>,
    bitmap: Seq<u8>,
    ram: Seq<u8>,
    ram2: Seq<u8>,
    code_addr: u32,
    frame: u32,
)
    requires
        task_space_ready(vm, bitmap0, bitmap, ram, code_addr),
        frame == vm.pgd.frame(ram, TASK_KERNEL_STACK),
        frame_in_use(bitmap, vm.allocator_bitmap.0),
        !frame_in_use(bitmap0, vm.allocator_bitmap.0),
        ram2.len() == ram.len(),
        forall|v: u32, entry: u32|
            maps_to(vm.pgd, ram, v, entry) ==> #[trigger] maps_to(vm.pgd, ram2, v, entry),
        forall|a: int| vm.pgd.owns(ram2, a) <==> vm.pgd.owns(ram, a),
        forall|a: int| 0 <= a < ram.len() && !in_frame(a, frame) ==> #[trigger] ram2[a] == ram[a],
        vm.allocator_bitmap.0 + VMEM_PAGES <= ram.len(),
    ensures
        task_space_ready(vm, bitmap0, bitmap, ram2, code_addr),
{
    assert forall|k: int|
        0 <= k < KERNEL_PHYS_WINDOW_PAGES && k != page_of(code_addr) implies #[trigger] identity_page(
        vm.pgd,
        ram2,
        k,
    ) by {
        let v = (k * 0x1000) as u32;
        assert(identity_page(vm.pgd, ram, k));
        assert(maps_to(vm.pgd, ram, v, v | 3));
        assert(maps_to(vm.pgd, ram2, v, v | 3));
    }
    assert(maps_to(vm.pgd, ram2, code_addr, code_addr | 5));
    let ke = vm.pgd.pte(ram, TASK_KERNEL_STACK);
    let ue = vm.pgd.pte(ram, TASK_USER_STACK);
    assert(maps_to(vm.pgd, ram, TASK_KERNEL_STACK, ke));
    assert(maps_to(vm.pgd, ram2, TASK_KERNEL_STACK, ke));
    assert(maps_to(vm.pgd, ram, TASK_USER_STACK, ue));
    assert(maps_to(vm.pgd, ram2, TASK_USER_STACK, ue));
    assert(vm.bits(ram2) =~= vm.bits(ram)) by {
        let bm = vm.allocator_bitmap.0;
        lemma_frame_of_index(bm);
        lemma_frame_of_index(frame);
        assert forall|i: int| 0 <= i < VMEM_PAGES implies vm.bits(ram2)[i] == vm.bits(ram)[i] by {
            assert(in_frame(bm + i, bm));
            assert(!in_frame(bm + i, frame));
        }
    }
}

/// The first switch to a new task leaves the TSS at the top of the task's
/// kernel stack: the frames on the stack end exactly there, so that the
/// frame of the first trap from ring 3 lands at the top.
pub proof fn lemma_new_task_tops_its_stack(
    before: Kernel,
    after: Kernel,
    slot: int,
    name: Seq<u8>,
    code_addr: u32,
    resume_addr: u32,
)
    requires
        task_created(before, after, slot, name, code_addr, resume_addr),
    ensures
        after.tasks@[slot].unwrap().kernel_sp + SWITCH_FRAME_SIZE + INTERRUPT_CONTEXT_SIZE
            == TASK_KERNEL_STACK + KERNEL_STACK_SIZE * PAGE_SIZE,
        4 * INITIAL_STACK_WORDS == SWITCH_FRAME_SIZE + INTERRUPT_CONTEXT_SIZE,
        initial_stack(code_addr, resume_addr, after.tasks@[slot].unwrap().user_sp).len()
            == INITIAL_STACK_WORDS,
{
}

/// Creating a task leaves every address space that exists as it is: each
/// walk of its directory finds what it found before.
pub proof fn lemma_task_new_keeps_spaces(
    before: Kernel,
    after: Kernel,
    slot: int,
    name: Seq<u8>,
    code_addr: u32,
    resume_addr: u32,
    space: int,
    vaddr: u32,
)
    requires
        before.wf(),
        task_created(before, after, slot, name, code_addr, resume_addr),
        0 <= space <= MAX_TASKS,
        before.space(space) is Some,
    ensures
        after.space(space) == before.space(space),
        before.space(space).unwrap().pgd.walk(after.mem.ram(), vaddr) == before.space(
            space,
        ).unwrap().pgd.walk(before.mem.ram(), vaddr),
{
    let vm = before.space(space).unwrap();
    assert(vm.wf(&before.mem));
    lemma_fresh_kept(
        vm.pgd,
        before.mem.bitmap(),
        before.mem.ram(),
        after.mem.bitmap(),
        after.mem.ram(),
    );
    crate::paging::effects::lemma_same_walks(vm.pgd, before.mem.ram(), after.mem.ram(), vaddr);
}

} // verus!
