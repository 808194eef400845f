//! Interrupts: the interrupt descriptor table, the frame that the trap
//! entry saves, and the dispatch of a trap to its handler.

use vstd::prelude::*;
use vstd::string::StringExecFns;
use crate::pic::{master_eoi, PortWrite, PIC1_COMMAND, PIC_EOI};
use crate::syscalls::{handle_syscall, syscall_result};
use crate::tasks::{schedule, scheduled, ContextSwitch, Kernel, NO_TASK, SWITCH_FRAME_SIZE};

verus! {

/// Gate type: present, descriptor privilege level 0, 32-bit interrupt gate.
pub const X86_INTR_GATE: u8 = 0x8e;

/// Gate type: present, descriptor privilege level 3, 32-bit interrupt gate.
pub const X86_INTR_GATE_R3: u8 = 0xee;

/// Number of vectors of the IDT.
pub const IDT_SIZE: usize = 256;

/// The vector of the system-call gate.
pub const SYSCALL_VECTOR: usize = 128;

/// The operand of `lidt`: size and linear address of the IDT.
#[derive(Debug, Copy, Clone, PartialEq, Eq, Structural)]
pub struct IdtPointer {
    /// Size of the IDT in bytes, minus one.
    pub limit: u16,
    /// Linear address of the table itself.
    pub base: u32,
}

/// An entry in the IDT.
#[derive(Debug, Copy, Clone, PartialEq, Eq, Structural)]
pub struct IdtEntry {
    /// Bits 0..15 of the handler's address.
    pub offset1: u16,
    /// Code segment selector of the handler.
    pub selector: u16,
    /// Always zero.
    pub zero: u8,
    /// Gate type and attributes.
    pub type_attr: u8,
    /// Bits 16..31 of the handler's address.
    pub offset2: u16,
}

/// The 64-bit word that the CPU reads for an entry.
pub open spec fn pack(entry: IdtEntry) -> u64 {
    (entry.offset2 as u64) << 48 | (entry.type_attr as u64) << 40 | (entry.zero as u64) << 32 | (
    entry.selector as u64) << 16 | (entry.offset1 as u64)
}

/// The entry that a 64-bit word holds.
pub open spec fn unpack(word: u64) -> IdtEntry {
    IdtEntry {
        offset1: word as u16,
        selector: (word >> 16) as u16,
        zero: (word >> 32) as u8,
        type_attr: (word >> 40) as u8,
        offset2: (word >> 48) as u16,
    }
}

/// The interrupt gate for the handler at `handler`, in the code segment
/// `selector`, with the given type and attributes.
pub open spec fn gate(handler: u32, selector: u16, type_attr: u8) -> IdtEntry {
    IdtEntry {
        offset1: handler as u16,
        selector: selector,
        zero: 0,
        type_attr: type_attr,
        offset2: (handler >> 16) as u16,
    }
}

/// Packing an entry into its 64-bit word and unpacking the word gives the
/// entry back, and unpacking a word and packing the entry gives the word
/// back.
pub proof fn lemma_idt_round_trip(entry: IdtEntry, word: u64)
    ensures
        unpack(pack(entry)) == entry,
        pack(unpack(word)) == word,
{
    let o1 = entry.offset1;
    let s = entry.selector;
    let z = entry.zero;
    let t = entry.type_attr;
    let o2 = entry.offset2;
    let w = (o2 as u64) << 48 | (t as u64) << 40 | (z as u64) << 32 | (s as u64) << 16 | (o1 as u64);
    assert(w as u16 == o1 && (w >> 16) as u16 == s && (w >> 32) as u8 == z && (w >> 40) as u8 == t && (w
        >> 48) as u16 == o2) by (bit_vector)
        requires
            w == (o2 as u64) << 48 | (t as u64) << 40 | (z as u64) << 32 | (s as u64) << 16 | (
            o1 as u64),
    ;
    assert((((word >> 48) as u16) as u64) << 48 | (((word >> 40) as u8) as u64) << 40 | (((word >> 32)
        as u8) as u64) << 32 | (((word >> 16) as u16) as u64) << 16 | ((word as u16) as u64) == word)
        by (bit_vector);
}

/// The two halves of a gate's offset hold the handler's address, for every
/// handler, selector and gate type: packing such an entry and unpacking it
/// yields the handler, the selector and the type that it was made of.
pub proof fn lemma_gate_round_trip(handler: u32, selector: u16, type_attr: u8)
    ensures
        unpack(pack(gate(handler, selector, type_attr))) == gate(handler, selector, type_attr),
        gate(handler, selector, type_attr).handler() == handler,
        unpack(pack(gate(handler, selector, type_attr))).handler() == handler,
        unpack(pack(gate(handler, selector, type_attr))).selector == selector,
        unpack(pack(gate(handler, selector, type_attr))).type_attr == type_attr,
{
    lemma_idt_round_trip(gate(handler, selector, type_attr), 0);
    assert(((((handler >> 16) as u16) as u32) << 16) | ((handler as u16) as u32) == handler)
        by (bit_vector);
}

impl From<IdtEntry> for u64 {
    fn from(src: IdtEntry) -> (word: u64) {
        (src.offset2 as u64) << 48 | (src.type_attr as u64) << 40 | (src.zero as u64) << 32 | (
        src.selector as u64) << 16 | (src.offset1 as u64)
    }
}

impl vstd::std_specs::convert::FromSpecImpl<IdtEntry> for u64 {
    open spec fn obeys_from_spec() -> bool {
        true
    }

    open spec fn from_spec(src: IdtEntry) -> u64 {
        pack(src)
    }
}

impl From<u64> for IdtEntry {
    fn from(src: u64) -> (entry: IdtEntry) {
        IdtEntry {
            offset1: #[verifier::truncate] (src as u16),
            selector: #[verifier::truncate] ((src >> 16) as u16),
            zero: #[verifier::truncate] ((src >> 32) as u8),
            type_attr: #[verifier::truncate] ((src >> 40) as u8),
            offset2: #[verifier::truncate] ((src >> 48) as u16),
        }
    }
}

impl vstd::std_specs::convert::FromSpecImpl<u64> for IdtEntry {
    open spec fn obeys_from_spec() -> bool {
        true
    }

    open spec fn from_spec(src: u64) -> IdtEntry {
        unpack(src)
    }
}

impl IdtEntry {
    /// The address of the handler that the entry's two offset halves hold.
    pub open spec fn handler(&self) -> u32 {
        ((self.offset2 as u32) << 16) | (self.offset1 as u32)
    }

    /// The entry with every field zero: a gate that is not present.
    pub fn null() -> (entry: Self)
        ensures
            entry == (IdtEntry { offset1: 0, selector: 0, zero: 0, type_attr: 0, offset2: 0 }),
    {
        Self { offset1: 0, selector: 0, zero: 0, type_attr: 0, offset2: 0 }
    }

    /// The interrupt gate for the handler at linear address `handler`, in
    /// the code segment `selector`, with the given type and attributes.
    pub fn new(handler: u32, selector: u16, type_attr: u8) -> (entry: Self)
        ensures
            entry == gate(handler, selector, type_attr),
            entry.handler() == handler,
    {
        proof {
            lemma_gate_round_trip(handler, selector, type_attr);
        }
        let offset = handler;
        Self {
            offset1: #[verifier::truncate] (offset as u16),
            selector: selector,
            zero: 0,
            type_attr: type_attr,
            offset2: #[verifier::truncate] ((offset >> 16) as u16),
        }
    }
}

/// Shape of the frame that the CPU pushes on a trap.
#[derive(Debug, Copy, Clone, PartialEq, Eq, Structural)]
pub struct InterruptFrame {
    pub ip: u32,
    pub cs: u32,
    pub eflags: u32,
    /// Pushed only if the privilege level changes.
    pub sp: u32,
    /// Pushed only if the privilege level changes.
    pub ss: u32,
}

/// The general-purpose registers, in the order in which `pusha` leaves
/// them on the stack, lowest address first.
#[derive(Debug, Copy, Clone, PartialEq, Eq, Structural)]
pub struct Registers {
    pub edi: u32,
    pub esi: u32,
    pub ebp: u32,
    pub esp: u32,
    pub ebx: u32,
    pub edx: u32,
    pub ecx: u32,
    pub eax: u32,
}

/// Context of an interrupt, as the trap entry leaves it on the kernel
/// stack, lowest address first.
#[derive(Debug, Copy, Clone, PartialEq, Eq, Structural)]
pub struct InterruptContext {
    pub regs: Registers,
    /// The vector number.
    pub nr: u32,
    /// The error code, or `0xffff_ffff` for a vector without one.
    pub err: u32,
    pub frame: InterruptFrame,
}

impl Default for InterruptFrame {
    /// A frame with every field zero.
    fn default() -> (frame: Self)
        ensures
            frame == (InterruptFrame { ip: 0, cs: 0, eflags: 0, sp: 0, ss: 0 }),
    {
        InterruptFrame { ip: 0, cs: 0, eflags: 0, sp: 0, ss: 0 }
    }
}

impl Default for Registers {
    /// Registers that are all zero.
    fn default() -> (regs: Self)
        ensures
            regs == (Registers { edi: 0, esi: 0, ebp: 0, esp: 0, ebx: 0, edx: 0, ecx: 0, eax: 0 }),
    {
        Registers { edi: 0, esi: 0, ebp: 0, esp: 0, ebx: 0, edx: 0, ecx: 0, eax: 0 }
    }
}

impl Default for InterruptContext {
    /// A context with every field zero.
    fn default() -> (ctx: Self)
        ensures
            ctx == (InterruptContext {
                regs: Registers { edi: 0, esi: 0, ebp: 0, esp: 0, ebx: 0, edx: 0, ecx: 0, eax: 0 },
                nr: 0,
                err: 0,
                frame: InterruptFrame { ip: 0, cs: 0, eflags: 0, sp: 0, ss: 0 },
            }),
    {
        InterruptContext {
            regs: Registers { edi: 0, esi: 0, ebp: 0, esp: 0, ebx: 0, edx: 0, ecx: 0, eax: 0 },
            nr: 0,
            err: 0,
            frame: InterruptFrame { ip: 0, cs: 0, eflags: 0, sp: 0, ss: 0 },
        }
    }
}

impl InterruptContext {
    /// The fifteen words of the context as they lie on the stack, lowest
    /// address first.
    pub open spec fn words(&self) -> Seq<u32> {
        seq![
            self.regs.edi,
            self.regs.esi,
            self.regs.ebp,
            self.regs.esp,
            self.regs.ebx,
            self.regs.edx,
            self.regs.ecx,
            self.regs.eax,
            self.nr,
            self.err,
            self.frame.ip,
            self.frame.cs,
            self.frame.eflags,
            self.frame.sp,
            self.frame.ss,
        ]
    }

    /// The fifteen words of the context as they lie on the stack, lowest
    /// address first.
    pub fn to_words(&self) -> (words: Vec<u32>)
        ensures
            words@ == self.words(),
    {
        let mut words: Vec<u32> = Vec::new();
        words.push(self.regs.edi);
        words.push(self.regs.esi);
        words.push(self.regs.ebp);
        words.push(self.regs.esp);
        words.push(self.regs.ebx);
        words.push(self.regs.edx);
        words.push(self.regs.ecx);
        words.push(self.regs.eax);
        words.push(self.nr);
        words.push(self.err);
        words.push(self.frame.ip);
        words.push(self.frame.cs);
        words.push(self.frame.eflags);
        words.push(self.frame.sp);
        words.push(self.frame.ss);
        proof {
            assert(words@ =~= self.words());
        }
        words
    }
}

/// The error code that the trap entry forges for a vector for which the
/// CPU pushes none.
pub const FORGED_ERROR_CODE: u32 = 0xffff_ffff;

/// Whether the CPU pushes an error code for `vector`: it does for the
/// double fault, the invalid TSS, the segment not present, the stack
/// fault, the general protection fault, the page fault, the alignment
/// check and the security exception.
pub fn has_error_code(vector: u32) -> (pushed: bool)
    ensures
        pushed == (vector == 8 || 10 <= vector <= 14 || vector == 17 || vector == 30),
{
    vector == 8 || (10 <= vector && vector <= 14) || vector == 17 || vector == 30
}

/// Size in bytes of an interrupt context on the stack.
pub const INTERRUPT_CONTEXT_SIZE: u32 = 60;

/// The IDT for the given handlers: a ring 0 interrupt gate in the kernel
/// code segment for every vector, but a ring 3 gate for the system call.
pub open spec fn idt_layout(entries: Seq<IdtEntry>, handlers: Seq<u32>) -> bool {
    &&& entries.len() == IDT_SIZE
    &&& forall|i: int|
        0 <= i < IDT_SIZE ==> #[trigger] entries[i] == gate(
            handlers[i],
            0x8,
            if i == SYSCALL_VECTOR {
                X86_INTR_GATE_R3
            } else {
                X86_INTR_GATE
            },
        )
}

/// Builds the IDT that is to sit at linear address `idt_base`, from the
/// addresses of the 256 trap entry stubs, and the operand of `lidt` for it.
pub fn interrupts_init(handlers: &Vec<u32>, idt_base: u32) -> (idt: (Vec<IdtEntry>, IdtPointer))
    requires
        handlers.len() == IDT_SIZE,
    ensures
        idt_layout(idt.0@, handlers@),
        idt.1.limit == 2047,
        idt.1.base == idt_base,
{
    let mut entries: Vec<IdtEntry> = Vec::new();
    let mut i: usize = 0;
    // Initialize the IDT with the handlers.
    while i < IDT_SIZE
        invariant
            i <= IDT_SIZE,
            handlers.len() == IDT_SIZE,
            entries.len() == i,
            forall|j: int| 0 <= j < i ==> #[trigger] entries[j] == gate(handlers[j], 0x8, X86_INTR_GATE),
        decreases IDT_SIZE - i,
    {
        entries.push(IdtEntry::new(handlers[i], 0x8, X86_INTR_GATE));
        i += 1;
    }
    // Allow the system call vector to be fired from userland.
    let mut syscall_gate = entries[SYSCALL_VECTOR];
    syscall_gate.type_attr = X86_INTR_GATE_R3;
    entries.set(SYSCALL_VECTOR, syscall_gate);

    let idt_pointer = IdtPointer { limit: (IDT_SIZE as u16) * 8 - 1, base: idt_base };
    (entries, idt_pointer)
}

/// Why the kernel halts. No error is surfaced to user space: the kernel
/// either services a request fully or halts the machine with one of these.
#[derive(Debug, Copy, Clone, PartialEq, Eq, Structural)]
pub enum KernelPanic {
    /// Vector 8: a double fault.
    DoubleFault,
    /// Vector 14, or an access of the kernel to an address that does not
    /// resolve: a page fault at `addr`.
    PageFault { addr: u32 },
    /// A vector without a handler reached the dispatcher, with CR3 holding
    /// `cr3`.
    Unhandled { ctx: InterruptContext, cr3: u32 },
    /// A task asked to exit.
    Exit,
    /// A system call with a number that none answers to; `number` is the
    /// value of EAX.
    UnimplementedSyscall { number: u32 },
    /// The bytes of a `write` are not UTF-8.
    InvalidUtf8,
    /// The id of a shared mapping is not below the number of mappings.
    InvalidSharedId { id: usize },
    /// No frame is left.
    OutOfMemory,
    /// The timer ticked with no task to run.
    NoTask,
}

/// One hexadecimal digit.
pub open spec fn digit_chars(d: int) -> Seq<char> {
    if d == 0 {
        "0"@
    } else if d == 1 {
        "1"@
    } else if d == 2 {
        "2"@
    } else if d == 3 {
        "3"@
    } else if d == 4 {
        "4"@
    } else if d == 5 {
        "5"@
    } else if d == 6 {
        "6"@
    } else if d == 7 {
        "7"@
    } else if d == 8 {
        "8"@
    } else if d == 9 {
        "9"@
    } else if d == 10 {
        "a"@
    } else if d == 11 {
        "b"@
    } else if d == 12 {
        "c"@
    } else if d == 13 {
        "d"@
    } else if d == 14 {
        "e"@
    } else {
        "f"@
    }
}

/// The decimal digits of `n`, without leading zeros.
pub open spec fn decimal_digits(n: nat) -> Seq<char>
    decreases n,
{
    if n < 10 {
        digit_chars(n as int)
    } else {
        decimal_digits(n / 10) + digit_chars((n % 10) as int)
    }
}

/// The hexadecimal digits of `n`, without leading zeros.
pub open spec fn hex_digits(n: nat) -> Seq<char>
    decreases n,
{
    if n < 16 {
        digit_chars(n as int)
    } else {
        hex_digits(n / 16) + digit_chars((n % 16) as int)
    }
}

/// `n` in exactly `width` hexadecimal digits, the lowest ones where it
/// has more.
pub open spec fn hex_fixed(n: nat, width: nat) -> Seq<char>
    decreases width,
{
    if width == 0 {
        Seq::empty()
    } else {
        hex_fixed(n / 16, (width - 1) as nat) + digit_chars((n % 16) as int)
    }
}

/// A 32-bit word as the dump shows it: `0x` and eight digits.
pub open spec fn hex_word(n: u32) -> Seq<char> {
    "0x"@ + hex_fixed(n as nat, 8)
}

/// A selector as the dump shows it: `0x` and at least two digits.
pub open spec fn hex_selector(n: u32) -> Seq<char> {
    "0x"@ + if n < 0x10 {
        hex_fixed(n as nat, 2)
    } else {
        hex_digits(n as nat)
    }
}

/// A value as the dump shows it: `0x` and its digits.
pub open spec fn hex_plain(n: u32) -> Seq<char> {
    "0x"@ + hex_digits(n as nat)
}

/// The dump of an interrupt context: the vector and the error code, the
/// general-purpose registers, the two far pointers of the trap frame, the
/// flags, the data segment selectors, which the trap entry has loaded with
/// the kernel data selector, and CR3.
pub open spec fn dump_text(ctx: InterruptContext, cr3: u32) -> Seq<char> {
    "\nInterrupt "@ + decimal_digits(ctx.nr as nat) + ", error code "@ + hex_plain(ctx.err)
        + "\nRegisters state:\n    eax "@ + hex_word(ctx.regs.eax) + " ecx "@ + hex_word(ctx.regs.ecx)
        + " edx "@ + hex_word(ctx.regs.edx) + " ebx "@ + hex_word(ctx.regs.ebx) + "\n    esp "@
        + hex_word(ctx.regs.esp) + " ebp "@ + hex_word(ctx.regs.ebp) + " esi "@ + hex_word(
        ctx.regs.esi,
    ) + " edi "@ + hex_word(ctx.regs.edi) + "\n    \n    cs:eip "@ + hex_selector(ctx.frame.cs)
        + ":"@ + hex_word(ctx.frame.ip) + "\n    ss:esp "@ + hex_selector(ctx.frame.ss) + ":"@
        + hex_word(ctx.frame.sp) + "\n    eflags "@ + hex_plain(ctx.frame.eflags)
        + "\n    ds     0x10\n    es     0x10\n    fs     0x10\n    gs     0x10\n    cr3    "@
        + hex_plain(cr3) + "\n"@
}

/// The text of a panic.
pub open spec fn panic_text(panic: KernelPanic) -> Seq<char> {
    match panic {
        KernelPanic::DoubleFault => "double fault !"@,
        KernelPanic::PageFault { addr } => "Page fault @0x"@ + hex_digits(addr as nat),
        KernelPanic::Unhandled { ctx, cr3 } => dump_text(ctx, cr3),
        KernelPanic::Exit => "exit syscall"@,
        KernelPanic::UnimplementedSyscall { number } => "Unimplemented syscall : 0x"@ + hex_digits(number as nat),
        KernelPanic::InvalidUtf8 => "couldn't translate to uft8"@,
        KernelPanic::InvalidSharedId { id } => "invalid shared mapping id : "@ + decimal_digits(id as nat),
        KernelPanic::OutOfMemory => "Out of memory"@,
        KernelPanic::NoTask => "called `Option::unwrap()` on a `None` value"@,
    }
}

/// One digit, as text.
fn digit_str(d: u64) -> (s: &'static str)
    requires
        d < 16,
    ensures
        s@ == digit_chars(d as int),
{
    if d == 0 {
        "0"
    } else if d == 1 {
        "1"
    } else if d == 2 {
        "2"
    } else if d == 3 {
        "3"
    } else if d == 4 {
        "4"
    } else if d == 5 {
        "5"
    } else if d == 6 {
        "6"
    } else if d == 7 {
        "7"
    } else if d == 8 {
        "8"
    } else if d == 9 {
        "9"
    } else if d == 10 {
        "a"
    } else if d == 11 {
        "b"
    } else if d == 12 {
        "c"
    } else if d == 13 {
        "d"
    } else if d == 14 {
        "e"
    } else {
        "f"
    }
}

/// Appends the decimal digits of `n` to `out`.
fn push_decimal_digits(out: &mut String, n: u64)
    ensures
        final(out)@ == old(out)@ + decimal_digits(n as nat),
    decreases n,
{
    if n >= 10 {
        push_decimal_digits(out, n / 10);
    }
    out.append(digit_str(n % 10));
    proof {
        assert(final(out)@ =~= old(out)@ + decimal_digits(n as nat));
    }
}

/// Appends the hexadecimal digits of `n` to `out`.
fn push_hex_digits(out: &mut String, n: u64)
    ensures
        final(out)@ == old(out)@ + hex_digits(n as nat),
    decreases n,
{
    if n >= 16 {
        push_hex_digits(out, n / 16);
    }
    out.append(digit_str(n % 16));
    proof {
        assert(final(out)@ =~= old(out)@ + hex_digits(n as nat));
    }
}

/// Appends `n` in exactly `width` hexadecimal digits to `out`.
fn push_hex_fixed(out: &mut String, n: u64, width: u32)
    ensures
        final(out)@ == old(out)@ + hex_fixed(n as nat, width as nat),
    decreases width,
{
    if width > 0 {
        push_hex_fixed(out, n / 16, width - 1);
        out.append(digit_str(n % 16));
    }
    proof {
        assert(final(out)@ =~= old(out)@ + hex_fixed(n as nat, width as nat));
    }
}

/// Appends a 32-bit word as the dump shows it.
fn push_hex_word(out: &mut String, n: u32)
    ensures
        final(out)@ == old(out)@ + hex_word(n),
{
    out.append("0x");
    push_hex_fixed(out, n as u64, 8);
    proof {
        assert(final(out)@ =~= old(out)@ + hex_word(n));
    }
}

/// Appends a selector as the dump shows it.
fn push_hex_selector(out: &mut String, n: u32)
    ensures
        final(out)@ == old(out)@ + hex_selector(n),
{
    out.append("0x");
    if n < 0x10 {
        push_hex_fixed(out, n as u64, 2);
    } else {
        push_hex_digits(out, n as u64);
    }
    proof {
        assert(final(out)@ =~= old(out)@ + hex_selector(n));
    }
}

/// Appends a value as the dump shows it.
fn push_hex_plain(out: &mut String, n: u32)
    ensures
        final(out)@ == old(out)@ + hex_plain(n),
{
    out.append("0x");
    push_hex_digits(out, n as u64);
    proof {
        assert(final(out)@ =~= old(out)@ + hex_plain(n));
    }
}

/// The dump of an interrupt context.
fn dump(ctx: &InterruptContext, cr3: u32) -> (text: String)
    ensures
        text@ == dump_text(*ctx, cr3),
{
    let mut text = String::from_str("\nInterrupt ");
    push_decimal_digits(&mut text, ctx.nr as u64);
    text.append(", error code ");
    push_hex_plain(&mut text, ctx.err);
    text.append("\nRegisters state:\n    eax ");
    push_hex_word(&mut text, ctx.regs.eax);
    text.append(" ecx ");
    push_hex_word(&mut text, ctx.regs.ecx);
    text.append(" edx ");
    push_hex_word(&mut text, ctx.regs.edx);
    text.append(" ebx ");
    push_hex_word(&mut text, ctx.regs.ebx);
    text.append("\n    esp ");
    push_hex_word(&mut text, ctx.regs.esp);
    text.append(" ebp ");
    push_hex_word(&mut text, ctx.regs.ebp);
    text.append(" esi ");
    push_hex_word(&mut text, ctx.regs.esi);
    text.append(" edi ");
    push_hex_word(&mut text, ctx.regs.edi);
    text.append("\n    \n    cs:eip ");
    push_hex_selector(&mut text, ctx.frame.cs);
    text.append(":");
    push_hex_word(&mut text, ctx.frame.ip);
    text.append("\n    ss:esp ");
    push_hex_selector(&mut text, ctx.frame.ss);
    text.append(":");
    push_hex_word(&mut text, ctx.frame.sp);
    text.append("\n    eflags ");
    push_hex_plain(&mut text, ctx.frame.eflags);
    text.append("\n    ds     0x10\n    es     0x10\n    fs     0x10\n    gs     0x10\n    cr3    ");
    push_hex_plain(&mut text, cr3);
    text.append("\n");
    text
}

impl KernelPanic {
    /// The text with which the kernel halts.
    pub fn message(&self) -> (text: String)
        ensures
            text@ == panic_text(*self),
    {
        match self {
            KernelPanic::DoubleFault => String::from_str("double fault !"),
            KernelPanic::PageFault { addr } => {
                let mut text = String::from_str("Page fault @0x");
                push_hex_digits(&mut text, *addr as u64);
                text
            },
            KernelPanic::Unhandled { ctx, cr3 } => dump(ctx, *cr3),
            KernelPanic::Exit => String::from_str("exit syscall"),
            KernelPanic::UnimplementedSyscall { number } => {
                let mut text = String::from_str("Unimplemented syscall : 0x");
                push_hex_digits(&mut text, *number as u64);
                text
            },
            KernelPanic::InvalidUtf8 => String::from_str("couldn't translate to uft8"),
            KernelPanic::InvalidSharedId { id } => {
                let mut text = String::from_str("invalid shared mapping id : ");
                push_decimal_digits(&mut text, *id as u64);
                text
            },
            KernelPanic::OutOfMemory => String::from_str("Out of memory"),
            KernelPanic::NoTask => String::from_str("called `Option::unwrap()` on a `None` value"),
        }
    }
}

/// What the trap entry is to do when the handler returns.
#[derive(Debug)]
pub enum TrapAction {
    /// Acknowledge the interrupt with the port write `eoi`, then switch
    /// to the task that comes next.
    Switch { eoi: PortWrite, switch: ContextSwitch },
    /// Write `log` to the kernel's log and return to the interrupted task.
    Return { log: Vec<u8> },
}

/// The vector of the double fault.
pub const VECTOR_DOUBLE_FAULT: u32 = 0x08;

/// The vector of the page fault.
pub const VECTOR_PAGE_FAULT: u32 = 0x0e;

/// The vector of the timer interrupt.
pub const VECTOR_TIMER: u32 = 0x20;

/// The vector of the system call.
pub const VECTOR_SYSCALL: u32 = 0x80;

/// A vector without a handler: the kernel halts with the whole context
/// and the value `cr3` of CR3.
pub fn interrupt_panic(ctx: &InterruptContext, cr3: u32) -> (panic: KernelPanic)
    ensures
        panic == (KernelPanic::Unhandled { ctx: *ctx, cr3 }),
{
    KernelPanic::Unhandled { ctx: *ctx, cr3: cr3 }
}

/// Handles the clock interrupt: the master PIC is to be acknowledged, and
/// the scheduler picks the task that comes next. `esp` is the kernel stack
/// pointer at which the interrupted task resumes.
pub fn handle_timer_intr(kernel: &mut Kernel, ctx: &InterruptContext, esp: u32) -> (res: Result<
    TrapAction,
    KernelPanic,
>)
    requires
        old(kernel).wf(),
        esp + SWITCH_FRAME_SIZE + INTERRUPT_CONTEXT_SIZE <= u32::MAX,
    ensures
        final(kernel).wf(),
        timer_result(*old(kernel), *final(kernel), esp, res),
{
    if kernel.current_task_idx == NO_TASK && kernel.tasks[0].is_none() {
        return Err(KernelPanic::NoTask);
    }
    let eoi = master_eoi();
    let switch = schedule(kernel, esp);
    Ok(TrapAction::Switch { eoi: eoi, switch: switch })
}

/// What the timer interrupt does to the kernel state `before`, giving
/// `after`, and what it answers: a panic, with nothing changed, where no
/// task has run yet and slot 0 is empty; else the acknowledgement of the
/// master PIC and the switch that the scheduler plans.
pub open spec fn timer_result(
    before: Kernel,
    after: Kernel,
    esp: u32,
    res: Result<TrapAction, KernelPanic>,
) -> bool {
    if before.current_task_idx == NO_TASK && before.tasks@[0] is None {
        res matches Err(panic) && panic == KernelPanic::NoTask && after == before
    } else {
        res matches Ok(TrapAction::Switch { eoi, switch }) && eoi == (PortWrite {
            port: PIC1_COMMAND,
            value: PIC_EOI,
        }) && scheduled(before, after, esp, switch)
    }
}

/// Handles a double fault: the kernel halts.
pub fn handle_double_fault(ctx: &InterruptContext) -> (panic: KernelPanic)
    ensures
        panic == KernelPanic::DoubleFault,
{
    KernelPanic::DoubleFault
}

/// Handles a page fault: the kernel halts with the faulting address,
/// which the CPU has left in CR2.
pub fn handle_page_fault(ctx: &InterruptContext, cr2: u32) -> (panic: KernelPanic)
    ensures
        panic == (KernelPanic::PageFault { addr: cr2 }),
{
    KernelPanic::PageFault { addr: cr2 }
}

/// What a trap does to the kernel state `before`, giving `after`, and what
/// the handler answers, by the vector number: a double fault and a page
/// fault halt the kernel, the page fault with the address in `cr2`; the
/// timer schedules; the system call is served; every other vector halts
/// the kernel with the whole context.
pub open spec fn trap_result(
    before: Kernel,
    after: Kernel,
    ctx: InterruptContext,
    cr2: u32,
    esp: u32,
    res: Result<TrapAction, KernelPanic>,
) -> bool {
    if ctx.nr == VECTOR_DOUBLE_FAULT {
        res matches Err(panic) && panic == KernelPanic::DoubleFault && after == before
    } else if ctx.nr == VECTOR_PAGE_FAULT {
        res matches Err(panic) && panic == (KernelPanic::PageFault { addr: cr2 }) && after == before
    } else if ctx.nr == VECTOR_TIMER {
        timer_result(before, after, esp, res)
    } else if ctx.nr == VECTOR_SYSCALL {
        match res {
            Ok(TrapAction::Return { log }) => syscall_result(before, after, ctx, Ok(log)),
            Ok(_) => false,
            Err(panic) => syscall_result(before, after, ctx, Err(panic)),
        }
    } else {
        res matches Err(panic) && panic == (KernelPanic::Unhandled { ctx, cr3: before.cr3.0 })
            && after == before
    }
}

/// Handles an interrupt: dispatches on the vector number of `ctx`. `cr2`
/// is the value of CR2, `esp` the kernel stack pointer at which the
/// interrupted task resumes. Answers with what the trap entry is to do, or
/// with the panic with which the kernel halts.
pub fn interrupt_handler(kernel: &mut Kernel, ctx: &InterruptContext, cr2: u32, esp: u32) -> (res:
    Result<TrapAction, KernelPanic>)
    requires
        old(kernel).wf(),
        esp + SWITCH_FRAME_SIZE + INTERRUPT_CONTEXT_SIZE <= u32::MAX,
    ensures
        final(kernel).wf(),
        trap_result(*old(kernel), *final(kernel), *ctx, cr2, esp, res),
{
    if ctx.nr == VECTOR_DOUBLE_FAULT {
        Err(handle_double_fault(ctx))
    } else if ctx.nr == VECTOR_PAGE_FAULT {
        Err(handle_page_fault(ctx, cr2))
    } else if ctx.nr == VECTOR_TIMER {
        handle_timer_intr(kernel, ctx, esp)
    } else if ctx.nr == VECTOR_SYSCALL {
        match handle_syscall(kernel, ctx) {
            Ok(log) => Ok(TrapAction::Return { log: log }),
            Err(panic) => Err(panic),
        }
    } else {
        Err(interrupt_panic(ctx, kernel.cr3.0))
    }
}

} // verus!
