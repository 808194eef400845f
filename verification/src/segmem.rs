//! Segmentation: the flat GDT with its kernel and user segments, and the
//! one task state segment.

use vstd::prelude::*;

verus! {

/// Access byte: the segment is present.
pub const ACCESS_PRESENT: u8 = 0x80;

/// Access byte: descriptor privilege level 0.
pub const ACCESS_RING0: u8 = 0x00;

/// Access byte: descriptor privilege level 3.
pub const ACCESS_RING3: u8 = 0x60;

/// Access byte: a code or data segment, not a system segment.
pub const ACCESS_SYSTEM: u8 = 0x10;

/// Access byte: the segment is executable.
pub const ACCESS_EXECUTABLE: u8 = 0x08;

/// Access byte: the segment is conforming.
pub const ACCESS_CONFORMING: u8 = 0x04;

/// Access byte: a code segment is readable, a data segment writable.
pub const ACCESS_RW: u8 = 0x02;

/// Access byte: the segment has been accessed.
pub const ACCESS_ACCESSED: u8 = 0x01;

/// Flags nibble: the limit counts pages of 4 KiB, not bytes.
pub const FLAGS_PAGE_GRANULARITY: u8 = 0x8;

/// Flags nibble: a 32-bit segment, not a 16-bit one.
pub const FLAGS_SIZE32: u8 = 0x4;

/// Number of descriptors in the GDT: null, kernel code, kernel data, user
/// code, user data, TSS.
pub const GDT_SIZE: usize = 6;

/// Selector of the kernel code segment.
pub const KERNEL_CODE_SELECTOR: u16 = 0x08;

/// Selector of the kernel data segment.
pub const KERNEL_DATA_SELECTOR: u16 = 0x10;

/// Selector of the user code segment, with requested privilege level 3.
pub const USER_CODE_SELECTOR: u16 = 0x1b;

/// Selector of the user data segment, with requested privilege level 3.
pub const USER_DATA_SELECTOR: u16 = 0x23;

/// Selector of the task state segment, with requested privilege level 3.
pub const TSS_SELECTOR: u16 = 0x2b;

/// Size in bytes of the task state segment.
pub const TSS_SIZE: u32 = 104;

/// An entry in the TSS.
#[derive(Debug, Copy, Clone, PartialEq, Eq, Structural)]
pub struct TssEntry {
    /// Used in hardware-based context switches.
    pub prev_tss: u32,
    /// Stack pointer to load when switching to kernel mode.
    pub esp0: u32,
    /// Stack segment to load when switching to kernel mode.
    pub ss0: u32,
    pub esp1: u32,
    pub ss1: u32,
    pub esp2: u32,
    pub ss2: u32,
    pub cr3: u32,
    pub eip: u32,
    pub eflags: u32,
    pub eax: u32,
    pub ecx: u32,
    pub edx: u32,
    pub ebx: u32,
    pub esp: u32,
    pub ebp: u32,
    pub esi: u32,
    pub edi: u32,
    pub es: u32,
    pub cs: u32,
    pub ss: u32,
    pub ds: u32,
    pub fs: u32,
    pub gs: u32,
    pub ldt: u32,
    pub trap: u16,
    pub iomap_base: u16,
}

impl TssEntry {
    /// A task state segment with every field zero.
    pub open spec fn zeroed() -> TssEntry {
        TssEntry {
            prev_tss: 0,
            esp0: 0,
            ss0: 0,
            esp1: 0,
            ss1: 0,
            esp2: 0,
            ss2: 0,
            cr3: 0,
            eip: 0,
            eflags: 0,
            eax: 0,
            ecx: 0,
            edx: 0,
            ebx: 0,
            esp: 0,
            ebp: 0,
            esi: 0,
            edi: 0,
            es: 0,
            cs: 0,
            ss: 0,
            ds: 0,
            fs: 0,
            gs: 0,
            ldt: 0,
            trap: 0,
            iomap_base: 0,
        }
    }

    /// A task state segment with every field zero.
    pub fn default() -> (tss: Self)
        ensures
            tss == Self::zeroed(),
    {
        Self {
            prev_tss: 0,
            esp0: 0,
            ss0: 0,
            esp1: 0,
            ss1: 0,
            esp2: 0,
            ss2: 0,
            cr3: 0,
            eip: 0,
            eflags: 0,
            eax: 0,
            ecx: 0,
            edx: 0,
            ebx: 0,
            esp: 0,
            ebp: 0,
            esi: 0,
            edi: 0,
            es: 0,
            cs: 0,
            ss: 0,
            ds: 0,
            fs: 0,
            gs: 0,
            ldt: 0,
            trap: 0,
            iomap_base: 0,
        }
    }

    /// Sets the stack pointer that the CPU loads on a switch to kernel
    /// mode.
    pub fn update_esp0(&mut self, esp: u32)
        ensures
            *final(self) == (TssEntry { esp0: esp, ..*old(self) }),
    {
        self.esp0 = esp;
    }
}

/// Sets the kernel stack of the TSS: the value of ESP that the CPU loads
/// when a trap raises the privilege level.
pub fn set_kernel_stack(tss: &mut TssEntry, esp: u32)
    ensures
        *final(tss) == (TssEntry { esp0: esp, ..*old(tss) }),
{
    tss.esp0 = esp;
}

/// The operand of `lgdt`: size and linear address of the GDT.
#[derive(Debug, Copy, Clone, PartialEq, Eq, Structural)]
pub struct GdtPointer {
    /// Size of the GDT in bytes, minus one.
    pub limit: u16,
    /// Linear address of the table itself.
    pub base: u32,
}

impl Default for GdtPointer {
    /// A pointer to no table: limit and base zero.
    fn default() -> (pointer: Self)
        ensures
            pointer.limit == 0,
            pointer.base == 0,
    {
        GdtPointer { limit: 0, base: 0 }
    }
}

impl GdtPointer {
    /// Number of descriptors in the table that the pointer describes.
    pub open spec fn entries(&self) -> int {
        (self.limit + 1) / 8
    }

    /// Stores `descriptor` at `index` of the table that the pointer
    /// describes.
    pub fn add_descriptor(
        &self,
        table: &mut Vec<SegmentDescriptor>,
        index: isize,
        descriptor: SegmentDescriptor,
    )
        requires
            old(table).len() == self.entries(),
            0 <= index < self.entries(),
        ensures
            final(table)@ == old(table)@.update(index as int, descriptor),
    {
        table.set(index as usize, descriptor);
    }
}

/// An entry in the GDT: it describes a segment.
#[derive(Debug, Copy, Clone, PartialEq, Eq, Structural)]
pub struct SegmentDescriptor {
    /// Bits 0..15 of the limit.
    pub limit1: u16,
    /// Bits 0..15 of the base.
    pub base1: u16,
    /// Bits 16..23 of the base.
    pub base2: u8,
    /// The access byte.
    pub access: u8,
    /// Bits 16..19 of the limit in the low nibble, the flags in the high
    /// nibble.
    pub limit2_flags: u8,
    /// Bits 24..31 of the base.
    pub base3: u8,
}

/// The 32-bit base that a descriptor's three base fields hold.
pub open spec fn base_from(base1: u16, base2: u8, base3: u8) -> u32 {
    (base1 as u32) | ((base2 as u32) << 16) | ((base3 as u32) << 24)
}

/// The 20-bit limit that a descriptor's two limit fields hold.
pub open spec fn limit_from(limit1: u16, limit2_flags: u8) -> u32 {
    (limit1 as u32) | (((limit2_flags as u32) & 0x0f) << 16)
}

/// The flags that the high nibble of a descriptor's sixth byte holds.
pub open spec fn flags_from(limit2_flags: u8) -> u8 {
    limit2_flags >> 4
}

/// The three base fields hold exactly the base they were split from.
pub proof fn lemma_base_round_trip(base: u32)
    ensures
        base_from(base as u16, (base >> 16) as u8, (base >> 24) as u8) == base,
{
    assert(((base as u16) as u32) | ((((base >> 16) as u8) as u32) << 16) | ((((base >> 24) as u8)
        as u32) << 24) == base) by (bit_vector);
}

/// The limit and the flags share a byte without disturbing each other.
pub proof fn lemma_limit_flags(byte: u8, limit: u32, flags: u8)
    requires
        limit < 0x10_0000,
    ensures
        limit_from(limit as u16, (byte & 0xf0) | (((limit >> 16) as u8) & 0x0f)) == limit,
        flags_from((byte & 0xf0) | (((limit >> 16) as u8) & 0x0f)) == byte >> 4,
        flags_from((byte & 0x0f) | ((flags & 0xf) << 4)) == flags & 0xf,
        ((byte & 0x0f) | ((flags & 0xf) << 4)) & 0x0f == byte & 0x0f,
{
    assert(limit < 0x10_0000 ==> ((limit as u16) as u32) | (((((byte & 0xf0) | (((limit >> 16) as u8)
        & 0x0f)) as u32) & 0x0f) << 16) == limit) by (bit_vector);
    assert(((byte & 0xf0) | (((limit >> 16) as u8) & 0x0f)) >> 4 == byte >> 4) by (bit_vector);
    assert(((byte & 0x0f) | ((flags & 0xf) << 4)) >> 4 == flags & 0xf) by (bit_vector);
    assert(((byte & 0x0f) | ((flags & 0xf) << 4)) & 0x0f == byte & 0x0f) by (bit_vector);
}

/// The access bytes and the flags of the five segments, as their bits add
/// up.
proof fn lemma_access_bytes()
    ensures
        ACCESS_PRESENT | ACCESS_RING0 | ACCESS_SYSTEM | ACCESS_EXECUTABLE | ACCESS_RW == 0x9a,
        ACCESS_PRESENT | ACCESS_RING0 | ACCESS_SYSTEM | ACCESS_RW == 0x92,
        ACCESS_PRESENT | ACCESS_RING3 | ACCESS_SYSTEM | ACCESS_EXECUTABLE | ACCESS_RW == 0xfa,
        ACCESS_PRESENT | ACCESS_RING3 | ACCESS_SYSTEM | ACCESS_RW == 0xf2,
        ACCESS_ACCESSED | ACCESS_EXECUTABLE | ACCESS_PRESENT == 0x89,
        (FLAGS_SIZE32 | FLAGS_PAGE_GRANULARITY) & 0xf == 0xc,
        0u8 & 0xf == 0,
{
    assert(0x80u8 | 0x00 | 0x10 | 0x08 | 0x02 == 0x9a && 0x80u8 | 0x00 | 0x10 | 0x02 == 0x92 && 0x80u8
        | 0x60 | 0x10 | 0x08 | 0x02 == 0xfa && 0x80u8 | 0x60 | 0x10 | 0x02 == 0xf2 && 0x01u8 | 0x08
        | 0x80 == 0x89 && (0x4u8 | 0x8) & 0xf == 0xc && 0u8 & 0xf == 0) by (bit_vector);
}

impl SegmentDescriptor {
    /// The linear address at which the segment starts.
    pub open spec fn base(&self) -> u32 {
        base_from(self.base1, self.base2, self.base3)
    }

    /// The 20-bit limit of the segment.
    pub open spec fn limit(&self) -> u32 {
        limit_from(self.limit1, self.limit2_flags)
    }

    /// The four flag bits of the segment.
    pub open spec fn flags(&self) -> u8 {
        flags_from(self.limit2_flags)
    }

    /// The descriptor of a segment with the given base, limit, access byte
    /// and flags.
    pub open spec fn describes(&self, base: u32, limit: u32, access: u8, flags: u8) -> bool {
        &&& self.base() == base
        &&& self.limit() == limit
        &&& self.access == access
        &&& self.flags() == flags
    }

    /// A descriptor for the segment of `limit` units that starts at `base`,
    /// with the given access byte and the low four bits of `flags`.
    pub fn new(base: u32, limit: u32, access: u8, flags: u8) -> (sd: Self)
        requires
            limit < 0x10_0000,
        ensures
            sd.describes(base, limit, access, flags & 0xf),
    {
        let mut sd = Self { limit1: 0, base1: 0, base2: 0, access: access, limit2_flags: 0, base3: 0 };
        sd.set_base(base);
        sd.set_limit(limit);
        sd.set_flags(flags);
        sd
    }

    /// The null descriptor: every field zero.
    pub fn null_descriptor() -> (sd: Self)
        ensures
            sd == (SegmentDescriptor {
                limit1: 0,
                base1: 0,
                base2: 0,
                access: 0,
                limit2_flags: 0,
                base3: 0,
            }),
    {
        Self { limit1: 0, base1: 0, base2: 0, access: 0, limit2_flags: 0, base3: 0 }
    }

    /// The kernel code segment: all of memory, ring 0, executable and
    /// readable.
    pub fn kernel_code_desc() -> (sd: Self)
        ensures
            sd.describes(0, 0xfffff, 0x9a, 0xc),
    {
        proof {
            lemma_access_bytes();
        }
        Self::new(
            0x0,
            0xfffff,
            ACCESS_PRESENT | ACCESS_RING0 | ACCESS_SYSTEM | ACCESS_EXECUTABLE | ACCESS_RW,
            FLAGS_SIZE32 | FLAGS_PAGE_GRANULARITY,
        )
    }

    /// The kernel data segment: all of memory, ring 0, writable.
    pub fn kernel_data_desc() -> (sd: Self)
        ensures
            sd.describes(0, 0xfffff, 0x92, 0xc),
    {
        proof {
            lemma_access_bytes();
        }
        Self::new(
            0x0,
            0xfffff,
            ACCESS_PRESENT | ACCESS_RING0 | ACCESS_SYSTEM | ACCESS_RW,
            FLAGS_SIZE32 | FLAGS_PAGE_GRANULARITY,
        )
    }

    /// The user code segment: all of memory, ring 3, executable and
    /// readable.
    pub fn user_code_desc() -> (sd: Self)
        ensures
            sd.describes(0, 0xfffff, 0xfa, 0xc),
    {
        proof {
            lemma_access_bytes();
        }
        Self::new(
            0x0,
            0xfffff,
            ACCESS_PRESENT | ACCESS_RING3 | ACCESS_SYSTEM | ACCESS_EXECUTABLE | ACCESS_RW,
            FLAGS_SIZE32 | FLAGS_PAGE_GRANULARITY,
        )
    }

    /// The user data segment: all of memory, ring 3, writable.
    pub fn user_data_desc() -> (sd: Self)
        ensures
            sd.describes(0, 0xfffff, 0xf2, 0xc),
    {
        proof {
            lemma_access_bytes();
        }
        Self::new(
            0x0,
            0xfffff,
            ACCESS_PRESENT | ACCESS_RING3 | ACCESS_SYSTEM | ACCESS_RW,
            FLAGS_SIZE32 | FLAGS_PAGE_GRANULARITY,
        )
    }

    /// The descriptor of the task state segment that sits at linear
    /// address `tss_addr`.
    pub fn tss_desc(tss_addr: u32) -> (sd: Self)
        ensures
            sd.describes(tss_addr, TSS_SIZE, 0x89, 0),
    {
        proof {
            lemma_access_bytes();
        }
        Self::new(tss_addr, TSS_SIZE, ACCESS_ACCESSED | ACCESS_EXECUTABLE | ACCESS_PRESENT, 0)
    }

    /// Stores the low four bits of `flags`; the limit stays as it is.
    pub fn set_flags(&mut self, flags: u8)
        ensures
            *final(self) == (SegmentDescriptor {
                limit2_flags: (old(self).limit2_flags & 0x0f) | ((flags & 0xf) << 4),
                ..*old(self)
            }),
            final(self).flags() == flags & 0xf,
            final(self).limit() == old(self).limit(),
    {
        proof {
            lemma_limit_flags(self.limit2_flags, 0, flags);
            let b = self.limit2_flags;
            assert((((((b & 0x0f) | ((flags & 0xf) << 4)) as u32) & 0x0f) << 16) == (((b as u32)
                & 0x0f) << 16)) by (bit_vector);
        }
        self.limit2_flags = (self.limit2_flags & 0x0f) | ((flags & 0xf) << 4);
    }

    /// Stores the 20-bit `limit`; the flags stay as they are.
    pub fn set_limit(&mut self, limit: u32)
        requires
            limit < 0x10_0000,
        ensures
            *final(self) == (SegmentDescriptor {
                limit1: limit as u16,
                limit2_flags: (old(self).limit2_flags & 0xf0) | (((limit >> 16) as u8) & 0x0f),
                ..*old(self)
            }),
            final(self).limit() == limit,
            final(self).flags() == old(self).flags(),
    {
        proof {
            lemma_limit_flags(self.limit2_flags, limit, 0);
        }
        self.limit1 = #[verifier::truncate] (limit as u16);
        self.limit2_flags = (self.limit2_flags & 0xf0) | ((#[verifier::truncate] ((limit >> 16) as u8))
            & 0x0f);
    }

    /// The 20-bit limit of the segment.
    pub fn get_limit(&self) -> (limit: u32)
        ensures
            limit == self.limit(),
    {
        let mut limit: u32 = 0;
        limit = limit | (self.limit1 as u32);
        limit = limit | (((self.limit2_flags as u32) & 0x0f) << 16);
        proof {
            let a = self.limit1 as u32;
            let b = ((self.limit2_flags as u32) & 0x0f) << 16;
            assert((0u32 | a) | b == a | b) by (bit_vector);
        }
        limit
    }

    /// Stores the 32-bit `base`.
    pub fn set_base(&mut self, base: u32)
        ensures
            *final(self) == (SegmentDescriptor {
                base1: base as u16,
                base2: (base >> 16) as u8,
                base3: (base >> 24) as u8,
                ..*old(self)
            }),
            final(self).base() == base,
    {
        proof {
            lemma_base_round_trip(base);
        }
        self.base1 = #[verifier::truncate] (base as u16);
        self.base2 = #[verifier::truncate] ((base >> 16) as u8);
        self.base3 = #[verifier::truncate] ((base >> 24) as u8);
    }

    /// The linear address at which the segment starts.
    pub fn get_base(&self) -> (base: u32)
        ensures
            base == self.base(),
    {
        let mut base: u32 = 0;
        base = base | (self.base1 as u32);
        base = base | ((self.base2 as u32) << 16);
        base = base | ((self.base3 as u32) << 24);
        proof {
            let a = self.base1 as u32;
            let b = (self.base2 as u32) << 16;
            let c = (self.base3 as u32) << 24;
            assert(((0u32 | a) | b) | c == a | b | c) by (bit_vector);
        }
        base
    }
}

/// What `gdt_init` leaves for the CPU to load.
#[derive(Debug)]
pub struct GdtSetup {
    /// The six descriptors of the table.
    pub entries: Vec<SegmentDescriptor>,
    /// The operand of `lgdt`.
    pub pointer: GdtPointer,
    /// The selector to load into CS by a far jump.
    pub code_selector: u16,
    /// The selector to load into DS, ES, FS, GS and SS.
    pub data_selector: u16,
    /// The selector to load into the task register.
    pub tss_selector: u16,
}

/// The six descriptors of the GDT, for a TSS at `tss_addr`.
pub open spec fn gdt_layout(entries: Seq<SegmentDescriptor>, tss_addr: u32) -> bool {
    &&& entries.len() == GDT_SIZE
    &&& entries[0].describes(0, 0, 0, 0)
    &&& entries[1].describes(0, 0xfffff, 0x9a, 0xc)
    &&& entries[2].describes(0, 0xfffff, 0x92, 0xc)
    &&& entries[3].describes(0, 0xfffff, 0xfa, 0xc)
    &&& entries[4].describes(0, 0xfffff, 0xf2, 0xc)
    &&& entries[5].describes(tss_addr, TSS_SIZE, 0x89, 0)
}

/// Builds the GDT that is to sit at linear address `gdt_base`, with the
/// descriptor of the TSS at `tss_addr`, and prepares the TSS: kernel data
/// selector as its ring 0 stack segment, no ring 0 stack yet.
pub fn gdt_init(gdt_base: u32, tss_addr: u32, tss: &mut TssEntry) -> (setup: GdtSetup)
    ensures
        gdt_layout(setup.entries@, tss_addr),
        setup.pointer.limit == 47,
        setup.pointer.base == gdt_base,
        setup.code_selector == KERNEL_CODE_SELECTOR,
        setup.data_selector == KERNEL_DATA_SELECTOR,
        setup.tss_selector == TSS_SELECTOR,
        *final(tss) == (TssEntry { ss0: 0x10, esp0: 0, ..*old(tss) }),
{
    let mut entries: Vec<SegmentDescriptor> = Vec::new();
    let mut i: usize = 0;
    while i < GDT_SIZE
        invariant
            i <= GDT_SIZE,
            entries.len() == i,
            forall|j: int| 0 <= j < i ==> entries[j] == (SegmentDescriptor {
                limit1: 0,
                base1: 0,
                base2: 0,
                access: 0,
                limit2_flags: 0,
                base3: 0,
            }),
        decreases GDT_SIZE - i,
    {
        entries.push(SegmentDescriptor::null_descriptor());
        i += 1;
    }
    let gdt_pointer = GdtPointer { limit: (GDT_SIZE as u16) * 8 - 1, base: gdt_base };

    gdt_pointer.add_descriptor(&mut entries, 1, SegmentDescriptor::kernel_code_desc());
    gdt_pointer.add_descriptor(&mut entries, 2, SegmentDescriptor::kernel_data_desc());
    gdt_pointer.add_descriptor(&mut entries, 3, SegmentDescriptor::user_code_desc());
    gdt_pointer.add_descriptor(&mut entries, 4, SegmentDescriptor::user_data_desc());
    gdt_pointer.add_descriptor(&mut entries, 5, SegmentDescriptor::tss_desc(tss_addr));

    // The ring 0 stack segment of the TSS is the kernel data segment.
    tss.ss0 = 0x10;
    tss.esp0 = 0;

    proof {
        assert((0u16 as u32) | ((0u8 as u32) << 16) | ((0u8 as u32) << 24) == 0 && (0u16 as u32) | (((
        0u8 as u32) & 0x0f) << 16) == 0 && 0u8 >> 4 == 0) by (bit_vector);
    }
    GdtSetup {
        entries: entries,
        pointer: gdt_pointer,
        code_selector: KERNEL_CODE_SELECTOR,
        data_selector: KERNEL_DATA_SELECTOR,
        tss_selector: TSS_SELECTOR,
    }
}

} // verus!
