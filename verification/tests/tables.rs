use kernel_core::interrupts::{
    interrupts_init, IdtEntry, IdtPointer, InterruptContext, InterruptFrame, Registers,
    INTERRUPT_CONTEXT_SIZE, X86_INTR_GATE, X86_INTR_GATE_R3,
};
use kernel_core::multiboot::{
    mmap_entry_count, mmap_entry_end, multiboot_header, multiboot_mmap_entry, AOutSymbols,
    ElfSymbols, MultibootInfo, MBH_FLAGS, MBH_MAGIC,
};
use kernel_core::peripherals::{Peripherals, SerialPort, COM1};
use kernel_core::pic::{master_eoi, pic_remap, PortWrite, PIC1_OFFSET, PIC2_OFFSET};
use kernel_core::segmem::{
    gdt_init, set_kernel_stack, GdtPointer, SegmentDescriptor, TssEntry, KERNEL_CODE_SELECTOR,
    KERNEL_DATA_SELECTOR, TSS_SELECTOR, TSS_SIZE, USER_CODE_SELECTOR, USER_DATA_SELECTOR,
};

fn raw(sd: &SegmentDescriptor) -> u64 {
    (sd.limit1 as u64)
        | (sd.base1 as u64) << 16
        | (sd.base2 as u64) << 32
        | (sd.access as u64) << 40
        | (sd.limit2_flags as u64) << 48
        | (sd.base3 as u64) << 56
}

#[test]
fn flat_segments_have_the_standard_encoding() {
    assert_eq!(raw(&SegmentDescriptor::null_descriptor()), 0);
    assert_eq!(raw(&SegmentDescriptor::kernel_code_desc()), 0x00cf_9a00_0000_ffff);
    assert_eq!(raw(&SegmentDescriptor::kernel_data_desc()), 0x00cf_9200_0000_ffff);
    assert_eq!(raw(&SegmentDescriptor::user_code_desc()), 0x00cf_fa00_0000_ffff);
    assert_eq!(raw(&SegmentDescriptor::user_data_desc()), 0x00cf_f200_0000_ffff);
}

#[test]
fn tss_descriptor_points_at_the_tss() {
    let sd = SegmentDescriptor::tss_desc(0x0012_3456);
    assert_eq!(sd.get_base(), 0x0012_3456);
    assert_eq!(sd.get_limit(), TSS_SIZE);
    assert_eq!(sd.access, 0x89);
    assert_eq!(sd.limit2_flags >> 4, 0);
    assert_eq!(raw(&sd), 0x0000_8912_3456_0068);
}

#[test]
fn descriptor_fields_round_trip() {
    let sd = SegmentDescriptor::new(0xdead_beef, 0xabcde, 0x92, 0xf5);
    assert_eq!(sd.get_base(), 0xdead_beef);
    assert_eq!(sd.get_limit(), 0xabcde);
    assert_eq!(sd.access, 0x92);
    // Only the low four bits of the flags are kept.
    assert_eq!(sd.limit2_flags, 0x5a);
    assert_eq!(sd.limit1, 0xbcde);
    assert_eq!(sd.base1, 0xbeef);
    assert_eq!(sd.base2, 0xad);
    assert_eq!(sd.base3, 0xde);
    let zero = SegmentDescriptor::new(0, 0, 0, 0);
    assert_eq!(zero, SegmentDescriptor::null_descriptor());
    let full = SegmentDescriptor::new(0xffff_ffff, 0xfffff, 0xff, 0xff);
    assert_eq!(raw(&full), 0xffff_ffff_ffff_ffff);
}

#[test]
fn gdt_init_lays_out_six_descriptors() {
    let mut tss = TssEntry::default();
    tss.esp0 = 0x1234;
    tss.eax = 7;
    let setup = gdt_init(0x0010_0000, 0x0020_0000, &mut tss);
    assert_eq!(setup.entries.len(), 6);
    assert_eq!(setup.entries[0], SegmentDescriptor::null_descriptor());
    assert_eq!(setup.entries[1], SegmentDescriptor::kernel_code_desc());
    assert_eq!(setup.entries[2], SegmentDescriptor::kernel_data_desc());
    assert_eq!(setup.entries[3], SegmentDescriptor::user_code_desc());
    assert_eq!(setup.entries[4], SegmentDescriptor::user_data_desc());
    assert_eq!(setup.entries[5], SegmentDescriptor::tss_desc(0x0020_0000));
    assert_eq!(setup.pointer, GdtPointer { limit: 47, base: 0x0010_0000 });
    assert_eq!(setup.code_selector, 0x08);
    assert_eq!(setup.data_selector, 0x10);
    assert_eq!(setup.tss_selector, 0x28 | 3);
    assert_eq!(tss.ss0, 0x10);
    assert_eq!(tss.esp0, 0);
    assert_eq!(tss.eax, 7);
    assert_eq!(
        [KERNEL_CODE_SELECTOR, KERNEL_DATA_SELECTOR, USER_CODE_SELECTOR, USER_DATA_SELECTOR, TSS_SELECTOR],
        [0x08, 0x10, 0x18 | 3, 0x20 | 3, 0x28 | 3]
    );
}

#[test]
fn add_descriptor_stores_at_the_index() {
    let pointer = GdtPointer { limit: 23, base: 0 };
    let mut table = vec![SegmentDescriptor::null_descriptor(); 3];
    pointer.add_descriptor(&mut table, 2, SegmentDescriptor::user_data_desc());
    assert_eq!(table[0], SegmentDescriptor::null_descriptor());
    assert_eq!(table[1], SegmentDescriptor::null_descriptor());
    assert_eq!(table[2], SegmentDescriptor::user_data_desc());
    assert_eq!(GdtPointer::default(), GdtPointer { limit: 0, base: 0 });
}

#[test]
fn tss_starts_zeroed_and_takes_a_kernel_stack() {
    let mut tss = TssEntry::default();
    assert_eq!(tss.esp0, 0);
    assert_eq!(tss.ss0, 0);
    assert_eq!(tss.iomap_base, 0);
    tss.update_esp0(0x1337_1000);
    assert_eq!(tss.esp0, 0x1337_1000);
    set_kernel_stack(&mut tss, 0xcafe_0000);
    assert_eq!(tss.esp0, 0xcafe_0000);
    let mut expected = TssEntry::default();
    expected.esp0 = 0xcafe_0000;
    assert_eq!(tss, expected);
}

#[test]
fn idt_entries_round_trip_for_all_vectors() {
    for vector in 0..256u32 {
        let handler = 0x0010_0000u32.wrapping_add(vector.wrapping_mul(0x0101_0417));
        let type_attr = if vector == 128 { X86_INTR_GATE_R3 } else { X86_INTR_GATE };
        let entry = IdtEntry::new(handler, 0x08, type_attr);
        let word = u64::from(entry);
        let back = IdtEntry::from(word);
        assert_eq!(back, entry);
        assert_eq!(back.selector, 0x08);
        assert_eq!(back.type_attr, type_attr);
        assert_eq!(back.zero, 0);
        assert_eq!((back.offset2 as u32) << 16 | back.offset1 as u32, handler);
        assert_eq!(u64::from(back), word);
    }
}

#[test]
fn idt_entry_has_the_hardware_layout() {
    let entry = IdtEntry::new(0x1234_5678, 0x08, 0x8e);
    assert_eq!(u64::from(entry), 0x1234_8e00_0008_5678);
    assert_eq!(u64::from(IdtEntry::null()), 0);
    assert_eq!(
        IdtEntry::from(0xffff_ee00_0008_0000u64),
        IdtEntry { offset1: 0, selector: 8, zero: 0, type_attr: 0xee, offset2: 0xffff }
    );
}

#[test]
fn interrupts_init_opens_the_syscall_gate_only() {
    let mut handlers: Vec<u32> = Vec::new();
    for vector in 0..256u32 {
        handlers.push(0x0010_0000 + vector * 16);
    }
    let (entries, pointer) = interrupts_init(&handlers, 0x0030_0000);
    assert_eq!(entries.len(), 256);
    for vector in 0..256usize {
        let expected = if vector == 128 { 0xee } else { 0x8e };
        assert_eq!(entries[vector], IdtEntry::new(handlers[vector], 0x08, expected));
    }
    assert_eq!(pointer, IdtPointer { limit: 256 * 8 - 1, base: 0x0030_0000 });
}

#[test]
fn interrupt_context_lies_in_pusha_order() {
    let ctx = InterruptContext {
        regs: Registers { edi: 1, esi: 2, ebp: 3, esp: 4, ebx: 5, edx: 6, ecx: 7, eax: 8 },
        nr: 9,
        err: 10,
        frame: InterruptFrame { ip: 11, cs: 12, eflags: 13, sp: 14, ss: 15 },
    };
    assert_eq!(ctx.to_words(), vec![1, 2, 3, 4, 5, 6, 7, 8, 9, 10, 11, 12, 13, 14, 15]);
    assert_eq!(ctx.to_words().len() as u32 * 4, INTERRUPT_CONTEXT_SIZE);
    assert_eq!(InterruptContext::default().to_words(), vec![0; 15]);
}

#[test]
fn multiboot_header_sums_to_zero() {
    let header = multiboot_header();
    assert_eq!(header[0], 0x1BAD_B002);
    assert_eq!(header[1], 0x0000_0003);
    assert_eq!(header[2], 0xE452_4FFB);
    assert_eq!(header[0].wrapping_add(header[1]).wrapping_add(header[2]), 0);
    assert_eq!((MBH_MAGIC, MBH_FLAGS), (464367618, 3));
}

#[test]
fn memory_map_entries_are_counted_and_bounded() {
    let symbols = ElfSymbols { num: 1, size: 2, addr: 3, shndx: 4 };
    assert_eq!(
        symbols.as_aout(),
        AOutSymbols { tabsize: 1, strsize: 2, addr: 3, reserved: 4 }
    );
    let info = MultibootInfo {
        flags: 0x40,
        mem_lower: 0,
        mem_upper: 0,
        boot_device: 0,
        cmdline: 0,
        mods_count: 0,
        mods_addr: 0,
        syms: symbols,
        mmap_length: 6 * 24 + 5,
        mmap_addr: 0x9000,
        drives_length: 0,
        drives_addr: 0,
        config_table: 0,
        boot_loader_name: 0,
        apm_table: 0,
        vbe_control_info: 0,
        vbe_mode_info: 0,
        vbe_mode: 0,
        vbe_interface_seg: 0,
        vbe_interface_off: 0,
        vbe_interface_len: 0,
        framebuffer_addr: 0,
        framebuffer_pitch: 0,
        framebuffer_width: 0,
        framebuffer_height: 0,
        framebuffer_bpp: 0,
        framebuffer_type: 0,
    };
    assert_eq!(mmap_entry_count(&info), 6);
    let entry = multiboot_mmap_entry { size: 20, addr: 0x10_0000, len: 0x7ee_0000, ty: 1 };
    assert_eq!(mmap_entry_end(&entry), Some(0x7fe_0000));
    let wrapping = multiboot_mmap_entry { size: 20, addr: u64::MAX, len: 1, ty: 2 };
    assert_eq!(mmap_entry_end(&wrapping), None);
    let last = multiboot_mmap_entry { size: 20, addr: u64::MAX - 1, len: 1, ty: 2 };
    assert_eq!(mmap_entry_end(&last), Some(u64::MAX));
}

#[test]
fn pic_remap_writes_four_words_to_each_controller() {
    let writes = pic_remap(PIC1_OFFSET, PIC2_OFFSET);
    assert_eq!(
        writes,
        vec![
            PortWrite { port: 0x20, value: 0x11 },
            PortWrite { port: 0xa0, value: 0x11 },
            PortWrite { port: 0x21, value: 0x20 },
            PortWrite { port: 0xa1, value: 0x28 },
            PortWrite { port: 0x21, value: 4 },
            PortWrite { port: 0xa1, value: 2 },
            PortWrite { port: 0x21, value: 1 },
            PortWrite { port: 0xa1, value: 1 },
        ]
    );
    assert_eq!(pic_remap(0x70, 0x78)[2], PortWrite { port: 0x21, value: 0x70 });
    assert_eq!(pic_remap(0x70, 0x78)[3], PortWrite { port: 0xa1, value: 0x78 });
    assert_eq!(master_eoi(), PortWrite { port: 0x20, value: 0x20 });
}

#[test]
fn serial_port_is_locked_and_released() {
    let mut peripherals = Peripherals { serial: Some(SerialPort { port: COM1 }) };
    let serial = peripherals.lock_serial();
    assert_eq!(serial, SerialPort { port: 0x3f8 });
    assert_eq!(peripherals.serial, None);
    peripherals.release_serial(serial);
    assert_eq!(peripherals.serial, Some(SerialPort { port: 0x3f8 }));
}

#[test]
fn error_codes_are_pushed_for_eight_vectors() {
    let with_code: Vec<u32> =
        (0..256u32).filter(|vector| kernel_core::interrupts::has_error_code(*vector)).collect();
    assert_eq!(with_code, vec![8, 10, 11, 12, 13, 14, 17, 30]);
    assert_eq!(kernel_core::interrupts::FORGED_ERROR_CODE, u32::MAX);
}
