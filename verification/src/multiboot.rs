//! The Multiboot v1 boot protocol: the header that the image carries and
//! the information block that the loader hands over.

use vstd::prelude::*;

verus! {

/// The magic number of a Multiboot v1 header.
pub const MBH_MAGIC: u32 = 0x1BAD_B002;

/// Header flags: align modules on pages, request a memory map.
pub const MBH_FLAGS: u32 = 0x0000_0003;

/// Size in bytes of an entry of the memory map.
pub const MMAP_ENTRY_SIZE: u32 = 24;

/// The Multiboot information block.
#[derive(Debug, Copy, Clone, PartialEq, Eq, Structural)]
pub struct MultibootInfo {
    pub flags: u32,
    pub mem_lower: u32,
    pub mem_upper: u32,
    pub boot_device: u32,
    pub cmdline: u32,
    pub mods_count: u32,
    pub mods_addr: u32,
    /// The symbol table section: the kernel's a.out symbols or its ELF
    /// section headers, as the flags say.
    pub syms: ElfSymbols,
    pub mmap_length: u32,
    pub mmap_addr: u32,
    pub drives_length: u32,
    pub drives_addr: u32,
    pub config_table: u32,
    pub boot_loader_name: u32,
    pub apm_table: u32,
    pub vbe_control_info: u32,
    pub vbe_mode_info: u32,
    pub vbe_mode: u32,
    pub vbe_interface_seg: u32,
    pub vbe_interface_off: u32,
    pub vbe_interface_len: u32,
    pub framebuffer_addr: u32,
    pub framebuffer_pitch: u32,
    pub framebuffer_width: u32,
    pub framebuffer_height: u32,
    pub framebuffer_bpp: u8,
    pub framebuffer_type: u8,
}

/// The symbol table of an a.out kernel image.
#[derive(Debug, Default, Copy, Clone, PartialEq, Eq, Structural)]
pub struct AOutSymbols {
    pub tabsize: u32,
    pub strsize: u32,
    pub addr: u32,
    pub reserved: u32,
}

/// The section header table of an ELF kernel image.
#[derive(Debug, Default, Copy, Clone, PartialEq, Eq, Structural)]
pub struct ElfSymbols {
    pub num: u32,
    pub size: u32,
    pub addr: u32,
    pub shndx: u32,
}

/// An entry of the memory map.
#[allow(non_camel_case_types)]
#[derive(Debug, Copy, Clone, PartialEq, Eq, Structural)]
pub struct multiboot_mmap_entry {
    pub size: u32,
    pub addr: u64,
    pub len: u64,
    pub ty: u32,
}

impl ElfSymbols {
    /// The same four words read as the symbol table of an a.out image.
    pub fn as_aout(&self) -> (syms: AOutSymbols)
        ensures
            syms == (AOutSymbols {
                tabsize: self.num,
                strsize: self.size,
                addr: self.addr,
                reserved: self.shndx,
            }),
    {
        AOutSymbols { tabsize: self.num, strsize: self.size, addr: self.addr, reserved: self.shndx }
    }
}

/// The three words of the Multiboot header: magic, flags and the checksum
/// that makes the three add up to zero modulo 2^32.
pub fn multiboot_header() -> (header: [u32; 3])
    ensures
        header@[0] == MBH_MAGIC,
        header@[1] == MBH_FLAGS,
        (header@[0] + header@[1] + header@[2]) % 0x1_0000_0000 == 0,
        header@[2] == 0xE452_4FFB,
{
    let sum: u64 = MBH_MAGIC as u64 + MBH_FLAGS as u64;
    let checksum: u32 = (0x1_0000_0000u64 - sum) as u32;
    [MBH_MAGIC, MBH_FLAGS, checksum]
}

/// Number of entries of the memory map that the loader has left.
pub fn mmap_entry_count(info: &MultibootInfo) -> (entries: u32)
    ensures
        entries == info.mmap_length / MMAP_ENTRY_SIZE,
{
    info.mmap_length / MMAP_ENTRY_SIZE
}

/// The end address of a region of the memory map, where it does not pass
/// the end of the address space.
pub fn mmap_entry_end(entry: &multiboot_mmap_entry) -> (end: Option<u64>)
    ensures
        end == if entry.addr + entry.len <= u64::MAX {
            Some((entry.addr + entry.len) as u64)
        } else {
            None
        },
{
    if entry.len <= u64::MAX - entry.addr {
        Some(entry.addr + entry.len)
    } else {
        None
    }
}

} // verus!
