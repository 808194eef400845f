//! The pair of 8259 programmable interrupt controllers: the port writes
//! that remap their vectors and acknowledge an interrupt.

use vstd::prelude::*;

verus! {

/// Command port of the master PIC.
pub const PIC1_COMMAND: u16 = 0x20;

/// Data port of the master PIC.
pub const PIC1_DATA: u16 = 0x21;

/// Command port of the slave PIC.
pub const PIC2_COMMAND: u16 = 0xa0;

/// Data port of the slave PIC.
pub const PIC2_DATA: u16 = 0xa1;

/// ICW1: a fourth initialization word follows.
pub const ICW1_ICW4: u8 = 0x01;

/// ICW1: initialization, required.
pub const ICW1_INIT: u8 = 0x10;

/// ICW4: 8086 mode.
pub const ICW4_8086: u8 = 0x01;

/// The command that acknowledges an interrupt.
pub const PIC_EOI: u8 = 0x20;

/// Vector base of the master PIC after the remap.
pub const PIC1_OFFSET: u8 = 0x20;

/// Vector base of the slave PIC after the remap.
pub const PIC2_OFFSET: u8 = 0x28;

/// One byte to write to an I/O port.
#[derive(Debug, Copy, Clone, PartialEq, Eq, Structural)]
pub struct PortWrite {
    pub port: u16,
    pub value: u8,
}

/// The eight port writes of the remap, in order: both controllers are
/// initialized in cascade mode; each is given its vector offset; the
/// master is told that the slave sits at IRQ 2, the slave its cascade
/// identity; both are put in 8086 mode.
pub open spec fn remap_sequence(offset1: u8, offset2: u8) -> Seq<PortWrite> {
    seq![
        PortWrite { port: PIC1_COMMAND, value: 0x11 },
        PortWrite { port: PIC2_COMMAND, value: 0x11 },
        PortWrite { port: PIC1_DATA, value: offset1 },
        PortWrite { port: PIC2_DATA, value: offset2 },
        PortWrite { port: PIC1_DATA, value: 4 },
        PortWrite { port: PIC2_DATA, value: 2 },
        PortWrite { port: PIC1_DATA, value: 1 },
        PortWrite { port: PIC2_DATA, value: 1 },
    ]
}

/// The port writes that remap the two controllers to the vector offsets
/// `offset1`, for the master, and `offset2`, for the slave.
pub fn pic_remap(offset1: u8, offset2: u8) -> (writes: Vec<PortWrite>)
    ensures
        writes@ == remap_sequence(offset1, offset2),
{
    proof {
        assert(0x10u8 | 0x01u8 == 0x11u8) by (bit_vector);
    }
    let mut writes: Vec<PortWrite> = Vec::new();
    // First init word: init the two controllers, a fourth word follows.
    writes.push(PortWrite { port: PIC1_COMMAND, value: ICW1_INIT | ICW1_ICW4 });
    writes.push(PortWrite { port: PIC2_COMMAND, value: ICW1_INIT | ICW1_ICW4 });
    // Second init word: the vector offsets.
    writes.push(PortWrite { port: PIC1_DATA, value: offset1 });
    writes.push(PortWrite { port: PIC2_DATA, value: offset2 });
    // Third init word: the wiring of master and slave.
    writes.push(PortWrite { port: PIC1_DATA, value: 4 });
    writes.push(PortWrite { port: PIC2_DATA, value: 2 });
    // Fourth init word: the environment.
    writes.push(PortWrite { port: PIC1_DATA, value: ICW4_8086 });
    writes.push(PortWrite { port: PIC2_DATA, value: ICW4_8086 });
    proof {
        assert(writes@ =~= remap_sequence(offset1, offset2));
    }
    writes
}

/// The port write that acknowledges an interrupt at the master PIC.
pub fn master_eoi() -> (write: PortWrite)
    ensures
        write == (PortWrite { port: PIC1_COMMAND, value: PIC_EOI }),
{
    PortWrite { port: PIC1_COMMAND, value: PIC_EOI }
}

} // verus!
