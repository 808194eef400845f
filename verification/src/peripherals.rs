//! Peripherals: the devices that the kernel hands out one user at a time.

use vstd::prelude::*;

verus! {

/// I/O port base of the first serial port.
pub const COM1: u16 = 0x3f8;

/// A serial port, known by its I/O port base.
#[derive(Debug, Copy, Clone, PartialEq, Eq, Structural)]
pub struct SerialPort {
    pub port: u16,
}

/// A structure that holds the peripherals.
#[derive(Debug, Copy, Clone, PartialEq, Eq, Structural)]
pub struct Peripherals {
    /// The serial port, unless it is locked.
    pub serial: Option<SerialPort>,
}

impl Peripherals {
    /// Locks the serial port: takes it out of the structure.
    pub fn lock_serial(&mut self) -> (serial: SerialPort)
        requires
            old(self).serial is Some,
        ensures
            serial == old(self).serial.unwrap(),
            final(self).serial is None,
    {
        let serial = self.serial.unwrap();
        self.serial = None;
        serial
    }

    /// Unlocks the serial port: puts it back.
    pub fn release_serial(&mut self, serial: SerialPort)
        ensures
            final(self).serial == Some(serial),
    {
        self.serial = Some(serial);
    }
}

} // verus!
