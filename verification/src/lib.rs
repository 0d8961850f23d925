//! A cycle-driven emulator for a small 6502-style 8-bit microcomputer:
//! a superscalar CPU pipeline with hazard detection, a write-back
//! set-associative cache with LRU replacement, N-way interleaved memory
//! banks connected over single-slot request/response bus slots, and an
//! interrupt controller that delivers prioritised I/O events between
//! instructions.

use vstd::prelude::*;

pub mod hardware;
pub mod opcode;
pub mod memory;
pub mod cache;
pub mod mmu;
pub mod interrupt;
pub mod cpu;
pub mod clock;
pub mod system;
pub mod laws;

verus! {

/// A fatal machine fault. The hardware would halt the whole
/// machine on any of these; the library reports them to the driver.
#[derive(Clone, Copy, Debug, PartialEq, Eq, Structural)]
pub enum Fault {
    /// The fetch stage read a byte that is not a valid opcode.
    InvalidOpcode { addr: u16, byte: u8 },
    /// A SYS instruction was issued with an unsupported subservice in X.
    InvalidSysCall { x: u8 },
    /// An interrupt event named a device that is not registered.
    UnknownIqr { iqr: u8 },
    /// A fill response reached the cache while it was writing: the
    /// response was never handled, a wiring bug.
    BusProtocol,
    /// A request was about to be posted into an occupied single-slot
    /// channel: the acknowledgement was never drained, a protocol bug.
    BusOverfull,
}

/// Converts a u16 to a (u8, u8) tuple in little-endian format.
pub fn u16_to_little_endian(value: u16) -> (r: (u8, u8))
    ensures
        r.0 == value % 0x100,
        r.1 == value / 0x100,
        r.0 + 0x100 * r.1 == value,
{
    let byte1: u8 = (value % 0x100) as u8;
    let byte2: u8 = (value / 0x100) as u8;
    (byte1, byte2)
}

} // verus!
