//! The instruction set: a fixed subset of 6502 opcodes plus a synthetic
//! SYS instruction for console I/O, together with the storage areas each
//! instruction may read or write (the first-level data-hazard lattice).

use vstd::prelude::*;

verus! {

/// 6502 ASM opcodes.
/// The lowercase fourth letter indicates the addressing mode:
/// i = immediate, a = absolute, r = relative, none = register transfer.
#[derive(Debug, PartialEq, Eq, Structural, Clone, Copy)]
pub enum Opcode {
    /// load immediate u8 into A
    LDAi,
    /// load value from memory into A
    LDAa,
    /// store A into memory
    STAa,
    /// transfer X to A
    TXA,
    /// transfer Y to A
    TYA,
    /// add value from memory to A
    ADCa,
    /// load immediate u8 into X
    LDXi,
    /// load value from memory into X
    LDXa,
    /// transfer A to X
    TAX,
    /// load immediate u8 into Y
    LDYi,
    /// load value from memory into Y
    LDYa,
    /// transfer A to Y
    TAY,
    /// no operation
    NOP,
    /// break: set the Break and Interrupt-disable flags and flush
    BRK,
    /// compare X with value from memory
    CPXa,
    /// branch if the zero flag is clear
    BNEr,
    /// increment a byte in memory
    INCa,
    /// system call; the subservice is selected by X
    SYS,
}

/// The storage areas an instruction may read or write; used by the
/// decode stage to detect read-after-write and write-after-write hazards.
#[derive(Debug, PartialEq, Eq, Structural, Clone, Copy)]
pub enum Storage {
    A,
    X,
    Y,
    ZeroFlag,
    Memory,
    PC,
}

/// The encoding of each opcode in a program image.
pub open spec fn opcode_byte(op: Opcode) -> u8 {
    match op {
        Opcode::LDAi => 0xA9,
        Opcode::LDAa => 0xAD,
        Opcode::STAa => 0x8D,
        Opcode::TXA => 0x8A,
        Opcode::TYA => 0x98,
        Opcode::ADCa => 0x6D,
        Opcode::LDXi => 0xA2,
        Opcode::LDXa => 0xAE,
        Opcode::TAX => 0xAA,
        Opcode::LDYi => 0xA0,
        Opcode::LDYa => 0xAC,
        Opcode::TAY => 0xA8,
        Opcode::NOP => 0xEA,
        Opcode::BRK => 0x00,
        Opcode::CPXa => 0xEC,
        Opcode::BNEr => 0xD0,
        Opcode::INCa => 0xEE,
        Opcode::SYS => 0xFF,
    }
}

/// Whether a byte encodes some opcode. Any other byte is a fatal fetch error.
pub open spec fn is_opcode_byte(b: u8) -> bool {
    ||| b == 0xA9 ||| b == 0xAD ||| b == 0x8D ||| b == 0x8A ||| b == 0x98
    ||| b == 0x6D ||| b == 0xA2 ||| b == 0xAE ||| b == 0xAA ||| b == 0xA0
    ||| b == 0xAC ||| b == 0xA8 ||| b == 0xEA ||| b == 0x00 ||| b == 0xEC
    ||| b == 0xD0 ||| b == 0xEE ||| b == 0xFF
}

/// The storage areas an instruction MAY write.
pub open spec fn spec_affected_storage(op: Opcode) -> Seq<Storage> {
    match op {
        Opcode::LDAi => seq![Storage::A, Storage::ZeroFlag],
        Opcode::LDAa => seq![Storage::A, Storage::ZeroFlag],
        Opcode::STAa => seq![Storage::Memory],
        Opcode::TXA => seq![Storage::A, Storage::ZeroFlag],
        Opcode::TYA => seq![Storage::A, Storage::ZeroFlag],
        Opcode::ADCa => seq![Storage::A, Storage::ZeroFlag],
        Opcode::LDXi => seq![Storage::X, Storage::ZeroFlag],
        Opcode::LDXa => seq![Storage::X, Storage::ZeroFlag],
        Opcode::TAX => seq![Storage::X, Storage::ZeroFlag],
        Opcode::LDYi => seq![Storage::Y, Storage::ZeroFlag],
        Opcode::LDYa => seq![Storage::Y, Storage::ZeroFlag],
        Opcode::TAY => seq![Storage::Y, Storage::ZeroFlag],
        Opcode::CPXa => seq![Storage::ZeroFlag],
        Opcode::BNEr => seq![Storage::PC],
        Opcode::INCa => seq![Storage::Memory, Storage::ZeroFlag],
        _ => seq![],
    }
}

/// The storage areas an instruction MAY read.
pub open spec fn spec_dependent_storage(op: Opcode) -> Seq<Storage> {
    match op {
        Opcode::LDAa => seq![Storage::Memory],
        Opcode::STAa => seq![Storage::A],
        Opcode::TXA => seq![Storage::X],
        Opcode::TYA => seq![Storage::Y],
        Opcode::ADCa => seq![Storage::A, Storage::Memory],
        Opcode::LDXa => seq![Storage::Memory],
        Opcode::TAX => seq![Storage::A],
        Opcode::LDYa => seq![Storage::Memory],
        Opcode::TAY => seq![Storage::A],
        Opcode::CPXa => seq![Storage::X, Storage::Memory],
        Opcode::BNEr => seq![Storage::ZeroFlag],
        Opcode::INCa => seq![Storage::Memory],
        Opcode::SYS => seq![Storage::X, Storage::Y, Storage::Memory],
        _ => seq![],
    }
}

impl Opcode {
    /// Decodes an opcode byte; any byte outside the instruction set is
    /// rejected (a fatal fetch error in the machine).
    pub fn from(opcode: u8) -> (r: Option<Self>)
        ensures
            r is Some <==> is_opcode_byte(opcode),
            r matches Some(op) ==> opcode_byte(op) == opcode,
    {
        match opcode {
            0xA9 => Some(Opcode::LDAi),
            0xAD => Some(Opcode::LDAa),
            0x8D => Some(Opcode::STAa),
            0x8A => Some(Opcode::TXA),
            0x98 => Some(Opcode::TYA),
            0x6D => Some(Opcode::ADCa),
            0xA2 => Some(Opcode::LDXi),
            0xAE => Some(Opcode::LDXa),
            0xAA => Some(Opcode::TAX),
            0xA0 => Some(Opcode::LDYi),
            0xAC => Some(Opcode::LDYa),
            0xA8 => Some(Opcode::TAY),
            0xEA => Some(Opcode::NOP),
            0x00 => Some(Opcode::BRK),
            0xEC => Some(Opcode::CPXa),
            0xD0 => Some(Opcode::BNEr),
            0xEE => Some(Opcode::INCa),
            0xFF => Some(Opcode::SYS),
            _ => None,
        }
    }

    /// All the storages that this instruction MAY affect.
    pub fn affected_storage(&self) -> (r: Vec<Storage>)
        ensures
            r@ == spec_affected_storage(*self),
    {
        match self {
            Opcode::LDAi => vec![Storage::A, Storage::ZeroFlag],
            Opcode::LDAa => vec![Storage::A, Storage::ZeroFlag],
            Opcode::STAa => vec![Storage::Memory],
            Opcode::TXA => vec![Storage::A, Storage::ZeroFlag],
            Opcode::TYA => vec![Storage::A, Storage::ZeroFlag],
            Opcode::ADCa => vec![Storage::A, Storage::ZeroFlag],
            Opcode::LDXi => vec![Storage::X, Storage::ZeroFlag],
            Opcode::LDXa => vec![Storage::X, Storage::ZeroFlag],
            Opcode::TAX => vec![Storage::X, Storage::ZeroFlag],
            Opcode::LDYi => vec![Storage::Y, Storage::ZeroFlag],
            Opcode::LDYa => vec![Storage::Y, Storage::ZeroFlag],
            Opcode::TAY => vec![Storage::Y, Storage::ZeroFlag],
            Opcode::CPXa => vec![Storage::ZeroFlag],
            Opcode::BNEr => vec![Storage::PC],
            Opcode::INCa => vec![Storage::Memory, Storage::ZeroFlag],
            _ => vec![],
        }
    }

    /// All the storages that this instruction MAY depend on.
    pub fn dependent_storage(&self) -> (r: Vec<Storage>)
        ensures
            r@ == spec_dependent_storage(*self),
    {
        match self {
            Opcode::LDAa => vec![Storage::Memory],
            Opcode::STAa => vec![Storage::A],
            Opcode::TXA => vec![Storage::X],
            Opcode::TYA => vec![Storage::Y],
            Opcode::ADCa => vec![Storage::A, Storage::Memory],
            Opcode::LDXa => vec![Storage::Memory],
            Opcode::TAX => vec![Storage::A],
            Opcode::LDYa => vec![Storage::Memory],
            Opcode::TAY => vec![Storage::A],
            Opcode::CPXa => vec![Storage::X, Storage::Memory],
            Opcode::BNEr => vec![Storage::ZeroFlag],
            Opcode::INCa => vec![Storage::Memory],
            Opcode::SYS => vec![Storage::X, Storage::Y, Storage::Memory],
            _ => vec![],
        }
    }
}

} // verus!
