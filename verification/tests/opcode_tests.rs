use emu6502::opcode::{Opcode, Storage};
use emu6502::u16_to_little_endian;

#[test]
fn opcode_bytes_decode() {
    assert_eq!(Opcode::from(0xA9), Some(Opcode::LDAi));
    assert_eq!(Opcode::from(0xAD), Some(Opcode::LDAa));
    assert_eq!(Opcode::from(0x8D), Some(Opcode::STAa));
    assert_eq!(Opcode::from(0x8A), Some(Opcode::TXA));
    assert_eq!(Opcode::from(0x98), Some(Opcode::TYA));
    assert_eq!(Opcode::from(0x6D), Some(Opcode::ADCa));
    assert_eq!(Opcode::from(0xA2), Some(Opcode::LDXi));
    assert_eq!(Opcode::from(0xAE), Some(Opcode::LDXa));
    assert_eq!(Opcode::from(0xAA), Some(Opcode::TAX));
    assert_eq!(Opcode::from(0xA0), Some(Opcode::LDYi));
    assert_eq!(Opcode::from(0xAC), Some(Opcode::LDYa));
    assert_eq!(Opcode::from(0xA8), Some(Opcode::TAY));
    assert_eq!(Opcode::from(0xEA), Some(Opcode::NOP));
    assert_eq!(Opcode::from(0x00), Some(Opcode::BRK));
    assert_eq!(Opcode::from(0xEC), Some(Opcode::CPXa));
    assert_eq!(Opcode::from(0xD0), Some(Opcode::BNEr));
    assert_eq!(Opcode::from(0xEE), Some(Opcode::INCa));
    assert_eq!(Opcode::from(0xFF), Some(Opcode::SYS));
}

#[test]
fn invalid_opcode_bytes_are_rejected() {
    assert_eq!(Opcode::from(0x01), None);
    assert_eq!(Opcode::from(0x42), None);
    assert_eq!(Opcode::from(0xFE), None);
}

#[test]
fn hazard_tables() {
    assert_eq!(Opcode::LDAi.affected_storage(), vec![Storage::A, Storage::ZeroFlag]);
    assert_eq!(Opcode::STAa.affected_storage(), vec![Storage::Memory]);
    assert_eq!(Opcode::BNEr.affected_storage(), vec![Storage::PC]);
    assert_eq!(Opcode::INCa.affected_storage(), vec![Storage::Memory, Storage::ZeroFlag]);
    assert_eq!(Opcode::NOP.affected_storage(), vec![]);
    assert_eq!(Opcode::SYS.affected_storage(), vec![]);

    assert_eq!(Opcode::STAa.dependent_storage(), vec![Storage::A]);
    assert_eq!(Opcode::BNEr.dependent_storage(), vec![Storage::ZeroFlag]);
    assert_eq!(Opcode::SYS.dependent_storage(), vec![Storage::X, Storage::Y, Storage::Memory]);
    assert_eq!(Opcode::CPXa.dependent_storage(), vec![Storage::X, Storage::Memory]);
    assert_eq!(Opcode::NOP.dependent_storage(), vec![]);
}

#[test]
fn little_endian_split() {
    assert_eq!(u16_to_little_endian(0x1234), (0x34, 0x12));
    assert_eq!(u16_to_little_endian(0x0000), (0x00, 0x00));
    assert_eq!(u16_to_little_endian(0xFFFF), (0xFF, 0xFF));
    assert_eq!(u16_to_little_endian(0x00FF), (0xFF, 0x00));
}
