use emu6502::cpu::{
    branch_target, Cpu, BREAK_FLAG, CARRY_FLAG, NEGATIVE_FLAG, OVERFLOW_FLAG, ZERO_FLAG,
};

#[test]
fn adc_carry_at_wraparound() {
    // A = 0xFF plus 0x01 wraps to 0x00: Z=1, N=0, C=1, V=1 (8-bit wrap)
    let mut cpu = Cpu::new();
    cpu.load_a(0xFF);
    cpu.alu_adc(0x01);
    assert_eq!(cpu.a, 0x00);
    assert_eq!(cpu.nv_bdizc & ZERO_FLAG, ZERO_FLAG);
    assert_eq!(cpu.nv_bdizc & NEGATIVE_FLAG, 0);
    assert_eq!(cpu.nv_bdizc & CARRY_FLAG, CARRY_FLAG);
    assert_eq!(cpu.nv_bdizc & OVERFLOW_FLAG, OVERFLOW_FLAG);
}

#[test]
fn adc_overflow_into_sign_bit() {
    // A = 0x7F plus 0x01 gives 0x80: N=1, C=0, and no 8-bit wrap
    let mut cpu = Cpu::new();
    cpu.load_a(0x7F);
    cpu.alu_adc(0x01);
    assert_eq!(cpu.a, 0x80);
    assert_eq!(cpu.nv_bdizc & NEGATIVE_FLAG, NEGATIVE_FLAG);
    assert_eq!(cpu.nv_bdizc & ZERO_FLAG, 0);
    assert_eq!(cpu.nv_bdizc & CARRY_FLAG, 0);
    assert_eq!(cpu.nv_bdizc & OVERFLOW_FLAG, 0);
}

#[test]
fn adc_zero_addend_clears_carry() {
    let mut cpu = Cpu::new();
    cpu.load_a(0x10);
    cpu.alu_adc(0x00);
    assert_eq!(cpu.a, 0x10);
    assert_eq!(cpu.nv_bdizc & CARRY_FLAG, 0);
}

#[test]
fn cpx_equal_sets_zero_and_carry() {
    // CPXa with X = value: Z=1, C=1
    let mut cpu = Cpu::new();
    cpu.load_x(0x42);
    cpu.alu_cpx(0x42);
    assert_eq!(cpu.nv_bdizc & ZERO_FLAG, ZERO_FLAG);
    assert_eq!(cpu.nv_bdizc & CARRY_FLAG, CARRY_FLAG);
    assert_eq!(cpu.nv_bdizc & NEGATIVE_FLAG, 0);
}

#[test]
fn cpx_less_clears_carry() {
    let mut cpu = Cpu::new();
    cpu.load_x(0x01);
    cpu.alu_cpx(0x02);
    assert_eq!(cpu.nv_bdizc & ZERO_FLAG, 0);
    assert_eq!(cpu.nv_bdizc & CARRY_FLAG, 0);
    // 0x01 - 0x02 wraps to 0xFF, whose top bit is set
    assert_eq!(cpu.nv_bdizc & NEGATIVE_FLAG, NEGATIVE_FLAG);
}

#[test]
fn branch_offsets_wrap_the_address_space() {
    // offset 0xFF is -1
    assert_eq!(branch_target(0x0000, 0xFF), 0xFFFF);
    assert_eq!(branch_target(0x0010, 0xFF), 0x000F);
    // forward offsets wrap past 0xFFFF back to 0x0000
    assert_eq!(branch_target(0xFFFF, 0x01), 0x0000);
    assert_eq!(branch_target(0xFFFE, 0x02), 0x0000);
    // plain forward and backward branches
    assert_eq!(branch_target(0x0100, 0x10), 0x0110);
    assert_eq!(branch_target(0x0100, 0x80), 0x0080);
}

#[test]
fn load_sets_zero_and_negative() {
    let mut cpu = Cpu::new();
    cpu.load_y(0x00);
    assert_eq!(cpu.y, 0);
    assert_eq!(cpu.nv_bdizc & ZERO_FLAG, ZERO_FLAG);
    cpu.load_y(0x90);
    assert_eq!(cpu.nv_bdizc & ZERO_FLAG, 0);
    assert_eq!(cpu.nv_bdizc & NEGATIVE_FLAG, NEGATIVE_FLAG);
    // the break flag is untouched by register loads
    assert_eq!(cpu.nv_bdizc & BREAK_FLAG, 0);
}

#[test]
fn hex_output_has_no_leading_zero() {
    let mut cpu = Cpu::new();
    cpu.sys_out_u8(0x04);
    assert_eq!(cpu.output, b"4".to_vec());
    cpu.sys_out_u8(0x0A);
    assert_eq!(cpu.output, b"4A".to_vec());
    cpu.sys_out_u8(0x2F);
    assert_eq!(cpu.output, b"4A2F".to_vec());
    cpu.sys_out_u8(0x00);
    assert_eq!(cpu.output, b"4A2F0".to_vec());
}
