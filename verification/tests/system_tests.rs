use emu6502::cpu::BREAK_FLAG;
use emu6502::interrupt::InterruptSpecs;
use emu6502::opcode::Opcode;
use emu6502::system::System;

#[test]
fn hello_world() {
    // LDX #3; SYS 0x0306; BRK; then the NUL-terminated string
    let program: Vec<u8> = vec![
        0xA2, 0x03, 0xFF, 0x06, 0x03, 0x00, 0x48, 0x65, 0x6C, 0x6C, 0x6F, 0x20, 0x57, 0x6F, 0x72,
        0x6C, 0x64, 0x21, 0x00,
    ];
    let mut system = System::new();
    system.load_main_program(0x0300, &program);
    system.clock.cpu.pc = 0x0300;
    let halted = system.start(100_000).expect("no fault");
    assert!(halted, "the program must halt on BRK");
    assert_eq!(system.clock.cpu.output, b"Hello World!".to_vec());
    assert_eq!(system.clock.cpu.nv_bdizc & BREAK_FLAG, BREAK_FLAG);
}

#[test]
fn sys_string_stops_on_nul() {
    // LDX #3; SYS 0x0306; BRK; "OK\0" and then a stray byte past the NUL
    let program: Vec<u8> = vec![
        0xA2, 0x03, 0xFF, 0x06, 0x03, 0x00, b'O', b'K', 0x00, b'X',
    ];
    let mut system = System::new();
    system.load_main_program(0x0300, &program);
    system.clock.cpu.pc = 0x0300;
    let halted = system.start(100_000).expect("no fault");
    assert!(halted);
    assert_eq!(system.clock.cpu.output, b"OK".to_vec());
}

#[test]
fn sys_prints_one_char_from_memory() {
    // X=2 prints the byte at the operand address plus Y; the operands of
    // a SYS with X=2 decode to zero, so the byte comes from address Y
    let program: Vec<u8> = vec![0xA0, 0x40, 0xA2, 0x02, 0xFF, 0x00];
    let data: Vec<u8> = vec![b'Z'];
    let mut system = System::new();
    system.load_main_program(0x0000, &program);
    system.load_main_program(0x0040, &data);
    let halted = system.start(100_000).expect("no fault");
    assert!(halted);
    assert_eq!(system.clock.cpu.output, b"Z".to_vec());
}

#[test]
fn sys_prints_y_as_hex() {
    // LDY #0x2A; LDX #1; SYS; BRK
    let program: Vec<u8> = vec![0xA0, 0x2A, 0xA2, 0x01, 0xFF, 0x00];
    let mut system = System::new();
    system.load_main_program(0x0000, &program);
    let halted = system.start(100_000).expect("no fault");
    assert!(halted);
    assert_eq!(system.clock.cpu.output, b"2A".to_vec());
}

#[test]
fn store_and_increment_commit_to_memory() {
    // LDA #5; STA 0x2000; INC 0x2000; BRK
    let program: Vec<u8> = vec![0xA9, 0x05, 0x8D, 0x00, 0x20, 0xEE, 0x00, 0x20, 0x00];
    let mut system = System::new();
    system.load_main_program(0x0000, &program);
    let halted = system.start(100_000).expect("no fault");
    assert!(halted);
    let v = system.clock.cpu.mmu.read_settled(&mut system.clock.memory, &mut system.clock.bus,
        0x2000);
    assert_eq!(v, 6);
}

#[test]
fn store_stalls_on_load_hazard() {
    // LDA #5; STA 0x2000; BRK — the store reads A, so it may not sit in a
    // unit while the load that writes A is still in flight
    let program: Vec<u8> = vec![0xA9, 0x05, 0x8D, 0x00, 0x20, 0x00];
    let mut system = System::new();
    system.load_main_program(0x0000, &program);
    let mut ticks = 0u32;
    while system.clock.cpu.nv_bdizc & BREAK_FLAG != BREAK_FLAG && ticks < 100_000 {
        system.clock.pulse().expect("no fault");
        let u0 = &system.clock.cpu.execution_units[0];
        let u1 = &system.clock.cpu.execution_units[1];
        let pair_in_flight = u0.busy && u1.busy
            && ((u0.ir.0 == Opcode::LDAi && u1.ir.0 == Opcode::STAa)
                || (u0.ir.0 == Opcode::STAa && u1.ir.0 == Opcode::LDAi));
        assert!(!pair_in_flight, "the store must wait for the load of A");
        ticks += 1;
    }
    assert!(system.clock.cpu.nv_bdizc & BREAK_FLAG == BREAK_FLAG);
    let v = system.clock.cpu.mmu.read_settled(&mut system.clock.memory, &mut system.clock.bus,
        0x2000);
    assert_eq!(v, 5);
}

#[test]
fn branch_loops_and_halts() {
    // LDX #3; countdown: write X, CPX #0 pattern via memory:
    // LDA #3; STA 0x30; dec loop: LDA 0x30; ADC 0xFF-at-0x31; STA 0x30;
    // simpler: LDY #0; LDA #0; ADC-with-memory is awkward here, so use:
    // LDX via memory compare: CPX 0x20; BNE taken backwards over BRK.
    //
    // program: LDX #1; CPX 0x0010; BNE +1 (skips the first BRK); BRK; BRK
    // memory[0x0010] is 0, so X != value, the branch is taken and the
    // second BRK halts the machine with the first one skipped.
    let program: Vec<u8> = vec![0xA2, 0x01, 0xEC, 0x10, 0x00, 0xD0, 0x01, 0x00, 0x00];
    let mut system = System::new();
    system.load_main_program(0x0000, &program);
    let halted = system.start(100_000).expect("no fault");
    assert!(halted);
    // the taken branch lands past the first BRK: ip 7 + 1 = 8
    assert_eq!(system.clock.cpu.pc, 0x0009);
}

#[test]
fn keyboard_interrupt_reaches_the_console() {
    // a NOP-then-BRK program; one keyboard event is pending at start
    let program: Vec<u8> = vec![0xEA, 0xEA, 0xEA, 0x00];
    let mut system = System::new();
    let stored = system.clock.cpu.interrupt_controller.store_input(0, b'k');
    assert!(stored, "the keyboard is registered at IQR 0");
    system.clock.cpu.interrupt_controller.raise(InterruptSpecs::new(0, 0, "Keyboard"));
    let halted = system.start(100_000).expect("no fault");
    assert!(halted);
    assert_eq!(system.clock.cpu.output, b"k".to_vec());
}

#[test]
fn unknown_iqr_is_fatal() {
    let program: Vec<u8> = vec![0xEA, 0xEA, 0xEA, 0x00];
    let mut system = System::new();
    system.clock.cpu.interrupt_controller.raise(InterruptSpecs::new(9, 0, "Ghost"));
    let r = system.start(100_000);
    assert_eq!(r, Err(emu6502::Fault::UnknownIqr { iqr: 9 }));
}

#[test]
fn invalid_opcode_is_fatal() {
    // 0x42 is not an instruction
    let program: Vec<u8> = vec![0x42];
    let mut system = System::new();
    system.load_main_program(0x0000, &program);
    let r = system.start(100_000);
    assert!(matches!(r, Err(emu6502::Fault::InvalidOpcode { addr: 0, byte: 0x42 })));
}

#[test]
fn invalid_sys_subservice_is_fatal() {
    // LDX #7; SYS
    let program: Vec<u8> = vec![0xA2, 0x07, 0xFF, 0x00];
    let mut system = System::new();
    system.load_main_program(0x0000, &program);
    let r = system.start(100_000);
    assert_eq!(r, Err(emu6502::Fault::InvalidSysCall { x: 7 }));
}

#[test]
fn counters_respect_the_laws() {
    let program: Vec<u8> = vec![0xA9, 0x05, 0xAA, 0xA8, 0xEA, 0x00];
    let mut system = System::new();
    system.load_main_program(0x0000, &program);
    let halted = system.start(100_000).expect("no fault");
    assert!(halted);
    let cpu = &system.clock.cpu;
    assert!(cpu.instruction_counter <= cpu.cpu_clock_counter);
    assert!(cpu.mmu.cache.cache_hits <= cpu.mmu.cache.cache_accesses);
    assert_eq!(cpu.a, 5);
    assert_eq!(cpu.x, 5);
    assert_eq!(cpu.y, 5);
}
