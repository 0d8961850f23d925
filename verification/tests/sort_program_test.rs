use emu6502::cpu::{PipeMemUser, BREAK_FLAG};
use emu6502::system::System;

/// The bubble-sort image the machine ships with: it prints the
/// array at 0x00EC, sorts it in place, and prints it again.
fn sort_program() -> Vec<u8> {
    vec![
        0xA2, 0x03, 0xFF, 0xD6, 0x00, 0xAD, 0xEB, 0x00, 0xA2, 0x01, 0xAC, 0xEC, 0x00, 0xFF, 0xA2,
        0x03, 0xFF, 0xE8, 0x00, 0xEE, 0x0B, 0x00, 0x6D, 0xD5, 0x00, 0xD0, 0xED, 0xAD, 0xEB, 0x00,
        0x6D, 0xD5, 0x00, 0x8D, 0xD2, 0x00, 0xAE, 0xD2, 0x00, 0xEC, 0xCF, 0x00, 0xD0, 0x1C, 0xA2,
        0x03, 0xFF, 0xDD, 0x00, 0xAD, 0xEB, 0x00, 0xA2, 0x01, 0xAC, 0xEC, 0x00, 0xFF, 0xA2, 0x03,
        0xFF, 0xE8, 0x00, 0xEE, 0x37, 0x00, 0x6D, 0xD5, 0x00, 0xD0, 0xED, 0x00, 0xA9, 0x00, 0x8D,
        0xD3, 0x00, 0x8D, 0xD1, 0x00, 0xAD, 0xD2, 0x00, 0x6D, 0xD0, 0x00, 0xAA, 0xEC, 0xD1, 0x00,
        0xD0, 0x0C, 0xAD, 0xD3, 0x00, 0x6D, 0x47, 0x00, 0xD0, 0x5D, 0xA2, 0x03, 0xD0, 0xC6, 0xAD,
        0x37, 0x00, 0x6D, 0xD1, 0x00, 0x8D, 0x78, 0x00, 0x8D, 0x9C, 0x00, 0x8D, 0xA6, 0x00, 0xAE,
        0xEC, 0x00, 0x6D, 0xD4, 0x00, 0x8D, 0x8A, 0x00, 0x8D, 0x96, 0x00, 0x8D, 0x9F, 0x00, 0x8D,
        0xA2, 0x00, 0xEC, 0xEC, 0x00, 0xD0, 0x07, 0xA8, 0xA2, 0x01, 0xD0, 0x1A, 0xD0, 0x8F, 0xAC,
        0xEC, 0x00, 0x98, 0xD0, 0x17, 0xAD, 0xEC, 0x00, 0xAC, 0xEC, 0x00, 0x8D, 0xEC, 0x00, 0x98,
        0x8D, 0xEC, 0x00, 0xA9, 0x01, 0x8D, 0xD3, 0x00, 0xEE, 0xD1, 0x00, 0xD0, 0x9E, 0x6D, 0xD5,
        0x00, 0xA8, 0x8A, 0x6D, 0xD5, 0x00, 0xAA, 0xD0, 0xDB, 0xA2, 0x01, 0xD0, 0xEC, 0xAD, 0xD0,
        0x00, 0x6D, 0xD5, 0x00, 0x8D, 0xD0, 0x00, 0xEE, 0xCF, 0x00, 0xD0, 0xC4, 0x00, 0x00, 0x00,
        0x00, 0x00, 0x01, 0xFF, 0x49, 0x6E, 0x69, 0x74, 0x20, 0x20, 0x00, 0x20, 0x20, 0x53, 0x6F,
        0x72, 0x74, 0x65, 0x64, 0x20, 0x20, 0x00, 0x2C, 0x20, 0x00, 0x0A, 0x08, 0x03, 0x01, 0x09,
        0x07, 0x05, 0x02, 0x0A, 0x04, 0x06,
    ]
}

#[test]
fn bubble_sort_runs_to_completion() {
    let program = sort_program();
    let mut system = System::new();
    system.load_main_program(0x0000, &program);
    let halted = system.start(5_000_000).expect("no fault");
    assert!(halted, "the sort program must halt on BRK");
    assert_eq!(system.clock.cpu.nv_bdizc & BREAK_FLAG, BREAK_FLAG);

    let output = system.clock.cpu.output.clone();
    let text = String::from_utf8_lossy(&output).to_string();
    assert!(text.starts_with("Init  "), "output was: {text:?}");
    assert!(text.contains("Sorted"), "output was: {text:?}");

    // the array at 0x00EC was sorted in place
    let mut values = Vec::new();
    for i in 0..10u16 {
        values.push(system.clock.cpu.mmu.read_settled(
            &mut system.clock.memory,
            &mut system.clock.bus,
            0x00EC + i,
        ));
    }
    assert_eq!(values, vec![1, 2, 3, 4, 5, 6, 7, 8, 9, 10]);
}

#[test]
fn invariants_hold_after_every_tick() {
    let program = sort_program();
    let mut system = System::new();
    system.load_main_program(0x0000, &program);
    let mut ticks: u64 = 0;
    while system.clock.cpu.nv_bdizc & BREAK_FLAG != BREAK_FLAG && ticks < 200_000 {
        system.clock.pulse().expect("no fault");
        let cpu = &system.clock.cpu;
        // cache ages form a permutation of {0, ..., len-1}
        let n = cpu.mmu.cache.lines.len();
        let mut seen = vec![false; n];
        for line in &cpu.mmu.cache.lines {
            let age = line.age as usize;
            assert!(age < n && !seen[age], "LRU ages must form a permutation");
            seen[age] = true;
        }
        // the port token is in its enumerated set
        match cpu.pipe_mem_user {
            PipeMemUser::Execute(id) => assert!(id < 2),
            PipeMemUser::Fetch | PipeMemUser::Decode | PipeMemUser::Complete
            | PipeMemUser::Free => {}
        }
        // counters respect their bounds
        assert!(cpu.mmu.cache.cache_hits <= cpu.mmu.cache.cache_accesses);
        assert!(cpu.instruction_counter <= cpu.cpu_clock_counter);
        ticks += 1;
    }
}
