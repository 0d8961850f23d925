use emu6502::cache::NUM_LINES;
use emu6502::laws::{law_dump_leaves_clean, law_flash_byte_then_read};
use emu6502::memory::{pulse_banks, Bus, MemEvent, Memory, N_WAYS};
use emu6502::mmu::Mmu;

fn fresh_hierarchy() -> (Mmu, Vec<Memory>, Bus) {
    let mut banks: Vec<Memory> = Vec::new();
    for _ in 0..N_WAYS {
        banks.push(Memory::new());
    }
    (Mmu::new(), banks, Bus::new())
}

#[test]
fn flash_then_read_round_trip() {
    let (mut mmu, mut banks, mut bus) = fresh_hierarchy();
    assert_eq!(law_flash_byte_then_read(&mut mmu, &mut banks, &mut bus, 0x1234, 0xAB), 0xAB);
    assert_eq!(law_flash_byte_then_read(&mut mmu, &mut banks, &mut bus, 0x0000, 0x01), 0x01);
    assert_eq!(law_flash_byte_then_read(&mut mmu, &mut banks, &mut bus, 0xFFFF, 0xEE), 0xEE);
}

#[test]
fn repeat_reads_hit() {
    // flash 32 consecutive bytes, then read them all twice: the first
    // pass fills 4 lines (a miss costs two accesses), the second pass
    // hits on every byte
    let (mut mmu, mut banks, mut bus) = fresh_hierarchy();
    let image: Vec<u8> = (0..32u8).map(|i| i.wrapping_mul(3)).collect();
    mmu.static_load(&mut banks, &mut bus, &image, 0x1000);
    mmu.cache.cache_hits = 0;
    mmu.cache.cache_accesses = 0;

    for i in 0..32u16 {
        assert_eq!(mmu.read_settled(&mut banks, &mut bus, 0x1000 + i), image[i as usize]);
    }
    assert_eq!(mmu.cache.cache_accesses, 36); // 4 misses at 2 accesses each, 28 hits
    assert_eq!(mmu.cache.cache_hits, 28);

    for i in 0..32u16 {
        assert_eq!(mmu.read_settled(&mut banks, &mut bus, 0x1000 + i), image[i as usize]);
    }
    assert_eq!(mmu.cache.cache_accesses, 36 + 32);
    assert_eq!(mmu.cache.cache_hits, 28 + 32);
}

#[test]
fn lru_ages_stay_a_permutation() {
    let (mut mmu, mut banks, mut bus) = fresh_hierarchy();
    for t in 0..24u16 {
        let _ = mmu.read_settled(&mut banks, &mut bus, t * (N_WAYS as u16));
        let n = mmu.cache.lines.len();
        assert!(n <= NUM_LINES);
        let mut seen = vec![false; n];
        for line in &mmu.cache.lines {
            let age = line.age as usize;
            assert!(age < n, "age out of range");
            assert!(!seen[age], "duplicate age");
            seen[age] = true;
        }
    }
}

#[test]
fn most_recent_line_has_age_zero() {
    let (mut mmu, mut banks, mut bus) = fresh_hierarchy();
    for t in 0..4u16 {
        let _ = mmu.read_settled(&mut banks, &mut bus, t * (N_WAYS as u16));
    }
    // touch the first tag again: its line must move to age 0
    let _ = mmu.read_settled(&mut banks, &mut bus, 0x0000);
    let line = mmu.cache.lines.iter().find(|l| l.tag == 0).unwrap();
    assert_eq!(line.age, 0);
}

#[test]
fn dirty_eviction_writes_every_stripe() {
    let (mut mmu, mut banks, mut bus) = fresh_hierarchy();
    // fill the line for tag 0 and dirty every one of its bytes
    for i in 0..N_WAYS as u16 {
        let _ = mmu.read_settled(&mut banks, &mut bus, i);
    }
    for i in 0..N_WAYS as u16 {
        let hit = mmu.cache.write(&mut bus, i, 0x50 + i as u8);
        assert!(hit, "the freshly filled line must take the write");
    }
    assert!(mmu.cache.lines.iter().any(|l| l.tag == 0 && l.dirty));

    // fill the directory and one more, evicting the oldest (tag 0):
    // its write-back posts exactly one write request per stripe
    for t in 1..NUM_LINES as u16 {
        let _ = mmu.read_settled(&mut banks, &mut bus, t * (N_WAYS as u16));
    }
    let _ = mmu.cache.read(&mut bus, NUM_LINES as u16 * N_WAYS as u16); // miss: requests out
    pulse_banks(&mut banks, &mut bus); // responses in
    let filled = mmu.cache.read(&mut bus, NUM_LINES as u16 * N_WAYS as u16);
    assert_eq!(filled, Ok(Some(0x00)));
    let mut writes = 0;
    for (i, slot) in bus.to_mem.iter().enumerate() {
        match slot {
            Some(MemEvent::MemWriteRequest { mar, mdr }) => {
                assert_eq!(*mar, 0);
                assert_eq!(*mdr, 0x50 + i as u8);
                writes += 1;
            }
            Some(_) => panic!("unexpected request"),
            None => {}
        }
    }
    assert_eq!(writes, N_WAYS, "one write-back per stripe");
    pulse_banks(&mut banks, &mut bus);

    // the written bytes survived the eviction
    for i in 0..N_WAYS as u16 {
        assert_eq!(mmu.read_settled(&mut banks, &mut bus, i), 0x50 + i as u8);
    }
}

#[test]
fn memory_dump_dirties_nothing() {
    let (mut mmu, mut banks, mut bus) = fresh_hierarchy();
    let image: Vec<u8> = (0..64u8).collect();
    // write misses allocate nothing, so the cache is clean before the dump
    mmu.static_load(&mut banks, &mut bus, &image, 0x0200);
    assert!(mmu.cache.lines.iter().all(|l| !l.dirty));
    let dump = law_dump_leaves_clean(&mut mmu, &mut banks, &mut bus, 0x0200, 0x0240);
    assert_eq!(dump, image);
    assert!(mmu.cache.lines.iter().all(|l| !l.dirty));
}

#[test]
fn bank_reset_spares_the_vector_row() {
    let mut bank = Memory::new();
    bank.ram[0] = 0x11;
    bank.ram[100] = 0x22;
    let last = bank.ram.len() - 1;
    bank.ram[last] = 0x33; // the row holding the reset vector
    bank.reset();
    assert_eq!(bank.ram[0], 0);
    assert_eq!(bank.ram[100], 0);
    assert_eq!(bank.ram[last], 0x33);
}

#[test]
fn write_miss_goes_to_the_bank() {
    let (mut mmu, mut banks, mut bus) = fresh_hierarchy();
    let went_to_cache = mmu.cache.write(&mut bus, 0x0105, 0x77);
    assert!(!went_to_cache, "no write-allocate on a miss");
    assert_eq!(mmu.cache.lines.len(), 0);
    pulse_banks(&mut banks, &mut bus);
    assert_eq!(banks[0x0105 % N_WAYS].ram[0x0105 / N_WAYS], 0x77);
    assert_eq!(mmu.read_settled(&mut banks, &mut bus, 0x0105), 0x77);
}
