//! The top-level driver: loads the program image, runs the tick loop
//! until the CPU halts on BRK (or the tick budget runs out), and leaves
//! the statistics in the counters and the console bytes in the CPU's
//! output buffer for the host to print.

use vstd::prelude::*;
use crate::clock::Clock;
use crate::cpu::{flag_set, BREAK_FLAG};
use crate::hardware::HardwareSpecs;
use crate::mmu::{hierarchy_settled, observed};
use crate::Fault;

verus! {

pub struct System {
    pub specs: HardwareSpecs,
    pub clock: Clock,
}

impl crate::hardware::Hardware for System {
    fn get_specs(&self) -> &HardwareSpecs {
        &self.specs
    }
}

impl System {
    /// Instantiates a new System object: a fresh machine, memory zeroed
    /// and at rest.
    pub fn new() -> (r: Self)
        ensures
            r.clock.wf(),
            hierarchy_settled(r.clock.cpu.mmu.cache, r.clock.memory@, r.clock.bus),
            r.clock.cpu.cpu_clock_counter == 0,
            r.clock.cpu.instruction_counter == 0,
            r.clock.cpu.pc == 0,
            r.clock.cpu.nv_bdizc == 0b0010_0000,
            r.clock.cpu.output@.len() == 0,
            r.clock.cpu.mmu.cache.cache_accesses == 0,
            forall|a: u16| observed(r.clock.cpu.mmu.cache, r.clock.memory@, a) == 0u8,
    {
        let s = System { specs: HardwareSpecs::new("System"), clock: Clock::new() };
        proof {
            assert forall|a: u16| observed(s.clock.cpu.mmu.cache, s.clock.memory@, a) == 0u8 by {
                assert(!s.clock.cpu.mmu.cache.has_tag(crate::cache::spec_tag(a)));
            }
        }
        s
    }

    /// Loads a set of instructions into memory. Must be called before
    /// `System::start`, while the memory hierarchy is still at rest.
    pub fn load_main_program(&mut self, address: u16, program: &[u8])
        requires
            hierarchy_settled(old(self).clock.cpu.mmu.cache, old(self).clock.memory@,
                old(self).clock.bus),
            address + program@.len() <= 0x10000,
            old(self).clock.cpu.mmu.cache.cache_accesses + program@.len() <= u128::MAX,
            old(self).clock.cpu.wf(),
        ensures
            hierarchy_settled(final(self).clock.cpu.mmu.cache, final(self).clock.memory@,
                final(self).clock.bus),
            final(self).clock.wf(),
            forall|k: int| 0 <= k < program@.len() ==> observed(final(self).clock.cpu.mmu.cache,
                final(self).clock.memory@, (address + k) as u16) == program@[k],
            forall|b: u16| !(address <= b < address + program@.len()) ==> observed(
                final(self).clock.cpu.mmu.cache, final(self).clock.memory@, b) == observed(
                old(self).clock.cpu.mmu.cache, old(self).clock.memory@, b),
            final(self).clock.cpu.pc == old(self).clock.cpu.pc,
            final(self).clock.cpu.output == old(self).clock.cpu.output,
            final(self).clock.cpu.nv_bdizc == old(self).clock.cpu.nv_bdizc,
            final(self).clock.cpu.cpu_clock_counter == old(self).clock.cpu.cpu_clock_counter,
    {
        self.clock.cpu.mmu.static_load(&mut self.clock.memory, &mut self.clock.bus, program,
            address);
    }

    /// Starts the system: dumps the first page of memory (as the hardware
    /// does at power-on), clears the cache statistics, then pulses the
    /// clock until the CPU's Break flag is set or `max_ticks` ticks have
    /// passed. Returns whether the machine halted.
    pub fn start(&mut self, max_ticks: u64) -> (r: Result<bool, Fault>)
        requires
            hierarchy_settled(old(self).clock.cpu.mmu.cache, old(self).clock.memory@,
                old(self).clock.bus),
            old(self).clock.wf(),
            old(self).clock.cpu.mmu.cache.cache_accesses + 42 <= u128::MAX,
            old(self).clock.cpu.cpu_clock_counter + max_ticks + 2 <= u128::MAX,
        ensures
            r is Ok ==> final(self).clock.wf(),
            r matches Ok(halted) ==> halted == flag_set(final(self).clock.cpu.nv_bdizc,
                BREAK_FLAG),
            old(self).clock.cpu.output@.is_prefix_of(final(self).clock.cpu.output@),
            r is Ok ==> final(self).clock.cpu.instruction_counter
                <= final(self).clock.cpu.cpu_clock_counter,
            final(self).clock.cpu.mmu.cache.cache_hits
                <= final(self).clock.cpu.mmu.cache.cache_accesses,
            // the driver really runs: each tick advances the clock by
            // one, a machine that did not halt used the whole budget, and
            // even a fault was reached by running at least one tick
            r is Ok ==> old(self).clock.cpu.cpu_clock_counter
                <= final(self).clock.cpu.cpu_clock_counter <= old(self).clock.cpu.cpu_clock_counter
                + max_ticks,
            r == Ok::<bool, Fault>(false) ==> final(self).clock.cpu.cpu_clock_counter
                == old(self).clock.cpu.cpu_clock_counter + max_ticks,
            r is Err ==> final(self).clock.cpu.cpu_clock_counter
                > old(self).clock.cpu.cpu_clock_counter,
    {
        let _boot_dump = self.clock.cpu.mmu.memory_dump(&mut self.clock.memory,
            &mut self.clock.bus, 0x0000, 0x0015);
        self.clock.cpu.mmu.cache.cache_hits = 0;
        self.clock.cpu.mmu.cache.cache_accesses = 0;
        let ghost pre = *self;
        proof {
            crate::cpu::lemma_output_prefix_refl(pre.clock.cpu.output@);
            assert(pre.clock.cpu.output@ == old(self).clock.cpu.output@);
            assert(pre.clock.cpu.cpu_clock_counter == old(self).clock.cpu.cpu_clock_counter);
        }
        let mut i: u64 = 0;
        while i < max_ticks
            invariant
                self.clock.wf(),
                i <= max_ticks,
                self.clock.cpu.cpu_clock_counter == pre.clock.cpu.cpu_clock_counter + i,
                pre.clock.cpu.cpu_clock_counter == old(self).clock.cpu.cpu_clock_counter,
                pre.clock.cpu.cpu_clock_counter + max_ticks + 2 <= u128::MAX,
                self.clock.cpu.mmu.cache.cache_accesses <= 6 * (i as int),
                pre.clock.cpu.output@ == old(self).clock.cpu.output@,
                pre.clock.cpu.output@.is_prefix_of(self.clock.cpu.output@),
                self.specs == pre.specs,
            decreases max_ticks - i,
        {
            if self.clock.cpu.nv_bdizc & BREAK_FLAG == BREAK_FLAG {
                return Ok(true);
            }
            let ghost mid = *self;
            match self.clock.pulse() {
                Err(f) => {
                    return Err(f);
                }
                Ok(()) => {}
            }
            proof {
                crate::cpu::lemma_output_prefix_trans(pre.clock.cpu.output@, mid.clock.cpu.output@,
                    self.clock.cpu.output@);
            }
            i = i + 1;
        }
        Ok(self.clock.cpu.nv_bdizc & BREAK_FLAG == BREAK_FLAG)
    }
}

} // verus!
