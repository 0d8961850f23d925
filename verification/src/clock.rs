//! The clock composes the CPU, the banks and the bus between them, and
//! advances every device exactly once per tick.

use vstd::prelude::*;
use crate::cpu::Cpu;
use crate::hardware::HardwareSpecs;
use crate::memory::{banks_wf, pulse_banks, Bus, Memory, N_WAYS};
use crate::mmu::hierarchy_settled;
use crate::Fault;

verus! {

pub struct Clock {
    pub specs: HardwareSpecs,
    pub cpu: Cpu,
    pub memory: Vec<Memory>,
    pub bus: Bus,
}

impl crate::hardware::Hardware for Clock {
    fn get_specs(&self) -> &HardwareSpecs {
        &self.specs
    }
}

impl Clock {
    /// Every part well formed, and the banks having consumed every
    /// request — which holds at every tick boundary, since the banks
    /// pulse last.
    pub open spec fn wf(self) -> bool {
        &&& self.cpu.wf()
        &&& banks_wf(self.memory@)
        &&& self.bus.wf()
        &&& self.bus.requests_clear()
    }

    pub fn new() -> (r: Self)
        ensures
            r.wf(),
            hierarchy_settled(r.cpu.mmu.cache, r.memory@, r.bus),
            r.cpu.cpu_clock_counter == 0,
            r.cpu.instruction_counter == 0,
            r.cpu.pc == 0,
            r.cpu.nv_bdizc == 0b0010_0000,
            r.cpu.output@.len() == 0,
            r.cpu.mmu.cache.cache_hits == 0,
            r.cpu.mmu.cache.cache_accesses == 0,
            r.cpu.mmu.cache.lines@.len() == 0,
            forall|i: int, j: int| 0 <= i < N_WAYS && 0 <= j < crate::memory::BANK_SIZE ==>
                (#[trigger] r.memory@[i].ram@[j]) == 0u8,
    {
        let mut memory: Vec<Memory> = Vec::new();
        let mut i: usize = 0;
        while i < N_WAYS
            invariant
                memory@.len() == i,
                i <= N_WAYS,
                forall|j: int| 0 <= j < i ==> (#[trigger] memory@[j]).wf(),
                forall|j: int, k: int| 0 <= j < i && 0 <= k < crate::memory::BANK_SIZE ==>
                    (#[trigger] memory@[j].ram@[k]) == 0u8,
            decreases N_WAYS - i,
        {
            memory.push(Memory::new());
            i = i + 1;
        }
        Clock { specs: HardwareSpecs::new("Clock"), cpu: Cpu::new(), memory, bus: Bus::new() }
    }

    /// One tick: the CPU's pipeline advances, then every bank services at
    /// most one pending request, so all request slots are clear again at
    /// the boundary.
    pub fn pulse(&mut self) -> (r: Result<(), Fault>)
        requires
            old(self).wf(),
            old(self).cpu.cpu_clock_counter + 2 <= u128::MAX,
            old(self).cpu.mmu.cache.cache_accesses + 6 <= u128::MAX,
        ensures
            r is Ok ==> final(self).wf(),
            final(self).cpu.cpu_clock_counter == old(self).cpu.cpu_clock_counter + 1,
            old(self).cpu.instruction_counter <= final(self).cpu.instruction_counter,
            final(self).cpu.instruction_counter <= final(self).cpu.cpu_clock_counter,
            old(self).cpu.mmu.cache.cache_accesses <= final(self).cpu.mmu.cache.cache_accesses
                <= old(self).cpu.mmu.cache.cache_accesses + 6,
            final(self).cpu.mmu.cache.cache_hits <= final(self).cpu.mmu.cache.cache_accesses,
            old(self).cpu.output@.is_prefix_of(final(self).cpu.output@),
            crate::cpu::flag_set(old(self).cpu.nv_bdizc, crate::cpu::BREAK_FLAG)
                ==> crate::cpu::flag_set(final(self).cpu.nv_bdizc, crate::cpu::BREAK_FLAG),
            final(self).specs == old(self).specs,
            // the tick in full: the CPU ran one whole pipeline pass over
            // the bus, and then every bank serviced at most one request
            // from the bus the CPU left behind
            r is Ok ==> exists|mid_bus: Bus| {
                &&& #[trigger] crate::cpu::cpu_tick(old(self).cpu, old(self).bus, final(self).cpu,
                    mid_bus)
                &&& final(self).bus.requests_clear()
                &&& forall|i: int| 0 <= i < N_WAYS ==> #[trigger] crate::memory::pulse_effect(
                    old(self).memory@[i], final(self).memory@[i], mid_bus.to_mem@[i],
                    mid_bus.to_cpu@[i], final(self).bus.to_cpu@[i])
            },
    {
        match self.cpu.pulse(&mut self.bus) {
            Err(f) => {
                return Err(f);
            }
            Ok(()) => {}
        }
        let ghost mid = self.bus;
        pulse_banks(&mut self.memory, &mut self.bus);
        proof {
            assert(crate::cpu::cpu_tick(old(self).cpu, old(self).bus, self.cpu, mid));
        }
        Ok(())
    }
}

} // verus!
