//! The laws of the machine that span more than one function, stated and
//! proved in one place: the LRU directory's ages form a permutation of
//! `{0, ..., len-1}`; hits never outnumber accesses and instructions
//! never outnumber cycles; flashing a byte and reading it back yields the
//! byte; and dumping memory dirties no cache line.

use vstd::prelude::*;
use vstd::set_lib::set_int_range;
use crate::cache::Cache;
use crate::cpu::Cpu;
use crate::memory::{Bus, Memory, N_WAYS};
use crate::mmu::{hierarchy_settled, observed, Mmu};

verus! {

/// Some line of the cache carries the given LRU age.
pub open spec fn some_line_has_age(c: Cache, k: int) -> bool {
    exists|i: int| 0 <= i < c.lines@.len() && (#[trigger] c.lines@[i]).age == k
}

/// The ages of the lines present in a well-formed cache are exactly
/// `{0, ..., len-1}`: all in range, no two alike, and every age in the
/// range taken by some line. The most recently accessed line holds age 0
/// by the contracts of `Cache::read` and `Cache::write`.
pub proof fn law_lru_ages_form_permutation(c: Cache)
    requires
        c.wf(),
    ensures
        forall|i: int| 0 <= i < c.lines@.len() ==> 0 <= (#[trigger] c.lines@[i]).age
            < c.lines@.len(),
        forall|i: int, j: int| 0 <= i < c.lines@.len() && 0 <= j < c.lines@.len() && i != j
            ==> (#[trigger] c.lines@[i]).age != (#[trigger] c.lines@[j]).age,
        forall|k: int| 0 <= k < c.lines@.len() ==> #[trigger] some_line_has_age(c, k),
{
    let n = c.lines@.len() as int;
    let f = |i: int| c.lines@[i].age as int;
    let indices = set_int_range(0, n);
    let ages = indices.map(f);
    let range = set_int_range(0, n);
    vstd::set_lib::lemma_int_range(0, n);
    // the age map is injective on the line indices, so the image of the
    // n indices has n members; it sits inside {0, ..., n-1}, which also
    // has n members, so the two sets are one and the map is onto
    assert(vstd::relations::injective_on(f, indices));
    vstd::set_lib::lemma_map_size(indices, ages, f);
    assert(ages.subset_of(range)) by {
        assert forall|k: int| ages.contains(k) implies range.contains(k) by {
            let i = choose|i: int| indices.contains(i) && f(i) == k;
            assert(0 <= c.lines@[i].age < n);
        }
    }
    vstd::set_lib::lemma_subset_equality(ages, range);
    assert forall|k: int| 0 <= k < n implies #[trigger] some_line_has_age(c, k) by {
        assert(range.contains(k));
        assert(ages.contains(k));
        let i = choose|i: int| indices.contains(i) && f(i) == k;
        assert(0 <= i < c.lines@.len() && c.lines@[i].age == k);
    }
}

/// Hits never outnumber accesses.
pub proof fn law_hits_bounded(c: Cache)
    requires
        c.wf(),
    ensures
        c.cache_hits <= c.cache_accesses,
{
}

/// Instructions retired never outnumber clock cycles: each tick admits at
/// most one dispatch, and only dispatched instructions retire.
pub proof fn law_instructions_bounded(c: Cpu)
    requires
        c.wf(),
    ensures
        c.instruction_counter <= c.cpu_clock_counter,
{
}

/// Flashing one byte at `a` and then reading `a` yields the byte, once
/// the fill has had its ticks to settle — which `read_settled` gives it.
pub fn law_flash_byte_then_read(
    mmu: &mut Mmu,
    banks: &mut Vec<Memory>,
    bus: &mut Bus,
    a: u16,
    v: u8,
) -> (r: u8)
    requires
        hierarchy_settled(old(mmu).cache, old(banks)@, *old(bus)),
        old(mmu).cache.cache_accesses + 3 <= u128::MAX,
    ensures
        r == v,
        hierarchy_settled(final(mmu).cache, final(banks)@, *final(bus)),
{
    let mut image: Vec<u8> = Vec::new();
    image.push(v);
    mmu.static_load(banks, bus, image.as_slice(), a);
    proof {
        assert(observed(mmu.cache, banks@, (a + 0) as u16) == image@[0]);
        assert((a + 0) as u16 == a);
    }
    mmu.read_settled(banks, bus, a)
}

/// A memory dump reads every byte of the range as observed and leaves no
/// cache line dirty, provided none was dirty when it started; dumping
/// never dirties a line.
pub fn law_dump_leaves_clean(
    mmu: &mut Mmu,
    banks: &mut Vec<Memory>,
    bus: &mut Bus,
    start_addr: u16,
    end_addr: u16,
) -> (r: Vec<u8>)
    requires
        hierarchy_settled(old(mmu).cache, old(banks)@, *old(bus)),
        old(mmu).cache.all_clean(),
        start_addr <= end_addr,
        old(mmu).cache.cache_accesses + 2 * (end_addr - start_addr) <= u128::MAX,
    ensures
        final(mmu).cache.all_clean(),
        r@.len() == end_addr - start_addr,
        forall|k: int| 0 <= k < r@.len() ==> r@[k] == observed(old(mmu).cache, old(banks)@,
            (start_addr + k) as u16),
{
    mmu.memory_dump(banks, bus, start_addr, end_addr)
}

} // verus!
