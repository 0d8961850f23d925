//! The MMU: a thin owner of the cache, plus the bulk operations the host
//! uses around the clock — flashing a program image into memory and
//! dumping a range of it.
//!
//! This module also carries the memory hierarchy's abstraction: the byte
//! `observed(cache, banks, a)` that the CPU sees at address `a` once all
//! traffic for `a` has quiesced. A present cache line wins over the
//! banks; a clean line always agrees with the banks (coherence). The
//! operations here preserve that abstraction exactly: a write changes the
//! observed byte at its own address and nothing else, and a read returns
//! the observed byte and changes none.

use vstd::prelude::*;
use crate::hardware::HardwareSpecs;
use crate::cache::{
    fill_byte, fill_data, lines_filled_evict, lines_filled_push, oldest_ix, same_but_age,
    writeback_posted, Cache, spec_tag, spec_index, NUM_LINES,
};
use crate::memory::{banks_wf, pulse_banks, pulse_effect, Bus, MemEvent, Memory, BANK_SIZE, N_WAYS};

verus! {

/// The byte the CPU observes at address `a` in a quiesced hierarchy:
/// the cache line's byte where a line for `a`'s tag is present, the
/// owning bank's byte otherwise.
pub open spec fn observed(cache: Cache, banks: Seq<Memory>, a: u16) -> u8 {
    if cache.has_tag(spec_tag(a)) {
        cache.line_at(spec_tag(a)).data@[spec_index(a) as int]
    } else {
        banks[spec_index(a) as int].ram@[spec_tag(a) as int]
    }
}

/// Every clean cache line agrees with the banks. Writes make a line
/// dirty; a dirty line's contents return to the banks on eviction.
pub open spec fn coherent(cache: Cache, banks: Seq<Memory>) -> bool {
    forall|j: int, i: int|
        0 <= j < cache.lines@.len() && 0 <= i < N_WAYS && !cache.lines@[j].dirty
            ==> (#[trigger] cache.lines@[j].data@[i]) == banks[i].ram@[cache.lines@[j].tag as int]
}

/// The whole memory side of the machine is well formed and at rest:
/// cache, banks and bus well formed, no requests in flight, and every
/// clean line agreeing with the banks.
pub open spec fn hierarchy_settled(cache: Cache, banks: Seq<Memory>, bus: Bus) -> bool {
    &&& cache.wf()
    &&& banks_wf(banks)
    &&& bus.wf()
    &&& bus.settled()
    &&& coherent(cache, banks)
}

/// In a well-formed cache the index of a present tag is unique.
pub proof fn lemma_ix_unique(c: Cache, t: u16)
    requires
        c.wf(),
        c.has_tag(t),
    ensures
        0 <= c.ix_of(t) < c.lines@.len(),
        c.lines@[c.ix_of(t)].tag == t,
        forall|i: int| 0 <= i < c.lines@.len() && (#[trigger] c.lines@[i]).tag == t ==> i == c.ix_of(t),
{
    let ix = c.ix_of(t);
    assert(0 <= ix < c.lines@.len() && c.lines@[ix].tag == t);
}

/// Two caches whose directories agree on tags and data (if not on ages,
/// dirt or counters) observe the same byte at every address.
pub proof fn lemma_observed_same_lines(pre: Cache, post: Cache, banks: Seq<Memory>)
    requires
        pre.wf(),
        post.lines@.len() == pre.lines@.len(),
        forall|j: int| 0 <= j < pre.lines@.len() ==> (#[trigger] post.lines@[j]).tag == pre.lines@[j].tag,
        forall|j: int| 0 <= j < pre.lines@.len() ==> (#[trigger] post.lines@[j]).data@ == pre.lines@[j].data@,
    ensures
        forall|a: u16| observed(post, banks, a) == observed(pre, banks, a),
{
    assert forall|a: u16| observed(post, banks, a) == observed(pre, banks, a) by {
        let t = spec_tag(a);
        if pre.has_tag(t) {
            lemma_ix_unique(pre, t);
            let ix = pre.ix_of(t);
            assert(post.lines@[ix].tag == t);
            assert(post.has_tag(t));
            let jx = post.ix_of(t);
            assert(0 <= jx < post.lines@.len() && post.lines@[jx].tag == t);
            assert(jx == ix);
        } else {
            assert forall|i: int| 0 <= i < post.lines@.len()
                implies (#[trigger] post.lines@[i]).tag != t by {
                assert(pre.lines@[i].tag != t);
            }
            assert(!post.has_tag(t));
        }
    }
}

/// A fill into a directory with room preserves the observed byte at every
/// address and keeps the hierarchy coherent: the new line is clean and
/// carries exactly the banks' bytes for its row.
pub proof fn lemma_fill_push_observed(pre: Cache, post: Cache, banks: Seq<Memory>, a: u16, fill: Seq<u8>)
    requires
        pre.wf(),
        post.wf(),
        !pre.has_tag(spec_tag(a)),
        lines_filled_push(pre.lines@, post.lines@, spec_tag(a), fill),
        banks_wf(banks),
        coherent(pre, banks),
        fill.len() == N_WAYS,
        forall|i: int| 0 <= i < N_WAYS ==> #[trigger] fill[i] == banks[i].ram@[spec_tag(a) as int],
    ensures
        coherent(post, banks),
        forall|b: u16| observed(post, banks, b) == observed(pre, banks, b),
        pre.all_clean() ==> post.all_clean(),
{
    let t = spec_tag(a);
    let n = pre.lines@.len() as int;
    assert forall|b: u16| observed(post, banks, b) == observed(pre, banks, b) by {
        let tb = spec_tag(b);
        let idx = spec_index(b) as int;
        if tb == t {
            assert(post.lines@[n].tag == t);
            assert(post.has_tag(t));
            lemma_ix_unique(post, t);
            assert(post.ix_of(t) == n);
            assert(observed(post, banks, b) == fill[idx]);
        } else if pre.has_tag(tb) {
            lemma_ix_unique(pre, tb);
            let j = pre.ix_of(tb);
            assert(same_but_age(pre.lines@[j], post.lines@[j]));
            assert(post.has_tag(tb));
            lemma_ix_unique(post, tb);
            assert(post.ix_of(tb) == j);
        } else {
            assert forall|i: int| 0 <= i < post.lines@.len()
                implies (#[trigger] post.lines@[i]).tag != tb by {
                if i < n {
                    assert(same_but_age(pre.lines@[i], post.lines@[i]));
                }
            }
            assert(!post.has_tag(tb));
        }
    }
    assert forall|j: int, i: int|
        0 <= j < post.lines@.len() && 0 <= i < N_WAYS && !post.lines@[j].dirty
        implies (#[trigger] post.lines@[j].data@[i]) == banks[i].ram@[post.lines@[j].tag as int] by {
        if j < n {
            assert(same_but_age(pre.lines@[j], post.lines@[j]));
            assert(pre.lines@[j].data@[i] == banks[i].ram@[pre.lines@[j].tag as int]);
        }
    }
    if pre.all_clean() {
        assert forall|j: int| 0 <= j < post.lines@.len()
            implies !(#[trigger] post.lines@[j]).dirty by {
            if j < n {
                assert(same_but_age(pre.lines@[j], post.lines@[j]));
                assert(!pre.lines@[j].dirty);
            }
        }
    }
}

/// A fill that evicts the oldest line preserves the observed byte at
/// every address: the evicted line's bytes either return to the banks
/// (dirty) or already agree with them (clean), and the new line carries
/// the banks' bytes for its own row.
pub proof fn lemma_fill_evict_observed(
    pre: Cache,
    post: Cache,
    pre_banks: Seq<Memory>,
    post_banks: Seq<Memory>,
    ev: int,
    a: u16,
    fill: Seq<u8>,
)
    requires
        pre.wf(),
        post.wf(),
        !pre.has_tag(spec_tag(a)),
        lines_filled_evict(pre.lines@, post.lines@, ev, spec_tag(a), fill),
        banks_wf(pre_banks),
        banks_wf(post_banks),
        coherent(pre, pre_banks),
        fill.len() == N_WAYS,
        forall|i: int| 0 <= i < N_WAYS ==> #[trigger] fill[i] == pre_banks[i].ram@[spec_tag(a) as int],
        pre.lines@[ev].dirty ==> forall|i: int| 0 <= i < N_WAYS ==>
            (#[trigger] post_banks[i]).ram@ == pre_banks[i].ram@.update(
                pre.lines@[ev].tag as int, pre.lines@[ev].data@[i]),
        !pre.lines@[ev].dirty ==> post_banks == pre_banks,
    ensures
        coherent(post, post_banks),
        forall|b: u16| observed(post, post_banks, b) == observed(pre, pre_banks, b),
        pre.all_clean() ==> post.all_clean(),
{
    let t = spec_tag(a);
    let n = pre.lines@.len() as int;
    let ev_tag = pre.lines@[ev].tag;
    assert(ev_tag != t);
    assert forall|b: u16| observed(post, post_banks, b) == observed(pre, pre_banks, b) by {
        let tb = spec_tag(b);
        let idx = spec_index(b) as int;
        if tb == t {
            assert(post.lines@[ev].tag == t);
            assert(post.has_tag(t));
            lemma_ix_unique(post, t);
            assert(post.ix_of(t) == ev);
            assert(observed(post, post_banks, b) == fill[idx]);
            assert(observed(pre, pre_banks, b) == pre_banks[idx].ram@[t as int]);
            if pre.lines@[ev].dirty {
                assert(post_banks[idx].ram@[t as int] == pre_banks[idx].ram@[t as int]);
            }
        } else if tb == ev_tag {
            // the evicted row: the cache no longer holds it, the banks do
            lemma_ix_unique(pre, ev_tag);
            assert(pre.ix_of(ev_tag) == ev);
            assert forall|i: int| 0 <= i < post.lines@.len()
                implies (#[trigger] post.lines@[i]).tag != ev_tag by {
                if i != ev {
                    assert(same_but_age(pre.lines@[i], post.lines@[i]));
                    assert(pre.lines@[i].tag != ev_tag);
                }
            }
            assert(!post.has_tag(ev_tag));
            assert(observed(pre, pre_banks, b) == pre.lines@[ev].data@[idx]);
            if pre.lines@[ev].dirty {
                assert(post_banks[idx].ram@[ev_tag as int] == pre.lines@[ev].data@[idx]);
            } else {
                assert(pre.lines@[ev].data@[idx] == pre_banks[idx].ram@[ev_tag as int]);
            }
        } else if pre.has_tag(tb) {
            lemma_ix_unique(pre, tb);
            let j = pre.ix_of(tb);
            assert(j != ev);
            assert(same_but_age(pre.lines@[j], post.lines@[j]));
            assert(post.has_tag(tb));
            lemma_ix_unique(post, tb);
            assert(post.ix_of(tb) == j);
        } else {
            assert forall|i: int| 0 <= i < post.lines@.len()
                implies (#[trigger] post.lines@[i]).tag != tb by {
                if i != ev {
                    assert(same_but_age(pre.lines@[i], post.lines@[i]));
                }
            }
            assert(!post.has_tag(tb));
            if pre.lines@[ev].dirty {
                assert(post_banks[idx].ram@[tb as int] == pre_banks[idx].ram@[tb as int]);
            }
        }
    }
    assert forall|j: int, i: int|
        0 <= j < post.lines@.len() && 0 <= i < N_WAYS && !post.lines@[j].dirty
        implies (#[trigger] post.lines@[j].data@[i])
            == post_banks[i].ram@[post.lines@[j].tag as int] by {
        if j == ev {
            assert(post.lines@[j].data@[i] == fill[i]);
            if pre.lines@[ev].dirty {
                assert(post_banks[i].ram@[t as int] == pre_banks[i].ram@[t as int]);
            }
        } else {
            assert(same_but_age(pre.lines@[j], post.lines@[j]));
            assert(pre.lines@[j].data@[i] == pre_banks[i].ram@[pre.lines@[j].tag as int]);
            assert(pre.lines@[j].tag != ev_tag);
            if pre.lines@[ev].dirty {
                assert(post_banks[i].ram@[pre.lines@[j].tag as int]
                    == pre_banks[i].ram@[pre.lines@[j].tag as int]);
            }
        }
    }
    if pre.all_clean() {
        assert forall|j: int| 0 <= j < post.lines@.len()
            implies !(#[trigger] post.lines@[j]).dirty by {
            if j != ev {
                assert(same_but_age(pre.lines@[j], post.lines@[j]));
                assert(!pre.lines@[j].dirty);
            }
        }
    }
}

/// A thin facade over the cache, exposing the bulk host operations.
pub struct Mmu {
    pub specs: HardwareSpecs,
    pub cache: Cache,
}

impl crate::hardware::Hardware for Mmu {
    fn get_specs(&self) -> &HardwareSpecs {
        &self.specs
    }
}

impl Mmu {
    pub fn new() -> (r: Self)
        ensures
            r.cache.wf(),
            r.cache.lines@.len() == 0,
            r.cache.cache_hits == 0,
            r.cache.cache_accesses == 0,
    {
        Mmu { specs: HardwareSpecs::new("MMU"), cache: Cache::new() }
    }

    /// Writes one byte through the cache and gives the banks one tick, so
    /// that a missed write commits. The observed byte at `a` becomes
    /// `value`; every other address is untouched.
    fn write_through(&mut self, banks: &mut Vec<Memory>, bus: &mut Bus, a: u16, value: u8)
        requires
            hierarchy_settled(old(self).cache, old(banks)@, *old(bus)),
            old(self).cache.cache_accesses < u128::MAX,
        ensures
            hierarchy_settled(final(self).cache, final(banks)@, *final(bus)),
            final(self).cache.cache_accesses == old(self).cache.cache_accesses + 1,
            observed(final(self).cache, final(banks)@, a) == value,
            forall|b: u16| b != a ==> observed(final(self).cache, final(banks)@, b)
                == observed(old(self).cache, old(banks)@, b),
            final(self).specs == old(self).specs,
    {
        let ghost pre_cache = self.cache;
        let ghost pre_banks = banks@;
        let hit = self.cache.write(bus, a, value);
        let ghost mid_bus = *bus;
        pulse_banks(banks, bus);
        proof {
            let t = spec_tag(a);
            let ix = spec_index(a) as int;
            assert forall|i: int| 0 <= i < N_WAYS
                implies ((#[trigger] bus.to_cpu@[i]) matches Some(e) ==> e is MemWriteResponse) by {
                assert(pulse_effect(pre_banks[i], banks@[i], mid_bus.to_mem@[i],
                    mid_bus.to_cpu@[i], bus.to_cpu@[i]));
                assert(mid_bus.to_cpu@[i] is None);
            }
            assert(bus.settled());
            if pre_cache.has_tag(t) {
                // write hit: the line absorbed the byte; the banks saw no request
                lemma_ix_unique(pre_cache, t);
                let k = pre_cache.ix_of(t);
                assert(forall|i: int| 0 <= i < N_WAYS ==>
                    (#[trigger] mid_bus.to_mem@[i]) is None);
                assert(banks@ =~= pre_banks);
                assert(self.cache.has_tag(t));
                lemma_ix_unique(self.cache, t);
                assert(self.cache.ix_of(t) == k);
                assert(observed(self.cache, banks@, a) == value);
                assert forall|b: u16| b != a implies observed(self.cache, banks@, b)
                    == observed(pre_cache, pre_banks, b) by {
                    let tb = spec_tag(b);
                    if pre_cache.has_tag(tb) {
                        lemma_ix_unique(pre_cache, tb);
                        let kb = pre_cache.ix_of(tb);
                        assert(self.cache.lines@[kb].tag == tb);
                        assert(self.cache.has_tag(tb));
                        lemma_ix_unique(self.cache, tb);
                        assert(self.cache.ix_of(tb) == kb);
                        if tb == t {
                            assert(kb == k);
                            assert(spec_index(b) != spec_index(a));
                        }
                    } else {
                        assert forall|i: int| 0 <= i < self.cache.lines@.len()
                            implies (#[trigger] self.cache.lines@[i]).tag != tb by {
                            assert(pre_cache.lines@[i].tag != tb);
                        }
                        assert(!self.cache.has_tag(tb));
                    }
                }
                assert(coherent(self.cache, banks@));
            } else {
                // write miss: the byte went straight to its bank
                assert(self.cache.lines@ == pre_cache.lines@);
                assert(mid_bus.to_mem@[ix] == Some(
                    MemEvent::MemWriteRequest { mar: t, mdr: value },
                ));
                assert(banks@[ix].ram@ =~= pre_banks[ix].ram@.update(t as int, value));
                assert forall|i: int| 0 <= i < N_WAYS && i != ix
                    implies (#[trigger] banks@[i]) == pre_banks[i] by {
                    assert(mid_bus.to_mem@[i] == old(bus).to_mem@[i]);
                }
                assert(!self.cache.has_tag(t));
                assert(observed(self.cache, banks@, a) == value);
                assert forall|b: u16| b != a implies observed(self.cache, banks@, b)
                    == observed(pre_cache, pre_banks, b) by {
                    let tb = spec_tag(b);
                    if pre_cache.has_tag(tb) {
                        lemma_ix_unique(pre_cache, tb);
                        assert(self.cache.has_tag(tb));
                        lemma_ix_unique(self.cache, tb);
                        assert(self.cache.ix_of(tb) == pre_cache.ix_of(tb));
                    } else {
                        assert(!self.cache.has_tag(tb));
                        if spec_index(b) as int == ix && tb == t {
                            assert(b == a) by {
                                assert(b == ((tb * (N_WAYS as u16)) + spec_index(b)) as u16) by {
                                    assert(spec_tag(b) == b / 8 && spec_index(b) == b % 8);
                                };
                                assert(a == ((t * (N_WAYS as u16)) + spec_index(a)) as u16);
                            };
                        }
                    }
                }
                assert forall|j: int, i: int|
                    0 <= j < self.cache.lines@.len() && 0 <= i < N_WAYS
                        && !self.cache.lines@[j].dirty
                    implies (#[trigger] self.cache.lines@[j].data@[i])
                        == banks@[i].ram@[self.cache.lines@[j].tag as int] by {
                    assert(self.cache.lines@[j].tag != t);
                }
                assert(coherent(self.cache, banks@));
            }
        }
    }

    /// Reads the byte at `a`, giving the banks the ticks a miss needs: a
    /// hit answers at once, a miss requests the line, lets the banks
    /// respond, completes the fill and commits any write-back of an
    /// evicted dirty line. Returns the observed byte at `a` and leaves
    /// the observed byte unchanged at every address.
    pub fn read_settled(&mut self, banks: &mut Vec<Memory>, bus: &mut Bus, a: u16) -> (r: u8)
        requires
            hierarchy_settled(old(self).cache, old(banks)@, *old(bus)),
            old(self).cache.cache_accesses + 2 <= u128::MAX,
        ensures
            hierarchy_settled(final(self).cache, final(banks)@, *final(bus)),
            r == observed(old(self).cache, old(banks)@, a),
            forall|b: u16| observed(final(self).cache, final(banks)@, b)
                == observed(old(self).cache, old(banks)@, b),
            old(self).cache.all_clean() ==> final(self).cache.all_clean(),
            old(self).cache.cache_accesses + 1 <= final(self).cache.cache_accesses
                <= old(self).cache.cache_accesses + 2,
            final(self).specs == old(self).specs,
    {
        let ghost pre_cache = self.cache;
        let ghost pre_banks = banks@;
        let ghost t = spec_tag(a);
        let ghost ix = spec_index(a) as int;
        let first = self.cache.read(bus, a);
        match first {
            Ok(Some(v)) => {
                // a hit: the line was present, only its age changed
                proof {
                    assert(pre_cache.has_tag(t));
                    lemma_ix_unique(pre_cache, t);
                    lemma_observed_same_lines(pre_cache, self.cache, banks@);
                    assert(coherent(self.cache, banks@)) by {
                        assert forall|j: int, i: int|
                            0 <= j < self.cache.lines@.len() && 0 <= i < N_WAYS
                                && !self.cache.lines@[j].dirty
                            implies (#[trigger] self.cache.lines@[j].data@[i])
                                == banks@[i].ram@[self.cache.lines@[j].tag as int] by {
                            assert(!pre_cache.lines@[j].dirty);
                            assert(pre_cache.lines@[j].data@[i]
                                == pre_banks[i].ram@[pre_cache.lines@[j].tag as int]);
                        }
                    };
                    assert(bus.settled());
                }
                v
            }
            Ok(None) => {
                // a miss: the line's row was just requested from every bank
                proof {
                    assert(!pre_cache.has_tag(t));
                }
                let ghost mid2_bus = *bus;
                pulse_banks(banks, bus);
                proof {
                    assert forall|i: int| 0 <= i < N_WAYS
                        implies (#[trigger] banks@[i]) == pre_banks[i] by {
                        assert(pulse_effect(pre_banks[i], banks@[i], mid2_bus.to_mem@[i],
                            mid2_bus.to_cpu@[i], bus.to_cpu@[i]));
                        assert(mid2_bus.to_mem@[i] == Some(MemEvent::MemReadRequest { mar: t }));
                    }
                    assert forall|i: int| 0 <= i < N_WAYS
                        implies (#[trigger] bus.to_cpu@[i]) == Some(MemEvent::MemReadResponse {
                            mdr: pre_banks[i].ram@[t as int],
                        }) by {
                        assert(pulse_effect(pre_banks[i], banks@[i], mid2_bus.to_mem@[i],
                            mid2_bus.to_cpu@[i], bus.to_cpu@[i]));
                        assert(mid2_bus.to_mem@[i] == Some(MemEvent::MemReadRequest { mar: t }));
                    }
                    assert(banks@ =~= pre_banks);
                    assert(bus.to_cpu@[0] matches Some(MemEvent::MemReadResponse { .. }));
                    assert(bus.has_read_response());
                    assert(!bus.has_write_response());
                    assert(!self.cache.has_tag(t));
                }
                let ghost mid_bus = *bus;
                let second = self.cache.read(bus, a);
                let ghost mid3_bus = *bus;
                let ghost mid_cache = self.cache;
                pulse_banks(banks, bus);
                proof {
                    assert(second == Ok::<Option<u8>, ()>(Some(fill_byte(mid_bus, ix))));
                    assert(fill_byte(mid_bus, ix) == pre_banks[ix].ram@[t as int]);
                    assert(observed(pre_cache, pre_banks, a) == pre_banks[ix].ram@[t as int]);
                }
                match second {
                    Ok(Some(v)) => {
                        proof {
                            let fill = fill_data(mid_bus);
                            assert forall|i: int| 0 <= i < N_WAYS
                                implies #[trigger] fill[i] == pre_banks[i].ram@[t as int] by {
                                assert(fill[i] == fill_byte(mid_bus, i));
                            }
                            if pre_cache.lines@.len() < NUM_LINES {
                                // the fill fit; the last tick had nothing to do
                                assert(lines_filled_push(pre_cache.lines@, mid_cache.lines@, t, fill));
                                assert forall|i: int| 0 <= i < N_WAYS
                                    implies (#[trigger] banks@[i]) == pre_banks[i]
                                        && bus.to_cpu@[i] == mid3_bus.to_cpu@[i] by {
                                    assert(pulse_effect(pre_banks[i], banks@[i], mid3_bus.to_mem@[i],
                                        mid3_bus.to_cpu@[i], bus.to_cpu@[i]));
                                    assert(mid3_bus.to_mem@[i] is None);
                                }
                                assert forall|i: int| 0 <= i < N_WAYS
                                    implies (#[trigger] bus.to_cpu@[i]) is None by {
                                    assert(pulse_effect(pre_banks[i], banks@[i], mid3_bus.to_mem@[i],
                                        mid3_bus.to_cpu@[i], bus.to_cpu@[i]));
                                    assert(mid3_bus.to_mem@[i] is None);
                                    assert(mid3_bus.to_cpu@[i] is None);
                                }
                                assert(banks@ =~= pre_banks);
                                lemma_fill_push_observed(pre_cache, mid_cache, pre_banks, a, fill);
                                assert(bus.settled());
                            } else {
                                // the fill evicted the oldest line; a dirty one
                                // was written back and committed by the last tick
                                let ev = oldest_ix(pre_cache.lines@);
                                assert(lines_filled_evict(pre_cache.lines@, mid_cache.lines@, ev, t, fill));
                                if pre_cache.lines@[ev].dirty {
                                    assert(writeback_posted(mid3_bus, pre_cache.lines@[ev]));
                                    assert forall|i: int| 0 <= i < N_WAYS
                                        implies (#[trigger] banks@[i]).ram@ == pre_banks[i].ram@.update(
                                            pre_cache.lines@[ev].tag as int,
                                            pre_cache.lines@[ev].data@[i],
                                        ) by {
                                        assert(pulse_effect(pre_banks[i], banks@[i], mid3_bus.to_mem@[i],
                                            mid3_bus.to_cpu@[i], bus.to_cpu@[i]));
                                        assert(mid3_bus.to_mem@[i] == Some(MemEvent::MemWriteRequest {
                                            mar: pre_cache.lines@[ev].tag,
                                            mdr: pre_cache.lines@[ev].data@[i],
                                        }));
                                    }
                                    assert forall|i: int| 0 <= i < N_WAYS
                                        implies (#[trigger] bus.to_cpu@[i]) == Some(
                                            MemEvent::MemWriteResponse,
                                        ) by {
                                        assert(pulse_effect(pre_banks[i], banks@[i], mid3_bus.to_mem@[i],
                                            mid3_bus.to_cpu@[i], bus.to_cpu@[i]));
                                        assert(mid3_bus.to_mem@[i] == Some(MemEvent::MemWriteRequest {
                                            mar: pre_cache.lines@[ev].tag,
                                            mdr: pre_cache.lines@[ev].data@[i],
                                        }));
                                    }
                                } else {
                                    assert forall|i: int| 0 <= i < N_WAYS
                                        implies (#[trigger] banks@[i]) == pre_banks[i] by {
                                        assert(pulse_effect(pre_banks[i], banks@[i], mid3_bus.to_mem@[i],
                                            mid3_bus.to_cpu@[i], bus.to_cpu@[i]));
                                        assert(mid3_bus.to_mem@[i] is None);
                                    }
                                    assert forall|i: int| 0 <= i < N_WAYS
                                        implies (#[trigger] bus.to_cpu@[i]) is None by {
                                        assert(pulse_effect(pre_banks[i], banks@[i], mid3_bus.to_mem@[i],
                                            mid3_bus.to_cpu@[i], bus.to_cpu@[i]));
                                        assert(mid3_bus.to_mem@[i] is None);
                                        assert(mid3_bus.to_cpu@[i] is None);
                                    }
                                    assert(banks@ =~= pre_banks);
                                }
                                lemma_fill_evict_observed(pre_cache, mid_cache, pre_banks, banks@, ev, a, fill);
                                assert(bus.settled());
                            }
                        }
                        v
                    }
                    _ => {
                        proof {
                            assert(false);
                        }
                        0
                    }
                }
            }
            Err(()) => {
                // a settled bus holds no fill response, so the transient
                // read-and-write collision cannot arise here
                proof {
                    assert(false);
                }
                0
            }
        }
    }

    /// Flashes a byte image into memory before the clock starts: the
    /// first value lands at `start_addr`, and the banks get one tick per
    /// byte so that missed writes commit. Afterwards the observed byte at
    /// `start_addr + k` is `values[k]` for every `k`, and every address
    /// outside the image is untouched.
    pub fn static_load(&mut self, banks: &mut Vec<Memory>, bus: &mut Bus, values: &[u8], start_addr: u16)
        requires
            hierarchy_settled(old(self).cache, old(banks)@, *old(bus)),
            start_addr + values@.len() <= 0x10000,
            old(self).cache.cache_accesses + values@.len() <= u128::MAX,
        ensures
            hierarchy_settled(final(self).cache, final(banks)@, *final(bus)),
            forall|k: int| 0 <= k < values@.len() ==>
                observed(final(self).cache, final(banks)@, (start_addr + k) as u16) == values@[k],
            forall|b: u16| !(start_addr <= b < start_addr + values@.len()) ==>
                observed(final(self).cache, final(banks)@, b)
                    == observed(old(self).cache, old(banks)@, b),
            final(self).cache.cache_accesses == old(self).cache.cache_accesses + values@.len(),
            final(self).specs == old(self).specs,
    {
        let ghost pre_cache = self.cache;
        let ghost pre_banks = old(banks)@;
        let n = values.len();
        let mut i: usize = 0;
        while i < n
            invariant
                hierarchy_settled(self.cache, banks@, *bus),
                n == values@.len(),
                i <= n,
                start_addr + n <= 0x10000,
                self.cache.cache_accesses == pre_cache.cache_accesses + i,
                pre_cache.cache_accesses + n <= u128::MAX,
                forall|k: int| 0 <= k < i ==>
                    observed(self.cache, banks@, (start_addr + k) as u16) == values@[k],
                forall|b: u16| !(start_addr <= b < start_addr + i) ==>
                    observed(self.cache, banks@, b) == observed(pre_cache, pre_banks, b),
                self.specs == old(self).specs,
            decreases n - i,
        {
            let v = values[i];
            self.write_through(banks, bus, start_addr + (i as u16), v);
            i = i + 1;
        }
    }

    /// Reads the values at each address in `start_addr..end_addr`, giving
    /// the banks the ticks misses need. Returns the observed bytes, in
    /// address order; reading changes no observed byte and dirties no
    /// line.
    pub fn memory_dump(&mut self, banks: &mut Vec<Memory>, bus: &mut Bus, start_addr: u16, end_addr: u16) -> (r: Vec<u8>)
        requires
            hierarchy_settled(old(self).cache, old(banks)@, *old(bus)),
            start_addr <= end_addr,
            old(self).cache.cache_accesses + 2 * (end_addr - start_addr) <= u128::MAX,
        ensures
            hierarchy_settled(final(self).cache, final(banks)@, *final(bus)),
            r@.len() == end_addr - start_addr,
            forall|k: int| 0 <= k < r@.len() ==>
                r@[k] == observed(old(self).cache, old(banks)@, (start_addr + k) as u16),
            forall|b: u16| observed(final(self).cache, final(banks)@, b)
                == observed(old(self).cache, old(banks)@, b),
            old(self).cache.all_clean() ==> final(self).cache.all_clean(),
            final(self).specs == old(self).specs,
    {
        let ghost pre_cache = self.cache;
        let ghost pre_banks = old(banks)@;
        let n: usize = (end_addr - start_addr) as usize;
        let mut out: Vec<u8> = Vec::new();
        let mut i: usize = 0;
        while i < n
            invariant
                hierarchy_settled(self.cache, banks@, *bus),
                n == end_addr - start_addr,
                i <= n,
                out@.len() == i,
                self.cache.cache_accesses <= pre_cache.cache_accesses + 2 * i,
                pre_cache.cache_accesses + 2 * n <= u128::MAX,
                forall|k: int| 0 <= k < i ==>
                    out@[k] == observed(pre_cache, pre_banks, (start_addr + k) as u16),
                forall|b: u16| observed(self.cache, banks@, b) == observed(pre_cache, pre_banks, b),
                pre_cache.all_clean() ==> self.cache.all_clean(),
                self.specs == old(self).specs,
            decreases n - i,
        {
            let v = self.read_settled(banks, bus, start_addr + (i as u16));
            out.push(v);
            i = i + 1;
        }
        out
    }
}

} // verus!
