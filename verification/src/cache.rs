//! A fully-associative (by tag) write-back cache of up to `NUM_LINES`
//! lines with LRU replacement. One line holds one byte per stripe, all at
//! the same stripe-local row (the tag); the line for address `a` covers
//! the `N_WAYS` addresses whose tag is `a / N_WAYS`, and `a` itself sits
//! at index `a % N_WAYS` within it.
//!
//! Ages across the lines present always form a permutation of
//! `{0, ..., len-1}`, with the most recently accessed line at age 0; that
//! is the LRU invariant, part of [`Cache::wf`].

use vstd::prelude::*;
use vstd::pervasive::VecAdditionalExecFns;
use crate::hardware::HardwareSpecs;
use crate::memory::{Bus, MemEvent, BANK_SIZE, N_WAYS};

verus! {

/// Capacity of the cache directory, in lines.
pub const NUM_LINES: usize = 16;

/// One cache line: `data[i]` is the byte belonging to stripe `i` at
/// address `tag * N_WAYS + i`. Age 0 is most recently used.
pub struct CacheLine {
    pub tag: u16,
    pub data: Vec<u8>,
    pub dirty: bool,
    pub age: u8,
}

impl CacheLine {
    /// A freshly filled line: clean and most recently used.
    pub fn new(tag: u16, data: Vec<u8>) -> (r: Self)
        ensures
            r.tag == tag,
            r.data@ == data@,
            !r.dirty,
            r.age == 0,
    {
        CacheLine { tag, data, dirty: false, age: 0 }
    }
}

/// The stripe-local row that backs address `a`.
pub open spec fn spec_tag(a: u16) -> u16 {
    a / (N_WAYS as u16)
}

/// The stripe (and the index within a cache line) of address `a`.
pub open spec fn spec_index(a: u16) -> u16 {
    a % (N_WAYS as u16)
}

/// Two lines that agree on everything but the LRU age.
pub open spec fn same_but_age(pre: CacheLine, post: CacheLine) -> bool {
    &&& post.tag == pre.tag
    &&& post.data@ == pre.data@
    &&& post.dirty == pre.dirty
}

/// The byte stripe `i` delivered into a fill, or 0x00 where no read
/// response arrived.
pub open spec fn fill_byte(pre_bus: Bus, i: int) -> u8 {
    match pre_bus.to_cpu@[i] {
        Some(MemEvent::MemReadResponse { mdr }) => mdr,
        _ => 0u8,
    }
}

/// The whole line a fill composes: one byte per stripe, 0x00 where no
/// read response arrived.
pub open spec fn fill_data(pre_bus: Bus) -> Seq<u8> {
    Seq::new(N_WAYS as nat, |i: int| fill_byte(pre_bus, i))
}

/// Whether line `i` is an oldest line (maximum age).
pub open spec fn is_oldest(lines: Seq<CacheLine>, i: int) -> bool {
    &&& 0 <= i < lines.len()
    &&& forall|j: int| 0 <= j < lines.len() ==> (#[trigger] lines[j]).age <= lines[i].age
}

/// The index of the oldest line; with distinct ages it is unique, and it
/// is the line a full directory evicts.
pub open spec fn oldest_ix(lines: Seq<CacheLine>) -> int {
    choose|i: int| is_oldest(lines, i)
}

/// With distinct ages there is only one oldest line.
pub proof fn lemma_oldest_unique(lines: Seq<CacheLine>, i: int)
    requires
        is_oldest(lines, i),
        forall|j: int, k: int| 0 <= j < lines.len() && 0 <= k < lines.len() && j != k
            ==> (#[trigger] lines[j]).age != (#[trigger] lines[k]).age,
    ensures
        oldest_ix(lines) == i,
{
    let o = oldest_ix(lines);
    assert(is_oldest(lines, o));
    if o != i {
        assert(lines[o].age <= lines[i].age);
        assert(lines[i].age <= lines[o].age);
    }
}

/// The byte a successful read delivers this tick: the cached line's byte
/// on a hit, the just-arrived fill byte otherwise.
pub open spec fn read_result_byte(c: Cache, b: Bus, a: u16) -> u8 {
    if c.has_tag(spec_tag(a)) {
        c.line_at(spec_tag(a)).data@[spec_index(a) as int]
    } else {
        fill_byte(b, spec_index(a) as int)
    }
}

/// An LRU rotation: line `k` was accessed, so it moves to age 0 and every
/// line that was younger than it ages by one; nothing else changes.
pub open spec fn lines_touched(pre: Seq<CacheLine>, post: Seq<CacheLine>, k: int) -> bool {
    &&& post.len() == pre.len()
    &&& 0 <= k < pre.len()
    &&& forall|j: int| 0 <= j < pre.len() ==> same_but_age(pre[j], #[trigger] post[j])
    &&& post[k].age == 0
    &&& forall|j: int| 0 <= j < pre.len() && j != k ==> (#[trigger] post[j]).age == (
            if pre[j].age < pre[k].age { pre[j].age + 1 } else { pre[j].age as int }
        )
}

/// A fill into a directory with room: every survivor ages by one and the
/// new line is appended at age 0, clean.
pub open spec fn lines_filled_push(pre: Seq<CacheLine>, post: Seq<CacheLine>, tag: u16, data: Seq<u8>) -> bool {
    &&& post.len() == pre.len() + 1
    &&& forall|j: int| 0 <= j < pre.len() ==> same_but_age(pre[j], #[trigger] post[j])
    &&& forall|j: int| 0 <= j < pre.len() ==> (#[trigger] post[j]).age == pre[j].age + 1
    &&& post[pre.len() as int].tag == tag
    &&& post[pre.len() as int].data@ == data
    &&& !post[pre.len() as int].dirty
    &&& post[pre.len() as int].age == 0
}

/// A fill into a full directory: the line at `ev` (the oldest) is
/// replaced by the new line at age 0, and every survivor ages by one.
pub open spec fn lines_filled_evict(pre: Seq<CacheLine>, post: Seq<CacheLine>, ev: int, tag: u16, data: Seq<u8>) -> bool {
    &&& post.len() == pre.len()
    &&& 0 <= ev < pre.len()
    &&& forall|j: int| 0 <= j < pre.len() ==> (#[trigger] pre[j]).age <= pre[ev].age
    &&& forall|j: int| 0 <= j < pre.len() && j != ev ==> same_but_age(pre[j], #[trigger] post[j])
    &&& forall|j: int| 0 <= j < pre.len() && j != ev ==> (#[trigger] post[j]).age == pre[j].age + 1
    &&& post[ev].tag == tag
    &&& post[ev].data@ == data
    &&& !post[ev].dirty
    &&& post[ev].age == 0
}

/// A write hit on line `k`: its byte for stripe `ix` becomes `value`, the
/// line is marked dirty and moves to age 0, and every line that was
/// younger ages by one; nothing else changes.
pub open spec fn lines_written(pre: Seq<CacheLine>, post: Seq<CacheLine>, k: int, ix: int, value: u8) -> bool {
    &&& post.len() == pre.len()
    &&& 0 <= k < pre.len()
    &&& post[k].tag == pre[k].tag
    &&& post[k].data@ == pre[k].data@.update(ix, value)
    &&& post[k].dirty
    &&& post[k].age == 0
    &&& forall|j: int| 0 <= j < pre.len() && j != k ==> same_but_age(pre[j], #[trigger] post[j])
    &&& forall|j: int| 0 <= j < pre.len() && j != k ==> (#[trigger] post[j]).age == (
            if pre[j].age < pre[k].age { pre[j].age + 1 } else { pre[j].age as int }
        )
}

/// The write-back of a dirty evicted line: one `MemWriteRequest` per
/// stripe, carrying the line's byte for that stripe at the line's tag.
pub open spec fn writeback_posted(post_bus: Bus, line: CacheLine) -> bool {
    forall|i: int| 0 <= i < N_WAYS ==> post_bus.to_mem@[i] == Some(
        MemEvent::MemWriteRequest { mar: line.tag, mdr: line.data@[i] },
    )
}

/// A `MemReadRequest` for row `tag` posted to every stripe.
pub open spec fn read_requests_posted(post_bus: Bus, tag: u16) -> bool {
    forall|i: int| 0 <= i < N_WAYS ==> post_bus.to_mem@[i] == Some(
        MemEvent::MemReadRequest { mar: tag },
    )
}

/// The set-associative write-back cache between the CPU and the banks.
pub struct Cache {
    pub specs: HardwareSpecs,
    pub lines: Vec<CacheLine>,
    pub cache_hits: u128,
    pub cache_accesses: u128,
}

impl crate::hardware::Hardware for Cache {
    fn get_specs(&self) -> &HardwareSpecs {
        &self.specs
    }
}

impl Cache {
    /// The LRU directory invariant: at most `NUM_LINES` lines, one byte
    /// per stripe in each, distinct tags, and ages that form a
    /// permutation of `{0, ..., len-1}`. Hits never outnumber accesses.
    pub open spec fn wf(self) -> bool {
        &&& self.lines@.len() <= NUM_LINES
        &&& forall|i: int| 0 <= i < self.lines@.len() ==> (#[trigger] self.lines@[i]).data@.len() == N_WAYS
        &&& forall|i: int| 0 <= i < self.lines@.len() ==> (#[trigger] self.lines@[i]).tag < BANK_SIZE
        &&& forall|i: int, j: int| 0 <= i < self.lines@.len() && 0 <= j < self.lines@.len() && i != j
                ==> (#[trigger] self.lines@[i]).tag != (#[trigger] self.lines@[j]).tag
        &&& forall|i: int| 0 <= i < self.lines@.len() ==> (#[trigger] self.lines@[i]).age < self.lines@.len()
        &&& forall|i: int, j: int| 0 <= i < self.lines@.len() && 0 <= j < self.lines@.len() && i != j
                ==> (#[trigger] self.lines@[i]).age != (#[trigger] self.lines@[j]).age
        &&& self.cache_hits <= self.cache_accesses
    }

    /// Whether a line for row `tag` is present.
    pub open spec fn has_tag(self, tag: u16) -> bool {
        exists|i: int| 0 <= i < self.lines@.len() && (#[trigger] self.lines@[i]).tag == tag
    }

    /// The index of the line for row `tag`, where one is present.
    pub open spec fn ix_of(self, tag: u16) -> int {
        choose|i: int| 0 <= i < self.lines@.len() && (#[trigger] self.lines@[i]).tag == tag
    }

    /// The line for row `tag`, where one is present.
    pub open spec fn line_at(self, tag: u16) -> CacheLine {
        self.lines@[self.ix_of(tag)]
    }

    /// No line is dirty: every cached byte agrees with its bank.
    pub open spec fn all_clean(self) -> bool {
        forall|i: int| 0 <= i < self.lines@.len() ==> !(#[trigger] self.lines@[i]).dirty
    }

    pub fn new() -> (r: Self)
        ensures
            r.wf(),
            r.lines@.len() == 0,
            r.cache_hits == 0,
            r.cache_accesses == 0,
    {
        Cache {
            specs: HardwareSpecs::new("Cache"),
            lines: Vec::new(),
            cache_hits: 0,
            cache_accesses: 0,
        }
    }

    /// Whether the directory holds a line for row `tag`.
    pub fn contains_tag(&self, tag: u16) -> (r: bool)
        ensures
            r == self.has_tag(tag),
    {
        self.find_line(tag).is_some()
    }

    /// Looks the tag up in the directory.
    fn find_line(&self, tag: u16) -> (r: Option<usize>)
        ensures
            r matches Some(k) ==> k < self.lines@.len() && self.lines@[k as int].tag == tag,
            r is None <==> !self.has_tag(tag),
    {
        let n = self.lines.len();
        let mut j: usize = 0;
        while j < n
            invariant
                n == self.lines@.len(),
                j <= n,
                forall|i: int| 0 <= i < j ==> (#[trigger] self.lines@[i]).tag != tag,
            decreases n - j,
        {
            if self.lines[j].tag == tag {
                return Some(j);
            }
            j = j + 1;
        }
        None
    }

    /// The index of the oldest line (maximum age); the eviction victim.
    fn find_oldest(&self) -> (ev: usize)
        requires
            self.lines@.len() > 0,
        ensures
            ev < self.lines@.len(),
            forall|j: int| 0 <= j < self.lines@.len() ==>
                (#[trigger] self.lines@[j]).age <= self.lines@[ev as int].age,
    {
        let n = self.lines.len();
        let mut ev: usize = 0;
        let mut j: usize = 1;
        while j < n
            invariant
                n == self.lines@.len(),
                ev < j <= n,
                0 < n,
                forall|i: int| 0 <= i < j ==> (#[trigger] self.lines@[i]).age <= self.lines@[ev as int].age,
            decreases n - j,
        {
            if self.lines[j].age > self.lines[ev].age {
                ev = j;
            }
            j = j + 1;
        }
        ev
    }

    /// Sets the age of one line, leaving everything else in place.
    fn set_age(&mut self, j: usize, v: u8)
        requires
            j < old(self).lines@.len(),
        ensures
            final(self).lines@ == old(self).lines@.update(
                j as int,
                (CacheLine {
                    age: v,
                    tag: old(self).lines@[j as int].tag,
                    data: old(self).lines@[j as int].data,
                    dirty: old(self).lines@[j as int].dirty,
                }),
            ),
            final(self).specs == old(self).specs,
            final(self).cache_hits == old(self).cache_hits,
            final(self).cache_accesses == old(self).cache_accesses,
    {
        let l = &mut self.lines[j];
        l.age = v;
    }

    /// Records an access to line `k`: the LRU rotation that moves it to
    /// age 0 and ages exactly the lines that were younger.
    fn touch(&mut self, k: usize)
        requires
            old(self).wf(),
            k < old(self).lines@.len(),
        ensures
            final(self).wf(),
            lines_touched(old(self).lines@, final(self).lines@, k as int),
            final(self).specs == old(self).specs,
            final(self).cache_hits == old(self).cache_hits,
            final(self).cache_accesses == old(self).cache_accesses,
    {
        let prev: u8 = self.lines[k].age;
        let n = self.lines.len();
        let mut j: usize = 0;
        while j < n
            invariant
                n == self.lines@.len(),
                j <= n,
                k < n,
                self.lines@[k as int].age == prev,
                forall|i: int| 0 <= i < n ==> same_but_age(old(self).lines@[i], #[trigger] self.lines@[i]),
                forall|i: int| 0 <= i < j && i != k ==> (#[trigger] self.lines@[i]).age == (
                    if old(self).lines@[i].age < prev { old(self).lines@[i].age + 1 } else { old(self).lines@[i].age as int }
                ),
                forall|i: int| (j <= i < n || i == k) ==> (#[trigger] self.lines@[i]).age == old(self).lines@[i].age,
                forall|i: int| 0 <= i < n ==> (#[trigger] old(self).lines@[i]).age < n,
                self.specs == old(self).specs,
                self.cache_hits == old(self).cache_hits,
                self.cache_accesses == old(self).cache_accesses,
            decreases n - j,
        {
            if j != k {
                let a = self.lines[j].age;
                if a < prev {
                    self.set_age(j, a + 1);
                }
            }
            j = j + 1;
        }
        self.set_age(k, 0);
        proof {
            let pre = old(self).lines@;
            let post = self.lines@;
            assert forall|i: int, l: int|
                0 <= i < post.len() && 0 <= l < post.len() && i != l
                implies post[i].age != post[l].age by {
                assert(same_but_age(pre[i], post[i]));
                assert(same_but_age(pre[l], post[l]));
            }
        }
    }

    /// Ages every line by one; used while inserting a new line at age 0.
    fn age_all(&mut self)
        requires
            forall|i: int| 0 <= i < old(self).lines@.len() ==>
                (#[trigger] old(self).lines@[i]).age < NUM_LINES,
        ensures
            final(self).lines@.len() == old(self).lines@.len(),
            forall|i: int| 0 <= i < old(self).lines@.len() ==>
                same_but_age(old(self).lines@[i], #[trigger] final(self).lines@[i]),
            forall|i: int| 0 <= i < old(self).lines@.len() ==>
                (#[trigger] final(self).lines@[i]).age == old(self).lines@[i].age + 1,
            final(self).specs == old(self).specs,
            final(self).cache_hits == old(self).cache_hits,
            final(self).cache_accesses == old(self).cache_accesses,
    {
        let n = self.lines.len();
        let mut j: usize = 0;
        while j < n
            invariant
                n == self.lines@.len(),
                j <= n,
                forall|i: int| 0 <= i < n ==> same_but_age(old(self).lines@[i], #[trigger] self.lines@[i]),
                forall|i: int| 0 <= i < j ==> (#[trigger] self.lines@[i]).age == old(self).lines@[i].age + 1,
                forall|i: int| j <= i < n ==> (#[trigger] self.lines@[i]).age == old(self).lines@[i].age,
                forall|i: int| 0 <= i < n ==> (#[trigger] old(self).lines@[i]).age < NUM_LINES,
                self.specs == old(self).specs,
                self.cache_hits == old(self).cache_hits,
                self.cache_accesses == old(self).cache_accesses,
            decreases n - j,
        {
            let a = self.lines[j].age;
            self.set_age(j, a + 1);
            j = j + 1;
        }
    }

    /// Drains every response slot, returning the fill bytes (0x00 where a
    /// stripe had none) and whether any read response or any write
    /// acknowledgement was seen.
    fn drain_responses(&self, bus: &mut Bus) -> (r: (Vec<u8>, bool, bool))
        requires
            old(bus).wf(),
        ensures
            final(bus).wf(),
            final(bus).to_mem@ == old(bus).to_mem@,
            final(bus).to_cpu@.len() == N_WAYS,
            forall|i: int| 0 <= i < N_WAYS ==> (#[trigger] final(bus).to_cpu@[i]) is None,
            r.0@.len() == N_WAYS,
            forall|i: int| 0 <= i < N_WAYS ==> r.0@[i] == fill_byte(*old(bus), i),
            r.1 == old(bus).has_read_response(),
            r.2 == old(bus).has_write_response(),
    {
        let mut data: Vec<u8> = Vec::new();
        let mut r_seen = false;
        let mut w_seen = false;
        let mut i: usize = 0;
        while i < N_WAYS
            invariant
                old(bus).wf(),
                bus.to_cpu@.len() == N_WAYS,
                bus.to_mem@ == old(bus).to_mem@,
                data@.len() == i,
                i <= N_WAYS,
                forall|j: int| 0 <= j < i ==> (#[trigger] bus.to_cpu@[j]) is None,
                forall|j: int| i <= j < N_WAYS ==> (#[trigger] bus.to_cpu@[j]) == old(bus).to_cpu@[j],
                forall|j: int| 0 <= j < i ==> (#[trigger] data@[j]) == fill_byte(*old(bus), j),
                r_seen == exists|j: int| 0 <= j < i && (#[trigger] old(bus).to_cpu@[j]) matches Some(
                    MemEvent::MemReadResponse { .. },
                ),
                w_seen == exists|j: int| 0 <= j < i && (#[trigger] old(bus).to_cpu@[j]) matches Some(
                    MemEvent::MemWriteResponse,
                ),
            decreases N_WAYS - i,
        {
            match bus.to_cpu[i] {
                Some(MemEvent::MemReadResponse { mdr }) => {
                    data.push(mdr);
                    r_seen = true;
                }
                Some(MemEvent::MemWriteResponse) => {
                    data.push(0);
                    w_seen = true;
                }
                _ => {
                    data.push(0);
                }
            }
            bus.to_cpu.set(i, None);
            i = i + 1;
        }
        proof {
            assert(bus.wf());
        }
        (data, r_seen, w_seen)
    }

    /// Reads the byte at `address` through the cache.
    ///
    /// Returns `Ok(Some(byte))` on a hit or when a fill just completed,
    /// `Ok(None)` when a miss had to request the line from the banks (the
    /// caller must retry on a later tick), and `Err(())` when a fill
    /// response coincided with a write-back acknowledgement, so the read
    /// cannot be serviced this tick.
    pub fn read(&mut self, bus: &mut Bus, address: u16) -> (r: Result<Option<u8>, ()>)
        requires
            old(self).wf(),
            old(bus).wf(),
            old(self).cache_accesses < u128::MAX,
            !old(self).has_tag(spec_tag(address)) ==> old(bus).requests_clear(),
        ensures
            final(self).wf(),
            final(bus).wf(),
            final(self).specs == old(self).specs,
            final(self).cache_accesses == old(self).cache_accesses + 1,
            forall|i: int| 0 <= i < N_WAYS ==> (#[trigger] final(bus).to_cpu@[i]) is None,
            old(self).has_tag(spec_tag(address)) ==> {
                &&& r == Ok::<Option<u8>, ()>(Some(
                    old(self).line_at(spec_tag(address)).data@[spec_index(address) as int],
                ))
                &&& final(self).cache_hits == old(self).cache_hits + 1
                &&& lines_touched(old(self).lines@, final(self).lines@, old(self).ix_of(spec_tag(address)))
                &&& final(bus).to_mem@ == old(bus).to_mem@
            },
            !old(self).has_tag(spec_tag(address)) ==>
                final(self).cache_hits == old(self).cache_hits,
            !old(self).has_tag(spec_tag(address)) && !old(bus).has_read_response() ==> {
                &&& r == Ok::<Option<u8>, ()>(None)
                &&& final(self).lines@ == old(self).lines@
                &&& read_requests_posted(*final(bus), spec_tag(address))
            },
            !old(self).has_tag(spec_tag(address)) && old(bus).has_read_response()
                && old(bus).has_write_response() ==> {
                &&& r == Err::<Option<u8>, ()>(())
                &&& final(self).lines@ == old(self).lines@
                &&& final(bus).to_mem@ == old(bus).to_mem@
            },
            !old(self).has_tag(spec_tag(address)) && old(bus).has_read_response()
                && !old(bus).has_write_response() ==> {
                &&& r == Ok::<Option<u8>, ()>(Some(fill_byte(*old(bus), spec_index(address) as int)))
                &&& final(self).has_tag(spec_tag(address))
                &&& old(self).lines@.len() < NUM_LINES ==> {
                    &&& lines_filled_push(old(self).lines@, final(self).lines@, spec_tag(address),
                        fill_data(*old(bus)))
                    &&& final(bus).to_mem@ == old(bus).to_mem@
                }
                &&& old(self).lines@.len() == NUM_LINES ==> {
                    let ev = oldest_ix(old(self).lines@);
                    &&& lines_filled_evict(old(self).lines@, final(self).lines@, ev, spec_tag(address),
                        fill_data(*old(bus)))
                    &&& (old(self).lines@[ev].dirty ==> writeback_posted(*final(bus), old(self).lines@[ev]))
                    &&& (!old(self).lines@[ev].dirty ==> final(bus).to_mem@ == old(bus).to_mem@)
                }
            },
    {
        self.cache_accesses = self.cache_accesses + 1;
        let index = (address % (N_WAYS as u16)) as usize;
        let tag = address / (N_WAYS as u16);
        let (data, r_seen, w_seen) = self.drain_responses(bus);
        match self.find_line(tag) {
            Some(k) => {
                // cache hit: immediately return the byte
                let val = self.lines[k].data[index];
                self.touch(k);
                self.cache_hits = self.cache_hits + 1;
                proof {
                    let i0 = self.ix_of(tag);
                    assert(0 <= i0 < old(self).lines@.len() && old(self).lines@[i0].tag == tag);
                    assert(i0 == k as int);
                }
                Ok(Some(val))
            }
            None => {
                proof {
                    // the miss path starts with the request slots clear
                    assert(!self.has_tag(tag));
                    assert(!old(self).has_tag(spec_tag(address)));
                    assert(forall|j: int| 0 <= j < N_WAYS ==> (#[trigger] bus.to_mem@[j]) is None);
                }
                if !r_seen {
                    // request the line's row from every stripe
                    let mut i: usize = 0;
                    while i < N_WAYS
                        invariant
                            bus.to_mem@.len() == N_WAYS,
                            bus.to_cpu@.len() == N_WAYS,
                            i <= N_WAYS,
                            tag < BANK_SIZE,
                            forall|j: int| 0 <= j < N_WAYS ==> (#[trigger] bus.to_cpu@[j]) is None,
                            forall|j: int| 0 <= j < i ==> (#[trigger] bus.to_mem@[j]) == Some(
                                MemEvent::MemReadRequest { mar: tag },
                            ),
                            forall|j: int| i <= j < N_WAYS ==> (#[trigger] bus.to_mem@[j]) is None,
                        decreases N_WAYS - i,
                    {
                        bus.to_mem.set(i, Some(MemEvent::MemReadRequest { mar: tag }));
                        i = i + 1;
                    }
                    return Ok(None);
                }
                if w_seen {
                    // a fill and a write-back acknowledgement collided
                    return Err(());
                }
                // the banks have responded with the line's bytes
                let val = data[index];
                let ghost fill = fill_data(*old(bus));
                proof {
                    assert(data@ =~= fill);
                }
                if self.lines.len() == NUM_LINES {
                    // evict the oldest line, writing it back if dirty
                    let ev = self.find_oldest();
                    proof {
                        assert(is_oldest(old(self).lines@, ev as int));
                        lemma_oldest_unique(old(self).lines@, ev as int);
                    }
                    if self.lines[ev].dirty {
                        let ev_tag = self.lines[ev].tag;
                        let mut i: usize = 0;
                        while i < N_WAYS
                            invariant
                                bus.to_mem@.len() == N_WAYS,
                                bus.to_cpu@.len() == N_WAYS,
                                i <= N_WAYS,
                                ev < self.lines@.len(),
                                self.lines@[ev as int].data@.len() == N_WAYS,
                                self.lines@[ev as int].tag == ev_tag,
                                ev_tag < BANK_SIZE,
                                forall|j: int| 0 <= j < N_WAYS ==> (#[trigger] bus.to_cpu@[j]) is None,
                                forall|j: int| 0 <= j < i ==> (#[trigger] bus.to_mem@[j]) == Some(
                                    MemEvent::MemWriteRequest {
                                        mar: ev_tag,
                                        mdr: self.lines@[ev as int].data@[j],
                                    },
                                ),
                                forall|j: int| i <= j < N_WAYS ==> (#[trigger] bus.to_mem@[j]) is None,
                            decreases N_WAYS - i,
                        {
                            let b = self.lines[ev].data[i];
                            bus.to_mem.set(i, Some(MemEvent::MemWriteRequest { mar: ev_tag, mdr: b }));
                            i = i + 1;
                        }
                    }
                    self.age_all();
                    let new_line = CacheLine::new(tag, data);
                    self.lines[ev] = new_line;
                    proof {
                        let pre = old(self).lines@;
                        let post = self.lines@;
                        assert(lines_filled_evict(pre, post, ev as int, tag, fill));
                        assert forall|i: int, j: int|
                            0 <= i < post.len() && 0 <= j < post.len() && i != j
                            implies post[i].age != post[j].age by {}
                        assert forall|i: int, j: int|
                            0 <= i < post.len() && 0 <= j < post.len() && i != j
                            implies post[i].tag != post[j].tag by {
                            if i != ev && j != ev {
                                assert(same_but_age(pre[i], post[i]));
                                assert(same_but_age(pre[j], post[j]));
                            }
                        }
                        assert(self.wf());
                        assert(self.has_tag(tag));
                    }
                } else {
                    self.age_all();
                    self.lines.push(CacheLine::new(tag, data));
                    proof {
                        let pre = old(self).lines@;
                        let post = self.lines@;
                        assert(lines_filled_push(pre, post, tag, fill));
                        assert forall|i: int, j: int|
                            0 <= i < post.len() && 0 <= j < post.len() && i != j
                            implies post[i].tag != post[j].tag by {
                            if i < pre.len() && j < pre.len() {
                                assert(same_but_age(pre[i], post[i]));
                                assert(same_but_age(pre[j], post[j]));
                            }
                        }
                        assert(self.wf());
                        assert(self.has_tag(tag));
                    }
                }
                Ok(Some(val))
            }
        }
    }

    /// Writes `value` at `address` through the cache.
    ///
    /// On a hit the line is mutated in place and marked dirty, and the
    /// call returns true. On a miss no line is allocated: the byte is
    /// posted straight to the one bank owning the address, and the call
    /// returns false — the write commits when that bank next services its
    /// slot. Pending write acknowledgements are drained and discarded; a
    /// pending fill response here would be a protocol violation, so the
    /// contract rules it out.
    pub fn write(&mut self, bus: &mut Bus, address: u16, value: u8) -> (r: bool)
        requires
            old(self).wf(),
            old(bus).wf(),
            old(self).cache_accesses < u128::MAX,
            !old(bus).has_read_response(),
            !old(self).has_tag(spec_tag(address)) ==>
                old(bus).to_mem@[spec_index(address) as int] is None,
        ensures
            final(self).wf(),
            final(bus).wf(),
            final(self).specs == old(self).specs,
            final(self).cache_accesses == old(self).cache_accesses + 1,
            forall|i: int| 0 <= i < N_WAYS ==> (#[trigger] final(bus).to_cpu@[i]) is None,
            old(self).has_tag(spec_tag(address)) ==> {
                &&& r == true
                &&& final(self).cache_hits == old(self).cache_hits + 1
                &&& lines_written(old(self).lines@, final(self).lines@,
                    old(self).ix_of(spec_tag(address)), spec_index(address) as int, value)
                &&& final(bus).to_mem@ == old(bus).to_mem@
            },
            !old(self).has_tag(spec_tag(address)) ==> {
                &&& r == false
                &&& final(self).cache_hits == old(self).cache_hits
                &&& final(self).lines@ == old(self).lines@
                &&& final(bus).to_mem@ == old(bus).to_mem@.update(
                    spec_index(address) as int,
                    Some(MemEvent::MemWriteRequest { mar: spec_tag(address), mdr: value }),
                )
            },
    {
        self.cache_accesses = self.cache_accesses + 1;
        let index = (address % (N_WAYS as u16)) as usize;
        let tag = address / (N_WAYS as u16);
        let (_data, _r_seen, _w_seen) = self.drain_responses(bus);
        match self.find_line(tag) {
            Some(k) => {
                // cache hit: mutate the line in place and mark it dirty
                proof {
                    let i0 = self.ix_of(tag);
                    assert(0 <= i0 < old(self).lines@.len() && old(self).lines@[i0].tag == tag);
                    assert(i0 == k as int);
                }
                let l = &mut self.lines[k];
                l.data.set(index, value);
                l.dirty = true;
                self.touch(k);
                self.cache_hits = self.cache_hits + 1;
                proof {
                    assert(lines_written(old(self).lines@, self.lines@, k as int, index as int, value));
                }
                true
            }
            None => {
                // cache miss: no allocation, the byte goes to its bank
                bus.to_mem.set(index, Some(MemEvent::MemWriteRequest { mar: tag, mdr: value }));
                false
            }
        }
    }
}

} // verus!
