//! Asynchronous input devices and the interrupt controller. Devices post
//! `InterruptSpecs` events; the controller keeps them in a priority queue
//! (a max-queue by `priority` alone) and a registry of devices keyed by
//! IQR. The CPU pops at most one event per instruction cycle and reads
//! the named device's output buffer. The host delivers real device input
//! by raising events and storing into the device's output buffer.

use vstd::prelude::*;
use crate::hardware::HardwareSpecs;

verus! {

/// Common properties of an interrupt device. Ordering among queued
/// events compares `priority` and nothing else.
pub struct InterruptSpecs {
    pub iqr: u8,
    pub priority: u8,
    pub name: String,
}

impl InterruptSpecs {
    pub fn new(iqr: u8, priority: u8, name: &str) -> (r: Self)
        ensures
            r.iqr == iqr,
            r.priority == priority,
            r.name@ == name@,
    {
        Self { iqr, priority, name: name.to_string() }
    }
}

/// A type of hardware that can interrupt the CPU.
pub trait Interrupt {
    /// The device's current output byte, updated by the device's own input.
    fn get_out_buf(&self) -> u8;

    /// The device's static identity.
    fn get_interrupt_specs(&self) -> &InterruptSpecs;
}

/// The keyboard device as the emulator sees it: identity plus an output
/// buffer holding the last key's byte. The host's input listener stores
/// into the buffer and raises an event on the controller.
pub struct Keyboard {
    pub hard_specs: HardwareSpecs,
    pub int_specs: InterruptSpecs,
    pub out_buf: u8,
}

impl crate::hardware::Hardware for Keyboard {
    fn get_specs(&self) -> &HardwareSpecs {
        &self.hard_specs
    }
}

impl Interrupt for Keyboard {
    fn get_out_buf(&self) -> (r: u8)
        ensures
            r == self.out_buf,
    {
        self.out_buf
    }

    fn get_interrupt_specs(&self) -> (r: &InterruptSpecs)
        ensures
            r == self.int_specs,
    {
        &self.int_specs
    }
}

impl Keyboard {
    pub fn new() -> (r: Self)
        ensures
            r.int_specs.iqr == 0,
            r.int_specs.priority == 0,
            r.out_buf == 0,
    {
        Keyboard {
            hard_specs: HardwareSpecs::new("Keyboard"),
            int_specs: InterruptSpecs::new(0, 0, "Keyboard"),
            out_buf: 0x00,
        }
    }

    /// Stores a newly arrived input byte into the output buffer.
    pub fn set_out_buf(&mut self, v: u8)
        ensures
            final(self).out_buf == v,
            final(self).int_specs == old(self).int_specs,
            final(self).hard_specs == old(self).hard_specs,
    {
        self.out_buf = v;
    }
}

/// Whether `k` is the first index of maximal priority in the queue.
pub open spec fn is_first_max(q: Seq<InterruptSpecs>, k: int) -> bool {
    &&& 0 <= k < q.len()
    &&& forall|j: int| 0 <= j < q.len() ==> (#[trigger] q[j]).priority <= q[k].priority
    &&& forall|j: int| 0 <= j < k ==> (#[trigger] q[j]).priority < q[k].priority
}

/// The index `pop_highest` removes: the first event of maximal priority,
/// so that among equal priorities the earliest-raised event leaves first.
pub open spec fn first_max_ix(q: Seq<InterruptSpecs>) -> int {
    choose|k: int| is_first_max(q, k)
}

/// There is only one first maximum.
pub proof fn lemma_first_max_unique(q: Seq<InterruptSpecs>, k: int)
    requires
        is_first_max(q, k),
    ensures
        first_max_ix(q) == k,
{
    let o = first_max_ix(q);
    assert(is_first_max(q, o));
    if o < k {
        assert(q[o].priority < q[k].priority);
        assert(q[k].priority <= q[o].priority);
    } else if k < o {
        assert(q[k].priority < q[o].priority);
        assert(q[o].priority <= q[k].priority);
    }
}

/// The controller: a max-priority queue of pending events and the
/// registry of devices, keyed by IQR. Its API is passive: the CPU pops
/// the queue during its interrupt poll, and the host raises events into
/// it.
pub struct InterruptController {
    pub priority_queue: Vec<InterruptSpecs>,
    pub io_devices: Vec<Keyboard>,
}

impl InterruptController {
    /// Registered devices carry distinct IQRs.
    pub open spec fn wf(self) -> bool {
        forall|i: int, j: int|
            0 <= i < self.io_devices@.len() && 0 <= j < self.io_devices@.len() && i != j
                ==> (#[trigger] self.io_devices@[i]).int_specs.iqr
                    != (#[trigger] self.io_devices@[j]).int_specs.iqr
    }

    /// Constructs the controller with the keyboard registered at IQR 0.
    pub fn new() -> (r: Self)
        ensures
            r.wf(),
            r.priority_queue@.len() == 0,
            r.io_devices@.len() == 1,
            r.io_devices@[0].int_specs.iqr == 0,
            r.io_devices@[0].out_buf == 0,
    {
        let mut devices: Vec<Keyboard> = Vec::new();
        devices.push(Keyboard::new());
        InterruptController { priority_queue: Vec::new(), io_devices: devices }
    }

    /// Accepts an asynchronous event from a device; the host calls this
    /// in place of the device's send on the inbound channel.
    pub fn raise(&mut self, event: InterruptSpecs)
        ensures
            final(self).priority_queue@ == old(self).priority_queue@.push(event),
            final(self).io_devices == old(self).io_devices,
    {
        self.priority_queue.push(event);
    }

    /// Pops the first pending event of maximal priority, or none if the
    /// queue is empty; among equal priorities the earliest-raised event
    /// leaves first.
    pub fn pop_highest(&mut self) -> (r: Option<InterruptSpecs>)
        ensures
            final(self).io_devices == old(self).io_devices,
            old(self).priority_queue@.len() == 0 ==> r is None
                && final(self).priority_queue == old(self).priority_queue,
            old(self).priority_queue@.len() > 0 ==> {
                let k = first_max_ix(old(self).priority_queue@);
                &&& is_first_max(old(self).priority_queue@, k)
                &&& r == Some(old(self).priority_queue@[k])
                &&& final(self).priority_queue@ == old(self).priority_queue@.remove(k)
            },
    {
        let n = self.priority_queue.len();
        if n == 0 {
            return None;
        }
        let mut best: usize = 0;
        let mut j: usize = 1;
        while j < n
            invariant
                n == self.priority_queue@.len(),
                best < j <= n,
                0 < n,
                forall|i: int| 0 <= i < j ==> (#[trigger] self.priority_queue@[i]).priority
                    <= self.priority_queue@[best as int].priority,
                forall|i: int| 0 <= i < best ==> (#[trigger] self.priority_queue@[i]).priority
                    < self.priority_queue@[best as int].priority,
                *self == *old(self),
            decreases n - j,
        {
            if self.priority_queue[j].priority > self.priority_queue[best].priority {
                best = j;
            }
            j = j + 1;
        }
        proof {
            assert(is_first_max(old(self).priority_queue@, best as int));
            lemma_first_max_unique(old(self).priority_queue@, best as int);
        }
        let event = self.priority_queue.remove(best);
        proof {
            assert(0 <= best < old(self).priority_queue@.len()
                && Some(event) == Some(old(self).priority_queue@[best as int])
                && self.priority_queue@ == old(self).priority_queue@.remove(best as int));
        }
        Some(event)
    }

    /// Whether some device is registered at the given IQR.
    pub open spec fn has_device(self, iqr: u8) -> bool {
        exists|i: int| 0 <= i < self.io_devices@.len()
            && (#[trigger] self.io_devices@[i]).int_specs.iqr == iqr
    }

    /// The index of the device registered at `iqr`, where one is; with
    /// distinct IQRs it is unique.
    pub open spec fn device_ix(self, iqr: u8) -> int {
        choose|i: int| 0 <= i < self.io_devices@.len()
            && (#[trigger] self.io_devices@[i]).int_specs.iqr == iqr
    }

    /// Looks an event's device up by IQR; an unknown IQR is a fatal
    /// dispatch error in the machine.
    pub fn find_device(&self, iqr: u8) -> (r: Option<usize>)
        ensures
            r matches Some(k) ==> k < self.io_devices@.len()
                && self.io_devices@[k as int].int_specs.iqr == iqr && self.has_device(iqr),
            r is None ==> !self.has_device(iqr),
            self.wf() ==> (r matches Some(k) ==> k as int == self.device_ix(iqr)),
    {
        proof {
            if self.has_device(iqr) {
                let d = self.device_ix(iqr);
                assert(0 <= d < self.io_devices@.len() && self.io_devices@[d].int_specs.iqr
                    == iqr);
            }
        }
        let n = self.io_devices.len();
        let mut j: usize = 0;
        while j < n
            invariant
                n == self.io_devices@.len(),
                j <= n,
                forall|i: int| 0 <= i < j ==> (#[trigger] self.io_devices@[i]).int_specs.iqr != iqr,
            decreases n - j,
        {
            if self.io_devices[j].int_specs.iqr == iqr {
                return Some(j);
            }
            j = j + 1;
        }
        None
    }

    /// Stores an input byte into the device registered at `iqr`, if any;
    /// the host calls this when real input arrives.
    pub fn store_input(&mut self, iqr: u8, v: u8) -> (r: bool)
        ensures
            final(self).priority_queue == old(self).priority_queue,
            final(self).io_devices@.len() == old(self).io_devices@.len(),
            r ==> exists|k: int| {
                &&& 0 <= k < old(self).io_devices@.len()
                &&& old(self).io_devices@[k].int_specs.iqr == iqr
                &&& final(self).io_devices@[k].out_buf == v
                &&& final(self).io_devices@[k].int_specs == old(self).io_devices@[k].int_specs
                &&& forall|j: int| 0 <= j < old(self).io_devices@.len() && j != k ==>
                    (#[trigger] final(self).io_devices@[j]) == old(self).io_devices@[j]
            },
            !r ==> final(self).io_devices == old(self).io_devices,
    {
        match self.find_device(iqr) {
            Some(k) => {
                let d = &mut self.io_devices[k];
                d.set_out_buf(v);
                true
            }
            None => false,
        }
    }
}

} // verus!
