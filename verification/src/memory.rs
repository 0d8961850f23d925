//! The interleaved memory banks and the bus that connects them to the
//! cache. The address space is 65,536 bytes, striped across `N_WAYS`
//! banks by the low address bits: address `a` lives in stripe `a % N_WAYS`
//! at stripe-local row `a / N_WAYS` (the tag). Each direction of each
//! stripe's bus is a single-slot channel; posting into an occupied slot
//! is a protocol bug, so the contracts rule it out.

use vstd::prelude::*;
use vstd::pervasive::VecAdditionalExecFns;
use crate::hardware::HardwareSpecs;

verus! {

/// Number of interleaved stripes (banks).
pub const N_WAYS: usize = 8;

/// Rows per bank: 65,536 addresses split over `N_WAYS` stripes.
pub const BANK_SIZE: usize = 8192;

/// A message on the bus between the cache and one memory bank.
/// MAR and MDR are not registers of their own: they travel in the message.
#[derive(Debug, PartialEq, Eq, Structural, Clone, Copy)]
pub enum MemEvent {
    MemReadRequest { mar: u16 },
    MemWriteRequest { mar: u16, mdr: u8 },
    MemReadResponse { mdr: u8 },
    MemWriteResponse,
}

/// Whether an event may travel towards a bank.
pub open spec fn is_request(e: MemEvent) -> bool {
    e is MemReadRequest || e is MemWriteRequest
}

/// Whether an event may travel towards the cache.
pub open spec fn is_response(e: MemEvent) -> bool {
    e is MemReadResponse || e is MemWriteResponse
}

/// The row a request addresses.
pub open spec fn request_row(e: MemEvent) -> u16 {
    match e {
        MemEvent::MemReadRequest { mar } => mar,
        MemEvent::MemWriteRequest { mar, .. } => mar,
        _ => 0,
    }
}

/// The per-stripe single-slot channels between the cache and the banks.
/// `to_mem[i]` carries at most one request towards bank `i`; `to_cpu[i]`
/// carries at most one response back.
pub struct Bus {
    pub to_mem: Vec<Option<MemEvent>>,
    pub to_cpu: Vec<Option<MemEvent>>,
}

impl Bus {
    /// Structural validity: one slot pair per stripe, requests flowing
    /// only towards the banks and only at rows a bank owns, and no
    /// request posted while its response slot is still occupied.
    pub open spec fn wf(self) -> bool {
        &&& self.to_mem@.len() == N_WAYS
        &&& self.to_cpu@.len() == N_WAYS
        &&& forall|i: int| 0 <= i < N_WAYS ==> ((#[trigger] self.to_mem@[i]) matches Some(e) ==>
                is_request(e) && request_row(e) < BANK_SIZE && self.to_cpu@[i] is None)
        &&& forall|i: int| 0 <= i < N_WAYS ==> ((#[trigger] self.to_cpu@[i]) matches Some(e) ==>
                is_response(e))
    }

    /// No request is in flight towards any bank.
    pub open spec fn requests_clear(self) -> bool {
        forall|i: int| 0 <= i < N_WAYS ==> (#[trigger] self.to_mem@[i]) is None
    }

    /// All traffic for outstanding reads and fills has quiesced: no
    /// requests are in flight and at most stale write acknowledgements
    /// wait to be drained.
    pub open spec fn settled(self) -> bool {
        &&& self.requests_clear()
        &&& forall|i: int| 0 <= i < N_WAYS ==> ((#[trigger] self.to_cpu@[i]) matches Some(e) ==>
                e is MemWriteResponse)
    }

    /// Whether any stripe holds a pending read response (a fill byte).
    pub open spec fn has_read_response(self) -> bool {
        exists|i: int| 0 <= i < N_WAYS && (#[trigger] self.to_cpu@[i]) matches Some(
            MemEvent::MemReadResponse { .. },
        )
    }

    /// Whether any stripe holds a pending write acknowledgement.
    pub open spec fn has_write_response(self) -> bool {
        exists|i: int| 0 <= i < N_WAYS && (#[trigger] self.to_cpu@[i]) matches Some(
            MemEvent::MemWriteResponse,
        )
    }

    /// Both directions of every stripe are empty.
    pub open spec fn empty(self) -> bool {
        &&& self.requests_clear()
        &&& forall|i: int| 0 <= i < N_WAYS ==> (#[trigger] self.to_cpu@[i]) is None
    }

    /// Checks at run time that no request is in flight.
    pub fn requests_clear_now(&self) -> (r: bool)
        requires
            self.to_mem@.len() == N_WAYS,
        ensures
            r == self.requests_clear(),
    {
        let mut i: usize = 0;
        while i < N_WAYS
            invariant
                self.to_mem@.len() == N_WAYS,
                i <= N_WAYS,
                forall|j: int| 0 <= j < i ==> (#[trigger] self.to_mem@[j]) is None,
            decreases N_WAYS - i,
        {
            if self.to_mem[i].is_some() {
                return false;
            }
            i = i + 1;
        }
        true
    }

    /// Checks at run time whether any stripe holds a pending read response.
    pub fn has_read_response_now(&self) -> (r: bool)
        requires
            self.to_cpu@.len() == N_WAYS,
        ensures
            r == self.has_read_response(),
    {
        let mut i: usize = 0;
        while i < N_WAYS
            invariant
                self.to_cpu@.len() == N_WAYS,
                i <= N_WAYS,
                forall|j: int| 0 <= j < i ==> !((#[trigger] self.to_cpu@[j]) matches Some(
                    MemEvent::MemReadResponse { .. },
                )),
            decreases N_WAYS - i,
        {
            match self.to_cpu[i] {
                Some(MemEvent::MemReadResponse { .. }) => {
                    return true;
                }
                _ => {}
            }
            i = i + 1;
        }
        false
    }

    /// Checks at run time that one request slot is free.
    pub fn request_slot_free(&self, i: usize) -> (r: bool)
        requires
            self.to_mem@.len() == N_WAYS,
            i < N_WAYS,
        ensures
            r == (self.to_mem@[i as int] is None),
    {
        self.to_mem[i].is_none()
    }

    pub fn new() -> (r: Self)
        ensures
            r.wf(),
            r.empty(),
    {
        let mut to_mem: Vec<Option<MemEvent>> = Vec::new();
        let mut to_cpu: Vec<Option<MemEvent>> = Vec::new();
        let mut i: usize = 0;
        while i < N_WAYS
            invariant
                to_mem@.len() == i,
                to_cpu@.len() == i,
                i <= N_WAYS,
                forall|j: int| 0 <= j < i ==> (#[trigger] to_mem@[j]) is None,
                forall|j: int| 0 <= j < i ==> (#[trigger] to_cpu@[j]) is None,
            decreases N_WAYS - i,
        {
            to_mem.push(None);
            to_cpu.push(None);
            i = i + 1;
        }
        Bus { to_mem, to_cpu }
    }
}

/// One memory bank. It owns one stripe of the address space and services
/// at most one request per tick.
pub struct Memory {
    pub specs: HardwareSpecs,
    pub ram: Vec<u8>,
}

impl crate::hardware::Hardware for Memory {
    fn get_specs(&self) -> &HardwareSpecs {
        &self.specs
    }
}

impl Memory {
    /// A bank always holds exactly one full stripe.
    pub open spec fn wf(self) -> bool {
        self.ram@.len() == BANK_SIZE
    }

    pub fn new() -> (r: Self)
        ensures
            r.wf(),
            forall|i: int| 0 <= i < BANK_SIZE ==> r.ram@[i] == 0u8,
    {
        Memory { specs: HardwareSpecs::new("Memory"), ram: vec![0u8; BANK_SIZE] }
    }

    /// Fills the stripe with 0x00, save the rows holding the reset vector.
    pub fn reset(&mut self)
        requires
            old(self).wf(),
        ensures
            final(self).wf(),
            forall|i: int| 0 <= i < 0xFFFCint / (N_WAYS as int) ==> final(self).ram@[i] == 0u8,
            forall|i: int| 0xFFFCint / (N_WAYS as int) <= i < BANK_SIZE ==>
                final(self).ram@[i] == old(self).ram@[i],
    {
        let mut i: usize = 0;
        while i < 0xFFFC / N_WAYS
            invariant
                self.wf(),
                i <= 0xFFFCint / (N_WAYS as int),
                forall|j: int| 0 <= j < i ==> self.ram@[j] == 0u8,
                forall|j: int| i <= j < BANK_SIZE ==> self.ram@[j] == old(self).ram@[j],
                self.specs == old(self).specs,
            decreases 0xFFFCint / (N_WAYS as int) - i,
        {
            self.ram.set(i, 0u8);
            i = i + 1;
        }
    }

    /// Services at most one pending bus message this tick: a read request
    /// is answered with the addressed row's byte, a write request stores
    /// its byte and is acknowledged, no message means no side effect.
    pub fn pulse(&mut self, req: Option<MemEvent>) -> (resp: Option<MemEvent>)
        requires
            old(self).wf(),
            req matches Some(e) ==> is_request(e) && request_row(e) < BANK_SIZE,
        ensures
            final(self).wf(),
            final(self).specs == old(self).specs,
            req is None ==> resp is None && *final(self) == *old(self),
            req matches Some(MemEvent::MemReadRequest { mar }) ==> {
                &&& resp == Some(MemEvent::MemReadResponse { mdr: old(self).ram@[mar as int] })
                &&& *final(self) == *old(self)
            },
            req matches Some(MemEvent::MemWriteRequest { mar, mdr }) ==> {
                &&& resp == Some(MemEvent::MemWriteResponse)
                &&& final(self).ram@ == old(self).ram@.update(mar as int, mdr)
            },
    {
        match req {
            Some(MemEvent::MemReadRequest { mar }) => {
                Some(MemEvent::MemReadResponse { mdr: self.ram[mar as usize] })
            }
            Some(MemEvent::MemWriteRequest { mar, mdr }) => {
                self.ram.set(mar as usize, mdr);
                Some(MemEvent::MemWriteResponse)
            }
            _ => None,
        }
    }
}

/// All banks present and each holding a full stripe.
pub open spec fn banks_wf(banks: Seq<Memory>) -> bool {
    &&& banks.len() == N_WAYS
    &&& forall|i: int| 0 <= i < N_WAYS ==> (#[trigger] banks[i]).wf()
}

/// What one tick does to one bank, given the request it found in its slot
/// and what its response slot held before and after.
pub open spec fn pulse_effect(
    pre_bank: Memory,
    post_bank: Memory,
    req: Option<MemEvent>,
    pre_resp: Option<MemEvent>,
    post_resp: Option<MemEvent>,
) -> bool {
    match req {
        None => post_bank == pre_bank && post_resp == pre_resp,
        Some(MemEvent::MemReadRequest { mar }) => {
            &&& post_bank == pre_bank
            &&& post_resp == Some(MemEvent::MemReadResponse { mdr: pre_bank.ram@[mar as int] })
        },
        Some(MemEvent::MemWriteRequest { mar, mdr }) => {
            &&& post_bank.ram@ == pre_bank.ram@.update(mar as int, mdr)
            &&& post_bank.specs == pre_bank.specs
            &&& post_resp == Some(MemEvent::MemWriteResponse)
        },
        _ => false,
    }
}

/// Advances every bank by one tick: each consumes at most one pending
/// request from its slot and posts its response. Consuming a request
/// frees the single response slot beforehand (bus well-formedness), so a
/// response can always be posted.
pub fn pulse_banks(banks: &mut Vec<Memory>, bus: &mut Bus)
    requires
        banks_wf(old(banks)@),
        old(bus).wf(),
    ensures
        banks_wf(final(banks)@),
        final(bus).wf(),
        final(bus).requests_clear(),
        forall|i: int| 0 <= i < N_WAYS ==> pulse_effect(
            old(banks)@[i],
            #[trigger] final(banks)@[i],
            old(bus).to_mem@[i],
            old(bus).to_cpu@[i],
            final(bus).to_cpu@[i],
        ),
{
    let mut i: usize = 0;
    while i < N_WAYS
        invariant
            banks@.len() == N_WAYS,
            bus.to_mem@.len() == N_WAYS,
            bus.to_cpu@.len() == N_WAYS,
            i <= N_WAYS,
            forall|j: int| 0 <= j < N_WAYS ==> (#[trigger] banks@[j]).wf(),
            forall|j: int| 0 <= j < i ==> (#[trigger] bus.to_mem@[j]) is None,
            forall|j: int| i <= j < N_WAYS ==> (#[trigger] bus.to_mem@[j]) == old(bus).to_mem@[j],
            forall|j: int| i <= j < N_WAYS ==> (#[trigger] bus.to_cpu@[j]) == old(bus).to_cpu@[j],
            forall|j: int| i <= j < N_WAYS ==> (#[trigger] banks@[j]) == old(banks)@[j],
            forall|j: int| 0 <= j < i ==> pulse_effect(
                old(banks)@[j],
                #[trigger] banks@[j],
                old(bus).to_mem@[j],
                old(bus).to_cpu@[j],
                bus.to_cpu@[j],
            ),
            forall|j: int| 0 <= j < N_WAYS ==> ((#[trigger] bus.to_cpu@[j]) matches Some(e) ==>
                is_response(e)),
            old(bus).wf(),
        decreases N_WAYS - i,
    {
        let req = bus.to_mem[i];
        bus.to_mem.set(i, None);
        let resp = Memory::pulse(&mut banks[i], req);
        match resp {
            Some(e) => {
                bus.to_cpu.set(i, Some(e));
            }
            None => {}
        }
        i = i + 1;
    }
}

} // verus!
