//! The CPU: register file, status flags, the decoded-instruction buffer
//! (IR), two execution units, the pipeline hazard logic and the
//! interrupt poll. Each tick advances every stage once, in reverse stage
//! order (execute, decode, fetch) so that older in-flight work gets the
//! single cache port first; `pipe_mem_user` is the token that arbitrates
//! that port.
//!
//! Console output is not printed here: every byte the machine emits is
//! appended to `output`, and the host drains and prints it.

use vstd::prelude::*;
use crate::hardware::HardwareSpecs;
use crate::interrupt::{first_max_ix, is_first_max, Interrupt, InterruptController};
use crate::cache::read_result_byte;
use crate::memory::{Bus, MemEvent, N_WAYS};
use crate::mmu::Mmu;
use crate::opcode::{is_opcode_byte, opcode_byte, spec_affected_storage, spec_dependent_storage, Opcode, Storage};
use crate::Fault;

verus! {

pub const NEGATIVE_FLAG: u8 = 0b1000_0000;
pub const OVERFLOW_FLAG: u8 = 0b0100_0000;
pub const BREAK_FLAG: u8 = 0b0001_0000;
pub const INTERRUPT_FLAG: u8 = 0b0000_0100;
pub const ZERO_FLAG: u8 = 0b0000_0010;
pub const CARRY_FLAG: u8 = 0b0000_0001;

/// Whether status `s` has every bit of `m` set.
pub open spec fn flag_set(s: u8, m: u8) -> bool {
    s & m == m
}

/// The bits of the status outside `bit` agree between `s1` and `s2`.
pub open spec fn others_same(s1: u8, s2: u8, bit: u8) -> bool {
    forall|m: u8| m & bit == 0 ==> (#[trigger] (s2 & m)) == s1 & m
}

/// Setting or clearing one flag touches no other bit.
proof fn lemma_bit_ops(s: u8, bit: u8)
    ensures
        (s | bit) & bit == bit,
        (s & !bit) & bit == 0,
        others_same(s, s | bit, bit),
        others_same(s, s & !bit, bit),
{
    assert(((s | bit) & bit == bit) && ((s & !bit) & bit == 0)) by (bit_vector);
    assert forall|m: u8| m & bit == 0 implies ((s | bit) & m) == s & m && ((s & !bit) & m) == s
        & m by {
        assert(m & bit == 0 ==> ((s | bit) & m) == (s & m) && ((s & !bit) & m) == (s & m))
            by (bit_vector);
    }
}

/// The small facts about the flag masks that the flag-update proofs need.
proof fn lemma_flag_masks()
    ensures
        ZERO_FLAG & NEGATIVE_FLAG == 0,
        NEGATIVE_FLAG & ZERO_FLAG == 0,
        ZERO_FLAG & (ZERO_FLAG | NEGATIVE_FLAG) == ZERO_FLAG,
        NEGATIVE_FLAG & (ZERO_FLAG | NEGATIVE_FLAG) == NEGATIVE_FLAG,
        CARRY_FLAG & (ZERO_FLAG | NEGATIVE_FLAG) == 0,
        OVERFLOW_FLAG & (ZERO_FLAG | NEGATIVE_FLAG | CARRY_FLAG) == 0,
        ZERO_FLAG & CARRY_FLAG == 0,
        NEGATIVE_FLAG & CARRY_FLAG == 0,
        ZERO_FLAG & OVERFLOW_FLAG == 0,
        NEGATIVE_FLAG & OVERFLOW_FLAG == 0,
        CARRY_FLAG & OVERFLOW_FLAG == 0,
        BREAK_FLAG & INTERRUPT_FLAG == 0,
        INTERRUPT_FLAG & BREAK_FLAG == 0,
        BREAK_FLAG & ZERO_FLAG == 0,
        BREAK_FLAG & NEGATIVE_FLAG == 0,
        BREAK_FLAG & (ZERO_FLAG | NEGATIVE_FLAG) == 0,
        BREAK_FLAG & (ZERO_FLAG | NEGATIVE_FLAG | CARRY_FLAG) == 0,
        BREAK_FLAG & (ZERO_FLAG | NEGATIVE_FLAG | CARRY_FLAG | OVERFLOW_FLAG) == 0,
        INTERRUPT_FLAG & (ZERO_FLAG | NEGATIVE_FLAG) == 0,
        INTERRUPT_FLAG & (ZERO_FLAG | NEGATIVE_FLAG | CARRY_FLAG) == 0,
        INTERRUPT_FLAG & (ZERO_FLAG | NEGATIVE_FLAG | CARRY_FLAG | OVERFLOW_FLAG) == 0,
{
    assert(0x02u8 & 0x80u8 == 0 && 0x80u8 & 0x02u8 == 0 && 0x02u8 & 0x82u8 == 0x02
        && 0x80u8 & 0x82u8 == 0x80 && 0x01u8 & 0x82u8 == 0 && 0x40u8 & 0x83u8 == 0
        && 0x02u8 & 0x01u8 == 0 && 0x80u8 & 0x01u8 == 0 && 0x02u8 & 0x40u8 == 0
        && 0x80u8 & 0x40u8 == 0 && 0x01u8 & 0x40u8 == 0 && 0x10u8 & 0x04u8 == 0
        && 0x04u8 & 0x10u8 == 0 && (0x02u8 | 0x80u8) == 0x82 && (0x02u8 | 0x80u8 | 0x01u8)
        == 0x83 && 0x10u8 & 0x82u8 == 0 && 0x10u8 & 0x83u8 == 0 && 0x10u8 & 0xC3u8 == 0
        && 0x10u8 & 0x02u8 == 0 && 0x10u8 & 0x80u8 == 0
        && 0x04u8 & 0x82u8 == 0 && 0x04u8 & 0x83u8 == 0 && 0x04u8 & 0xC3u8 == 0
        && (0x02u8 | 0x80u8 | 0x01u8 | 0x40u8) == 0xC3) by (bit_vector);
}

/// Transfer of one flag-value fact across an update that leaves the
/// flag's bits alone.
proof fn lemma_flag_preserved(s1: u8, s2: u8, changed: u8, m: u8)
    requires
        others_same(s1, s2, changed),
        m & changed == 0,
    ensures
        (s2 & m) == (s1 & m),
        flag_set(s2, m) == flag_set(s1, m),
{
}

/// Bit 7 as an order fact: the negative flag tests the value's top bit.
proof fn lemma_top_bit(n: u8)
    ensures
        (n & NEGATIVE_FLAG == NEGATIVE_FLAG) == (n >= 0x80),
{
    assert((n & 0x80u8 == 0x80u8) == (n >= 0x80u8)) by (bit_vector);
}

/// The absolute address held in an instruction's operand pair: the low
/// byte first, then the high byte (little-endian).
pub open spec fn spec_operand_addr(o1: u8, o2: u8) -> u16 {
    (o1 + 256 * o2) as u16
}

/// Whether an instruction in a unit needs the cache to execute: all the
/// absolute-addressed instructions, and SYS for every subservice but the
/// hex print.
pub open spec fn is_memory_op(op: Opcode, x: u8) -> bool {
    ||| op == Opcode::LDAa
    ||| op == Opcode::STAa
    ||| op == Opcode::ADCa
    ||| op == Opcode::LDXa
    ||| op == Opcode::LDYa
    ||| op == Opcode::CPXa
    ||| op == Opcode::INCa
    ||| (op == Opcode::SYS && x != 1)
}

/// The frame of one memory execute step for unit `i`: what it never
/// touches, its counter bounds, and the port rule that a unit without
/// the cache port does nothing at all.
pub open spec fn memory_step_frame(pre: Cpu, pre_bus: Bus, post: Cpu, post_bus: Bus, i: int, r: Result<(), Fault>) -> bool {
    &&& (post_bus.wf())
    &&& (post.units_wf())
    &&& (post.mmu.cache.wf())
    &&& (post.cpu_clock_counter == pre.cpu_clock_counter)
    &&& (post.interrupt_controller == pre.interrupt_controller)
    &&& (post.specs == pre.specs)
    &&& (post.mmu.specs == pre.mmu.specs)
    &&& (pre.mmu.cache.cache_accesses <= post.mmu.cache.cache_accesses
                <= pre.mmu.cache.cache_accesses + 2)
    &&& (post.pipeline_load() <= pre.pipeline_load())
    &&& (pre.instruction_counter <= post.instruction_counter)
    &&& (pre.output@.is_prefix_of(post.output@))
    &&& (post.pc == pre.pc)
    &&& (post.ir == pre.ir)
    &&& (flag_set(post.nv_bdizc, BREAK_FLAG) == flag_set(pre.nv_bdizc, BREAK_FLAG))
    // the single cache port: a unit without it does nothing at all
    &&& (!unit_holds_port(pre.pipe_mem_user, i) ==> post == pre && post_bus == pre_bus)
}

/// The store: with the port, STAa finishes this tick, delivering A to
/// the cache line on a hit or straight to A's bank on a miss.
pub open spec fn memory_step_store(pre: Cpu, pre_bus: Bus, post: Cpu, post_bus: Bus, i: int, r: Result<(), Fault>) -> bool {
    // a store never lingers: with the port it finishes this tick,
    // delivering A to the cache line on a hit or straight to A's
    // bank on a miss
    &&& (({
                let u = pre.execution_units@[i];
                let a2 = spec_operand_addr(u.ir.1, u.ir.2);
                u.ir.0 == Opcode::STAa && unit_holds_port(pre.pipe_mem_user,
                    i) && r is Ok ==> {
                    &&& post.execution_units@ == pre.execution_units@.update(
                        i, (ExecutionUnit { busy: false, ..u }))
                    &&& post.instruction_counter == pre.instruction_counter + 1
                    &&& post.pipe_mem_user == PipeMemUser::Complete
                    &&& post.a == pre.a && post.x == pre.x
                        && post.y == pre.y
                    &&& post.nv_bdizc == pre.nv_bdizc
                    &&& pre.mmu.cache.has_tag(crate::cache::spec_tag(a2))
                        ==> crate::cache::lines_written(pre.mmu.cache.lines@,
                        post.mmu.cache.lines@,
                        pre.mmu.cache.ix_of(crate::cache::spec_tag(a2)),
                        crate::cache::spec_index(a2) as int, pre.a)
                    &&& !pre.mmu.cache.has_tag(crate::cache::spec_tag(a2)) ==> {
                        &&& post.mmu.cache.lines@ == pre.mmu.cache.lines@
                        &&& post_bus.to_mem@ == pre_bus.to_mem@.update(
                            crate::cache::spec_index(a2) as int,
                            Some(MemEvent::MemWriteRequest {
                                mar: crate::cache::spec_tag(a2),
                                mdr: pre.a,
                            }),
                        )
                    }
                }
            }))
}

/// The reading instructions either retry with everything untouched,
/// keeping the port reserved, or complete: then the byte the cache
/// delivered is what the registers, flags and memory show.
pub open spec fn memory_step_reads(pre: Cpu, pre_bus: Bus, post: Cpu, post_bus: Bus, i: int, r: Result<(), Fault>) -> bool {
    // the reading instructions either retry with everything
    // untouched, keeping the port reserved, or complete: then the
    // byte the cache delivered is what the registers, flags and
    // memory show
    &&& (({
                let u = pre.execution_units@[i];
                let a2 = spec_operand_addr(u.ir.1, u.ir.2);
                let m = read_result_byte(pre.mmu.cache, pre_bus, a2);
                (u.ir.0 == Opcode::LDAa || u.ir.0 == Opcode::ADCa || u.ir.0 == Opcode::LDXa
                    || u.ir.0 == Opcode::LDYa || u.ir.0 == Opcode::CPXa || u.ir.0 == Opcode::INCa)
                    && unit_holds_port(pre.pipe_mem_user, i) && r is Ok ==> {
                    ||| {
                        &&& post.execution_units == pre.execution_units
                        &&& post.instruction_counter == pre.instruction_counter
                        &&& post.pipe_mem_user == PipeMemUser::Execute(i as u8)
                        &&& post.a == pre.a && post.x == pre.x
                            && post.y == pre.y
                        &&& post.nv_bdizc == pre.nv_bdizc
                        &&& post.output == pre.output
                        &&& post.mmu.cache.lines@ == pre.mmu.cache.lines@
                    }
                    ||| {
                        &&& post.execution_units@ == pre.execution_units@.update(
                            i, (ExecutionUnit { busy: false, ..u }))
                        &&& post.instruction_counter == pre.instruction_counter + 1
                        &&& post.pipe_mem_user == PipeMemUser::Complete
                        &&& u.ir.0 == Opcode::LDAa ==> post.a == m && flag_set(
                            post.nv_bdizc, ZERO_FLAG) == (m == 0) && flag_set(
                            post.nv_bdizc, NEGATIVE_FLAG) == (m >= 0x80) && post.x
                            == pre.x && post.y == pre.y
                        &&& u.ir.0 == Opcode::LDXa ==> post.x == m && flag_set(
                            post.nv_bdizc, ZERO_FLAG) == (m == 0) && flag_set(
                            post.nv_bdizc, NEGATIVE_FLAG) == (m >= 0x80) && post.a
                            == pre.a && post.y == pre.y
                        &&& u.ir.0 == Opcode::LDYa ==> post.y == m && flag_set(
                            post.nv_bdizc, ZERO_FLAG) == (m == 0) && flag_set(
                            post.nv_bdizc, NEGATIVE_FLAG) == (m >= 0x80) && post.a
                            == pre.a && post.x == pre.x
                        &&& u.ir.0 == Opcode::ADCa ==> post.a == (pre.a + m) % 256
                            && flag_set(post.nv_bdizc, ZERO_FLAG) == ((pre.a + m)
                            % 256 == 0) && flag_set(post.nv_bdizc, NEGATIVE_FLAG) == ((
                            pre.a + m) % 256 >= 0x80) && flag_set(post.nv_bdizc,
                            CARRY_FLAG) == ((pre.a + m) % 256 <= pre.a && m != 0)
                            && flag_set(post.nv_bdizc, OVERFLOW_FLAG) == (pre.a + m
                            > 255) && post.x == pre.x && post.y == pre.y
                        &&& u.ir.0 == Opcode::CPXa ==> post.a == pre.a
                            && post.x == pre.x && post.y == pre.y
                            && flag_set(post.nv_bdizc, ZERO_FLAG) == (pre.x == m)
                            && flag_set(post.nv_bdizc, CARRY_FLAG) == (pre.x >= m)
                            && flag_set(post.nv_bdizc, NEGATIVE_FLAG) == ((pre.x
                            + 256 - m) % 256 >= 0x80)
                        &&& u.ir.0 == Opcode::INCa ==> post.a == pre.a
                            && post.x == pre.x && post.y == pre.y
                            && flag_set(post.nv_bdizc, ZERO_FLAG) == ((m + 1) % 256 == 0)
                            && flag_set(post.nv_bdizc, NEGATIVE_FLAG) == ((m + 1) % 256
                            >= 0x80) && post.mmu.cache.has_tag(crate::cache::spec_tag(a2))
                            && post.mmu.cache.line_at(crate::cache::spec_tag(a2)).data@[
                            crate::cache::spec_index(a2) as int] == ((m + 1) % 256) as u8
                    }
                }
            }))
}

/// SYS through memory: X=2 prints the byte at the operand address plus
/// Y; X=3 streams the string at the operand address, stepping the
/// buffered address as one 16-bit little-endian counter per printed
/// byte, and the NUL frees the unit without output — nothing past it is
/// ever read, since each tick reads only the buffered address. Any
/// other subservice is a fatal fault.
pub open spec fn memory_step_sys(pre: Cpu, pre_bus: Bus, post: Cpu, post_bus: Bus, i: int, r: Result<(), Fault>) -> bool {
    // SYS with X=2 prints the byte at the operand address plus Y
    &&& (({
                let u = pre.execution_units@[i];
                let a3 = ((spec_operand_addr(u.ir.1, u.ir.2) + pre.y) % 0x10000) as u16;
                let m = read_result_byte(pre.mmu.cache, pre_bus, a3);
                u.ir.0 == Opcode::SYS && pre.x == 2 && unit_holds_port(
                    pre.pipe_mem_user, i) && r is Ok ==> {
                    ||| {
                        &&& post.execution_units == pre.execution_units
                        &&& post.instruction_counter == pre.instruction_counter
                        &&& post.output == pre.output
                        &&& post.pipe_mem_user == PipeMemUser::Execute(i as u8)
                    }
                    ||| {
                        &&& post.execution_units@ == pre.execution_units@.update(
                            i, (ExecutionUnit { busy: false, ..u }))
                        &&& post.instruction_counter == pre.instruction_counter + 1
                        &&& post.output@ == pre.output@ + seq![m]
                        &&& post.pipe_mem_user == PipeMemUser::Complete
                        &&& post.nv_bdizc == pre.nv_bdizc
                    }
                }
            }))
    // SYS with X=3 streams the string at the operand address: a
    // non-NUL byte is printed and the buffered address steps by
    // one as a single 16-bit little-endian counter; the NUL frees
    // the unit without output — and since each tick reads only
    // the buffered address, nothing past the NUL is ever read
    &&& (({
                let u = pre.execution_units@[i];
                let a2 = spec_operand_addr(u.ir.1, u.ir.2);
                let m = read_result_byte(pre.mmu.cache, pre_bus, a2);
                u.ir.0 == Opcode::SYS && pre.x == 3 && unit_holds_port(
                    pre.pipe_mem_user, i) && r is Ok ==> {
                    ||| {
                        &&& post.execution_units == pre.execution_units
                        &&& post.instruction_counter == pre.instruction_counter
                        &&& post.output == pre.output
                        &&& post.pipe_mem_user == PipeMemUser::Execute(i as u8)
                    }
                    ||| {
                        &&& m != 0
                        &&& post.output@ == pre.output@ + seq![m]
                        &&& post.execution_units@.len() == 2
                        &&& post.execution_units@[i].busy
                        &&& post.execution_units@[i].ir.0 == Opcode::SYS
                        &&& spec_operand_addr(post.execution_units@[i].ir.1,
                            post.execution_units@[i].ir.2) == ((a2 + 1)
                            % 0x10000) as u16
                        &&& post.execution_units@[i].id == u.id
                        &&& post.execution_units@[i].ip == u.ip
                        &&& post.execution_units@[1 - i]
                            == pre.execution_units@[1 - i]
                        &&& post.instruction_counter == pre.instruction_counter
                        &&& post.pipe_mem_user == PipeMemUser::Execute(i as u8)
                    }
                    ||| {
                        &&& m == 0
                        &&& post.output == pre.output
                        &&& post.execution_units@ == pre.execution_units@.update(
                            i, (ExecutionUnit { busy: false, ..u }))
                        &&& post.instruction_counter == pre.instruction_counter + 1
                        &&& post.pipe_mem_user == PipeMemUser::Complete
                    }
                }
            }))
    // any other SYS subservice is a fatal fault
    &&& (({
                let u = pre.execution_units@[i];
                u.ir.0 == Opcode::SYS && pre.x != 1 && pre.x != 2 && pre.x != 3
                    && unit_holds_port(pre.pipe_mem_user, i) ==> r == Err::<
                    (),
                    Fault,
                >(Fault::InvalidSysCall { x: pre.x })
            }))
}

/// Everything one call of the memory execute stage guarantees, as a
/// relation between the machine and the bus before and after, for the
/// unit at index `i`.
pub open spec fn memory_step(pre: Cpu, pre_bus: Bus, post: Cpu, post_bus: Bus, i: int, r: Result<(), Fault>) -> bool {
    &&& memory_step_frame(pre, pre_bus, post, post_bus, i, r)
    &&& memory_step_store(pre, pre_bus, post, post_bus, i, r)
    &&& memory_step_reads(pre, pre_bus, post, post_bus, i, r)
    &&& memory_step_sys(pre, pre_bus, post, post_bus, i, r)
}

/// The program counter after one byte is consumed, wrapping.
pub open spec fn pc_next(pc: u16) -> u16 {
    if pc == 0xFFFF {
        0u16
    } else {
        (pc + 1) as u16
    }
}

/// Whether some busy unit may still mutate the given storage area.
pub open spec fn busy_affects(units: Seq<ExecutionUnit>, s: Storage) -> bool {
    exists|i: int| 0 <= i < 2 && (#[trigger] units[i]).busy && spec_affected_storage(
        units[i].ir.0).contains(s)
}

/// The data hazard of the decode stage: the instruction depends on a
/// storage area an in-flight instruction may mutate.
pub open spec fn spec_hazard(op: Opcode, units: Seq<ExecutionUnit>) -> bool {
    exists|s: Storage| #[trigger] spec_dependent_storage(op).contains(s) && busy_affects(units, s)
}

/// The unit decode dispatches into: the first idle one (2 where both are
/// busy, meaning no dispatch is possible).
pub open spec fn first_free_unit(units: Seq<ExecutionUnit>) -> int {
    if !units[0].busy {
        0int
    } else if !units[1].busy {
        1int
    } else {
        2int
    }
}

/// A dispatch: unit `i` was idle and now carries the fully decoded
/// instruction, loaded at the current PC, its neighbour untouched, and
/// the IR slot is free again.
pub open spec fn dispatched(pre: Cpu, post: Cpu, i: int, op: Opcode, o1: u8, o2: u8) -> bool {
    &&& 0 <= i < 2
    &&& !pre.execution_units@[i].busy
    &&& post.execution_units@ == pre.execution_units@.update(i, (ExecutionUnit {
        ip: post.pc,
        ir: (op, o1, o2),
        busy: true,
        id: pre.execution_units@[i].id,
    }))
    &&& post.ir is None
}

/// Whether the port token lets the execution unit with index `id` use
/// the cache this tick: the port is free, or the unit already holds it
/// from an earlier retry.
pub open spec fn unit_holds_port(t: PipeMemUser, id: int) -> bool {
    ||| t == PipeMemUser::Free
    ||| t == PipeMemUser::Execute(id as u8)
}

/// Which pipeline stage holds the single cache port this tick. A stage
/// that finishes with the port sets `Complete`; at the end of a tick
/// `Complete` becomes `Free` so another stage may take the port.
#[derive(Debug, PartialEq, Eq, Structural, Clone, Copy)]
pub enum PipeMemUser {
    Fetch,
    Decode,
    Execute(u8),
    Complete,
    Free,
}

/// One of the CPU's two execution units.
pub struct ExecutionUnit {
    /// Index in the CPU's array.
    pub id: u8,
    /// Points to the byte after the last byte of the instruction.
    pub ip: u16,
    /// The fully decoded instruction: opcode and both operand bytes.
    pub ir: (Opcode, u8, u8),
    pub busy: bool,
}

impl ExecutionUnit {
    pub fn new(id: u8) -> (r: Self)
        ensures
            r.id == id,
            r.ip == 0,
            !r.busy,
    {
        ExecutionUnit { id, ip: 0x00, ir: (Opcode::BRK, 0x00, 0x00), busy: false }
    }

    /// Loads a fully decoded instruction and marks the unit busy.
    pub fn set_instruction(&mut self, ip: u16, ir: (Opcode, u8, u8))
        ensures
            final(self).id == old(self).id,
            final(self).ip == ip,
            final(self).ir == ir,
            final(self).busy,
    {
        self.ip = ip;
        self.ir = ir;
        self.busy = true;
    }
}

/// The CPU.
pub struct Cpu {
    pub specs: HardwareSpecs,
    pub interrupt_controller: InterruptController,
    pub mmu: Mmu,
    pub cpu_clock_counter: u128,
    pub instruction_counter: u128,
    /// Shared between fetch and decode; execution units get their own
    /// instruction pointer.
    pub pc: u16,
    /// `None` means the fetch slot is free. Inner `None` operands mean
    /// "not yet decoded"; decode fills them before dispatch, so operands
    /// are never buffered anywhere but here.
    pub ir: Option<(Opcode, Option<u8>, Option<u8>)>,
    pub a: u8,
    pub x: u8,
    pub y: u8,
    pub nv_bdizc: u8,
    pub execution_units: Vec<ExecutionUnit>,
    pub pipe_mem_user: PipeMemUser,
    /// Bytes emitted to the console, in order; the host prints them.
    pub output: Vec<u8>,
}

impl crate::hardware::Hardware for Cpu {
    fn get_specs(&self) -> &HardwareSpecs {
        &self.specs
    }
}

impl Cpu {
    /// How many instructions are in flight in the execution units.
    pub open spec fn busy_count(self) -> int {
        (if self.execution_units@[0].busy { 1int } else { 0int })
            + (if self.execution_units@[1].busy { 1int } else { 0int })
    }

    /// Executed instructions plus those in flight; never more than the
    /// ticks that have passed, which is the `instructions <= cycles` law.
    pub open spec fn pipeline_load(self) -> int {
        self.instruction_counter + self.busy_count()
    }

    /// The units are the two the CPU was built with, and the port token
    /// names one of them where it names a unit at all.
    pub open spec fn units_wf(self) -> bool {
        &&& self.execution_units@.len() == 2
        &&& self.execution_units@[0].id == 0
        &&& self.execution_units@[1].id == 1
        &&& (self.pipe_mem_user matches PipeMemUser::Execute(id) ==> id < 2)
    }

    pub open spec fn wf(self) -> bool {
        &&& self.units_wf()
        &&& self.mmu.cache.wf()
        &&& self.interrupt_controller.wf()
        &&& self.pipeline_load() <= self.cpu_clock_counter
    }

    pub fn new() -> (r: Self)
        ensures
            r.wf(),
            r.pc == 0,
            r.ir is None,
            r.a == 0 && r.x == 0 && r.y == 0,
            r.nv_bdizc == 0b0010_0000,
            r.cpu_clock_counter == 0,
            r.instruction_counter == 0,
            r.pipe_mem_user == PipeMemUser::Free,
            r.output@.len() == 0,
            r.mmu.cache.lines@.len() == 0,
            r.mmu.cache.cache_hits == 0,
            r.mmu.cache.cache_accesses == 0,
            r.interrupt_controller.wf(),
            r.interrupt_controller.priority_queue@.len() == 0,
            !r.execution_units@[0].busy,
            !r.execution_units@[1].busy,
    {
        let mut units: Vec<ExecutionUnit> = Vec::new();
        units.push(ExecutionUnit::new(0));
        units.push(ExecutionUnit::new(1));
        Cpu {
            specs: HardwareSpecs::new("Cpu"),
            interrupt_controller: InterruptController::new(),
            mmu: Mmu::new(),
            cpu_clock_counter: 0,
            instruction_counter: 0,
            pc: 0x0000,
            ir: None,
            a: 0x00,
            x: 0x00,
            y: 0x00,
            nv_bdizc: 0b0010_0000,
            execution_units: units,
            pipe_mem_user: PipeMemUser::Free,
            output: Vec::new(),
        }
    }

    /// Everything but the status register is as it was.
    pub open spec fn only_status_changed(pre: Cpu, post: Cpu) -> bool {
        post == (Cpu { nv_bdizc: post.nv_bdizc, ..pre })
    }

    /// Sets the negative flag to the value's top bit.
    fn set_negative(&mut self, n: u8)
        ensures
            Self::only_status_changed(*old(self), *final(self)),
            flag_set(final(self).nv_bdizc, NEGATIVE_FLAG) == (n >= 0x80),
            others_same(old(self).nv_bdizc, final(self).nv_bdizc, NEGATIVE_FLAG),
    {
        proof {
            lemma_bit_ops(self.nv_bdizc, NEGATIVE_FLAG);
            lemma_top_bit(n);
        }
        if n & NEGATIVE_FLAG == NEGATIVE_FLAG {
            self.nv_bdizc = self.nv_bdizc | NEGATIVE_FLAG;
        } else {
            self.nv_bdizc = self.nv_bdizc & !NEGATIVE_FLAG;
        }
    }

    /// Sets the zero flag iff the value is zero.
    fn set_zero(&mut self, n: u8)
        ensures
            Self::only_status_changed(*old(self), *final(self)),
            flag_set(final(self).nv_bdizc, ZERO_FLAG) == (n == 0),
            others_same(old(self).nv_bdizc, final(self).nv_bdizc, ZERO_FLAG),
    {
        proof {
            lemma_bit_ops(self.nv_bdizc, ZERO_FLAG);
        }
        if n == 0 {
            self.nv_bdizc = self.nv_bdizc | ZERO_FLAG;
        } else {
            self.nv_bdizc = self.nv_bdizc & !ZERO_FLAG;
        }
    }

    /// Sets the carry flag to the given condition.
    fn set_carry(&mut self, c: bool)
        ensures
            Self::only_status_changed(*old(self), *final(self)),
            flag_set(final(self).nv_bdizc, CARRY_FLAG) == c,
            others_same(old(self).nv_bdizc, final(self).nv_bdizc, CARRY_FLAG),
    {
        proof {
            lemma_bit_ops(self.nv_bdizc, CARRY_FLAG);
        }
        if c {
            self.nv_bdizc = self.nv_bdizc | CARRY_FLAG;
        } else {
            self.nv_bdizc = self.nv_bdizc & !CARRY_FLAG;
        }
    }

    /// Clears all buffers on a BRK or a taken branch so no stale
    /// instruction executes. There is no branch speculation: the pipeline
    /// simply refills from the new program counter. In-flight bank
    /// requests are not cancelled; their responses are drained on the
    /// next cache access.
    pub fn clear_pipeline(&mut self)
        requires
            old(self).units_wf(),
        ensures
            final(self).ir is None,
            !final(self).execution_units@[0].busy,
            !final(self).execution_units@[1].busy,
            final(self).units_wf(),
            *final(self) == (Cpu {
                ir: None,
                execution_units: final(self).execution_units,
                ..*old(self)
            }),
            final(self).execution_units@[0] == (ExecutionUnit {
                busy: false,
                ..old(self).execution_units@[0]
            }),
            final(self).execution_units@[1] == (ExecutionUnit {
                busy: false,
                ..old(self).execution_units@[1]
            }),
    {
        self.ir = None;
        let u0 = &mut self.execution_units[0];
        u0.busy = false;
        let u1 = &mut self.execution_units[1];
        u1.busy = false;
    }
}

impl Cpu {
    /// Everything but the named register and the status is as it was.
    pub open spec fn only_reg_status_changed(pre: Cpu, post: Cpu) -> bool {
        post == (Cpu { a: post.a, x: post.x, y: post.y, nv_bdizc: post.nv_bdizc, ..pre })
    }

    /// Loads a value into A, setting the zero and negative flags from it.
    pub fn load_a(&mut self, v: u8)
        ensures
            *final(self) == (Cpu { a: v, nv_bdizc: final(self).nv_bdizc, ..*old(self) }),
            flag_set(final(self).nv_bdizc, ZERO_FLAG) == (v == 0),
            flag_set(final(self).nv_bdizc, NEGATIVE_FLAG) == (v >= 0x80),
            others_same(old(self).nv_bdizc, final(self).nv_bdizc, ZERO_FLAG | NEGATIVE_FLAG),
    {
        self.a = v;
        let ghost s0 = self.nv_bdizc;
        self.set_zero(v);
        let ghost s1 = self.nv_bdizc;
        self.set_negative(v);
        proof {
            lemma_flag_masks();
            lemma_flag_preserved(s1, self.nv_bdizc, NEGATIVE_FLAG, ZERO_FLAG);
            assert forall|m: u8| m & (ZERO_FLAG | NEGATIVE_FLAG) == 0
                implies (#[trigger] (self.nv_bdizc & m)) == s0 & m by {
                assert(m & (0x02u8 | 0x80u8) == 0 ==> m & 0x02u8 == 0 && m & 0x80u8 == 0)
                    by (bit_vector);
            }
        }
    }

    /// Loads a value into X, setting the zero and negative flags from it.
    pub fn load_x(&mut self, v: u8)
        ensures
            *final(self) == (Cpu { x: v, nv_bdizc: final(self).nv_bdizc, ..*old(self) }),
            flag_set(final(self).nv_bdizc, ZERO_FLAG) == (v == 0),
            flag_set(final(self).nv_bdizc, NEGATIVE_FLAG) == (v >= 0x80),
            others_same(old(self).nv_bdizc, final(self).nv_bdizc, ZERO_FLAG | NEGATIVE_FLAG),
    {
        self.x = v;
        let ghost s0 = self.nv_bdizc;
        self.set_zero(v);
        let ghost s1 = self.nv_bdizc;
        self.set_negative(v);
        proof {
            lemma_flag_masks();
            lemma_flag_preserved(s1, self.nv_bdizc, NEGATIVE_FLAG, ZERO_FLAG);
            assert forall|m: u8| m & (ZERO_FLAG | NEGATIVE_FLAG) == 0
                implies (#[trigger] (self.nv_bdizc & m)) == s0 & m by {
                assert(m & (0x02u8 | 0x80u8) == 0 ==> m & 0x02u8 == 0 && m & 0x80u8 == 0)
                    by (bit_vector);
            }
        }
    }

    /// Loads a value into Y, setting the zero and negative flags from it.
    pub fn load_y(&mut self, v: u8)
        ensures
            *final(self) == (Cpu { y: v, nv_bdizc: final(self).nv_bdizc, ..*old(self) }),
            flag_set(final(self).nv_bdizc, ZERO_FLAG) == (v == 0),
            flag_set(final(self).nv_bdizc, NEGATIVE_FLAG) == (v >= 0x80),
            others_same(old(self).nv_bdizc, final(self).nv_bdizc, ZERO_FLAG | NEGATIVE_FLAG),
    {
        self.y = v;
        let ghost s0 = self.nv_bdizc;
        self.set_zero(v);
        let ghost s1 = self.nv_bdizc;
        self.set_negative(v);
        proof {
            lemma_flag_masks();
            lemma_flag_preserved(s1, self.nv_bdizc, NEGATIVE_FLAG, ZERO_FLAG);
            assert forall|m: u8| m & (ZERO_FLAG | NEGATIVE_FLAG) == 0
                implies (#[trigger] (self.nv_bdizc & m)) == s0 & m by {
                assert(m & (0x02u8 | 0x80u8) == 0 ==> m & 0x02u8 == 0 && m & 0x80u8 == 0)
                    by (bit_vector);
            }
        }
    }

    /// Adds a memory byte to A, wrapping. Zero and negative follow the
    /// result; carry is set when the result did not grow past A for a
    /// nonzero addend; overflow is set exactly when the 8-bit add
    /// wrapped. The carry flag is not an input: the add never takes a
    /// carry in.
    pub fn alu_adc(&mut self, num: u8)
        ensures
            *final(self) == (Cpu {
                a: ((old(self).a + num) % 256) as u8,
                nv_bdizc: final(self).nv_bdizc,
                ..*old(self)
            }),
            flag_set(final(self).nv_bdizc, ZERO_FLAG) == ((old(self).a + num) % 256 == 0),
            flag_set(final(self).nv_bdizc, NEGATIVE_FLAG) == ((old(self).a + num) % 256 >= 0x80),
            flag_set(final(self).nv_bdizc, CARRY_FLAG) == ((old(self).a + num) % 256 <= old(self).a
                && num != 0),
            flag_set(final(self).nv_bdizc, OVERFLOW_FLAG) == (old(self).a + num > 255),
            others_same(old(self).nv_bdizc, final(self).nv_bdizc,
                ZERO_FLAG | NEGATIVE_FLAG | CARRY_FLAG | OVERFLOW_FLAG),
    {
        let a0 = self.a;
        let sum: u16 = a0 as u16 + num as u16;
        let result: u8 = (sum % 256) as u8;
        let overflow: bool = sum > 255;
        let ghost s0 = self.nv_bdizc;
        self.set_zero(result);
        let ghost s1 = self.nv_bdizc;
        self.set_negative(result);
        let ghost s2 = self.nv_bdizc;
        self.set_carry(result <= a0 && num != 0);
        let ghost s3 = self.nv_bdizc;
        proof {
            lemma_bit_ops(s3, OVERFLOW_FLAG);
        }
        if overflow {
            self.nv_bdizc = self.nv_bdizc | OVERFLOW_FLAG;
        } else {
            self.nv_bdizc = self.nv_bdizc & !OVERFLOW_FLAG;
        }
        self.a = result;
        proof {
            lemma_flag_masks();
            let s4 = self.nv_bdizc;
            lemma_flag_preserved(s1, s2, NEGATIVE_FLAG, ZERO_FLAG);
            lemma_flag_preserved(s2, s3, CARRY_FLAG, ZERO_FLAG);
            lemma_flag_preserved(s3, s4, OVERFLOW_FLAG, ZERO_FLAG);
            lemma_flag_preserved(s2, s3, CARRY_FLAG, NEGATIVE_FLAG);
            lemma_flag_preserved(s3, s4, OVERFLOW_FLAG, NEGATIVE_FLAG);
            lemma_flag_preserved(s3, s4, OVERFLOW_FLAG, CARRY_FLAG);
            assert forall|m: u8| m & (ZERO_FLAG | NEGATIVE_FLAG | CARRY_FLAG | OVERFLOW_FLAG) == 0
                implies (#[trigger] (s4 & m)) == s0 & m by {
                assert(m & (0x02u8 | 0x80u8 | 0x01u8 | 0x40u8) == 0 ==> m & 0x02u8 == 0
                    && m & 0x80u8 == 0 && m & 0x01u8 == 0 && m & 0x40u8 == 0) by (bit_vector);
            }
        }
    }

    /// Compares X with a memory byte: zero and negative follow the
    /// wrapping difference `X - value`, carry is `X >= value`.
    pub fn alu_cpx(&mut self, num: u8)
        ensures
            Self::only_status_changed(*old(self), *final(self)),
            flag_set(final(self).nv_bdizc, ZERO_FLAG) == (old(self).x == num),
            flag_set(final(self).nv_bdizc, NEGATIVE_FLAG) == ((old(self).x + 256 - num) % 256
                >= 0x80),
            flag_set(final(self).nv_bdizc, CARRY_FLAG) == (old(self).x >= num),
            others_same(old(self).nv_bdizc, final(self).nv_bdizc,
                ZERO_FLAG | NEGATIVE_FLAG | CARRY_FLAG),
    {
        let x0 = self.x;
        let diff: u8 = (((x0 as u16) + 256 - (num as u16)) % 256) as u8;
        let ghost s0 = self.nv_bdizc;
        self.set_zero(diff);
        let ghost s1 = self.nv_bdizc;
        self.set_negative(diff);
        let ghost s2 = self.nv_bdizc;
        self.set_carry(x0 >= num);
        proof {
            lemma_flag_masks();
            let s3 = self.nv_bdizc;
            assert((diff == 0) == (x0 == num));
            lemma_flag_preserved(s1, s2, NEGATIVE_FLAG, ZERO_FLAG);
            lemma_flag_preserved(s2, s3, CARRY_FLAG, ZERO_FLAG);
            lemma_flag_preserved(s2, s3, CARRY_FLAG, NEGATIVE_FLAG);
            assert forall|m: u8| m & (ZERO_FLAG | NEGATIVE_FLAG | CARRY_FLAG) == 0
                implies (#[trigger] (s3 & m)) == s0 & m by {
                assert(m & (0x02u8 | 0x80u8 | 0x01u8) == 0 ==> m & 0x02u8 == 0 && m & 0x80u8 == 0
                    && m & 0x01u8 == 0) by (bit_vector);
            }
        }
    }

    /// Only the program counter, the instruction register, the port
    /// token and the cache changed: the shape of a fetch step.
    pub open spec fn fetch_frame(pre: Cpu, post: Cpu) -> bool {
        &&& post == (Cpu {
            pc: post.pc,
            ir: post.ir,
            pipe_mem_user: post.pipe_mem_user,
            mmu: post.mmu,
            ..pre
        })
        &&& post.mmu.specs == pre.mmu.specs
    }

    /// Takes the cache port for `user` and reads through the cache.
    /// `Ok(None)` means the byte is not available this tick and the stage
    /// must retry; a fault means a bus slot was about to overfill, which
    /// the machine treats as fatal.
    fn read(&mut self, bus: &mut Bus, addr: u16, user: PipeMemUser) -> (r: Result<Option<u8>, Fault>)
        requires
            old(self).mmu.cache.wf(),
            old(bus).wf(),
            old(self).mmu.cache.cache_accesses < u128::MAX,
        ensures
            final(bus).wf(),
            final(self).mmu.cache.wf(),
            *final(self) == (Cpu { mmu: final(self).mmu, pipe_mem_user: user, ..*old(self) }),
            final(self).mmu.specs == old(self).mmu.specs,
            old(self).mmu.cache.cache_accesses <= final(self).mmu.cache.cache_accesses
                <= old(self).mmu.cache.cache_accesses + 1,
            r matches Ok(Some(v)) ==> {
                &&& v == read_result_byte(old(self).mmu.cache, *old(bus), addr)
                &&& final(self).mmu.cache.has_tag(crate::cache::spec_tag(addr))
                &&& forall|i: int| 0 <= i < N_WAYS ==> (#[trigger] final(bus).to_cpu@[i]) is None
            },
            old(self).mmu.cache.has_tag(crate::cache::spec_tag(addr)) ==> r == Ok::<
                Option<u8>,
                Fault,
            >(Some(read_result_byte(old(self).mmu.cache, *old(bus), addr))),
            r == Ok::<Option<u8>, Fault>(None) ==> final(self).mmu.cache.lines@
                == old(self).mmu.cache.lines@,
            r is Err ==> final(self).mmu.cache == old(self).mmu.cache && *final(bus) == *old(bus)
                && r == Err::<Option<u8>, Fault>(Fault::BusOverfull),
    {
        self.pipe_mem_user = user;
        let tag = addr / (N_WAYS as u16);
        if !(self.mmu.cache.contains_tag(tag) || bus.requests_clear_now()) {
            // a miss would post requests into occupied slots
            return Err(Fault::BusOverfull);
        }
        match self.mmu.cache.read(bus, addr) {
            Ok(v) => Ok(v),
            Err(()) => {
                // a fill response collided with a write acknowledgement;
                // transient, the stage retries next tick
                Ok(None)
            }
        }
    }

    /// Takes the cache port for `user` and writes through the cache.
    /// Returns whether the byte went to the cache (a hit); on a miss it
    /// went straight to the addressed bank. A fault means an unhandled
    /// fill response or an occupied request slot, both fatal.
    fn write(&mut self, bus: &mut Bus, addr: u16, value: u8, user: PipeMemUser) -> (r: Result<
        bool,
        Fault,
    >)
        requires
            old(self).mmu.cache.wf(),
            old(bus).wf(),
            old(self).mmu.cache.cache_accesses < u128::MAX,
        ensures
            final(bus).wf(),
            final(self).mmu.cache.wf(),
            *final(self) == (Cpu { mmu: final(self).mmu, pipe_mem_user: user, ..*old(self) }),
            final(self).mmu.specs == old(self).mmu.specs,
            old(self).mmu.cache.cache_accesses <= final(self).mmu.cache.cache_accesses
                <= old(self).mmu.cache.cache_accesses + 1,
            r is Ok ==> (r == Ok::<bool, Fault>(true) <==> old(self).mmu.cache.has_tag(
                crate::cache::spec_tag(addr))),
            r == Ok::<bool, Fault>(true) ==> {
                &&& crate::cache::lines_written(old(self).mmu.cache.lines@,
                    final(self).mmu.cache.lines@,
                    old(self).mmu.cache.ix_of(crate::cache::spec_tag(addr)),
                    crate::cache::spec_index(addr) as int, value)
                &&& final(bus).to_mem@ == old(bus).to_mem@
            },
            r == Ok::<bool, Fault>(false) ==> {
                &&& final(self).mmu.cache.lines@ == old(self).mmu.cache.lines@
                &&& final(bus).to_mem@ == old(bus).to_mem@.update(
                    crate::cache::spec_index(addr) as int,
                    Some(MemEvent::MemWriteRequest { mar: crate::cache::spec_tag(addr), mdr: value }),
                )
            },
            r is Err ==> final(self).mmu.cache == old(self).mmu.cache && *final(bus) == *old(bus)
                && (r == Err::<bool, Fault>(Fault::BusProtocol) || r == Err::<bool, Fault>(
                Fault::BusOverfull)),
    {
        self.pipe_mem_user = user;
        if bus.has_read_response_now() {
            return Err(Fault::BusProtocol);
        }
        let tag = addr / (N_WAYS as u16);
        let index = (addr % (N_WAYS as u16)) as usize;
        if !(self.mmu.cache.contains_tag(tag) || bus.request_slot_free(index)) {
            return Err(Fault::BusOverfull);
        }
        Ok(self.mmu.cache.write(bus, addr, value))
    }

    /// The fetch stage: with the IR slot free and the port available,
    /// reads the byte at PC, decodes it into an opcode (an invalid byte
    /// is fatal), loads `(op, None, None)` into the IR and advances PC.
    /// On a miss nothing changes this tick and fetch keeps the port.
    fn fetch_opcode(&mut self, bus: &mut Bus) -> (r: Result<(), Fault>)
        requires
            old(self).units_wf(),
            old(self).mmu.cache.wf(),
            old(bus).wf(),
            old(self).mmu.cache.cache_accesses < u128::MAX,
        ensures
            fetch_step(*old(self), *old(bus), *final(self), *final(bus), r),
    {
        if self.ir.is_some() {
            return Ok(());
        }
        // a BRK in flight or already executed is the end of the program:
        // everything past it is dead, and the bytes there need not decode
        // to instructions at all, so fetch stops
        if self.nv_bdizc & BREAK_FLAG == BREAK_FLAG {
            return Ok(());
        }
        if self.execution_units[0].busy && self.execution_units[0].ir.0 == Opcode::BRK {
            return Ok(());
        }
        if self.execution_units[1].busy && self.execution_units[1].ir.0 == Opcode::BRK {
            return Ok(());
        }
        match self.pipe_mem_user {
            PipeMemUser::Fetch | PipeMemUser::Free => {
                let pc0 = self.pc;
                match self.read(bus, pc0, PipeMemUser::Fetch) {
                    Err(f) => Err(f),
                    Ok(None) => Ok(()),
                    Ok(Some(num)) => {
                        match Opcode::from(num) {
                            Some(opcode) => {
                                self.ir = Some((opcode, None, None));
                                self.pc = if self.pc == 0xFFFF {
                                    0
                                } else {
                                    self.pc + 1
                                };
                                self.pipe_mem_user = PipeMemUser::Complete;
                                Ok(())
                            }
                            None => Err(Fault::InvalidOpcode { addr: pc0, byte: num }),
                        }
                    }
                }
            }
            _ => Ok(()),
        }
    }

    /// Like the opcode fetch, but the byte is returned to the decode
    /// stage instead of loaded into the IR.
    fn fetch_operand(&mut self, bus: &mut Bus) -> (r: Result<Option<u8>, Fault>)
        requires
            old(self).mmu.cache.wf(),
            old(bus).wf(),
            old(self).mmu.cache.cache_accesses < u128::MAX,
        ensures
            final(bus).wf(),
            final(self).mmu.cache.wf(),
            Self::fetch_frame(*old(self), *final(self)),
            final(self).ir == old(self).ir,
            old(self).mmu.cache.cache_accesses <= final(self).mmu.cache.cache_accesses
                <= old(self).mmu.cache.cache_accesses + 1,
            r matches Ok(Some(v)) ==> {
                &&& v == read_result_byte(old(self).mmu.cache, *old(bus), old(self).pc)
                &&& final(self).pipe_mem_user == PipeMemUser::Complete
                &&& final(self).pc == (if old(self).pc == 0xFFFF { 0u16 } else { (old(self).pc
                    + 1) as u16 })
            },
            r == Ok::<Option<u8>, Fault>(None) ==> final(self).pc == old(self).pc,
            // with an instruction to decode, the port available and PC's
            // line cached, the operand byte arrives this very tick
            (old(self).ir is Some && (old(self).pipe_mem_user == PipeMemUser::Decode
                || old(self).pipe_mem_user == PipeMemUser::Free)
                && old(self).mmu.cache.has_tag(crate::cache::spec_tag(old(self).pc))) ==> r
                == Ok::<Option<u8>, Fault>(Some(read_result_byte(old(self).mmu.cache, *old(bus),
                old(self).pc))),
            final(self).pipe_mem_user == old(self).pipe_mem_user
                || final(self).pipe_mem_user == PipeMemUser::Decode
                || final(self).pipe_mem_user == PipeMemUser::Complete,
    {
        if self.ir.is_none() {
            return Ok(None);
        }
        match self.pipe_mem_user {
            PipeMemUser::Decode | PipeMemUser::Free => {
                match self.read(bus, self.pc, PipeMemUser::Decode) {
                    Err(f) => Err(f),
                    Ok(None) => Ok(None),
                    Ok(Some(num)) => {
                        self.pc = if self.pc == 0xFFFF {
                            0
                        } else {
                            self.pc + 1
                        };
                        self.pipe_mem_user = PipeMemUser::Complete;
                        Ok(Some(num))
                    }
                }
            }
            _ => Ok(None),
        }
    }

    /// Only the fetch-stage state plus the execution units changed: the
    /// shape of a decode step.
    pub open spec fn decode_frame(pre: Cpu, post: Cpu) -> bool {
        &&& post == (Cpu {
            pc: post.pc,
            ir: post.ir,
            pipe_mem_user: post.pipe_mem_user,
            mmu: post.mmu,
            execution_units: post.execution_units,
            ..pre
        })
        &&& post.mmu.specs == pre.mmu.specs
    }

    /// The decode stage. Determines which storage areas the busy units
    /// may still mutate, fetches any missing operand bytes from the
    /// instruction stream (SYS cannot even state its operand needs until
    /// X is stable, so it waits while a busy unit may write X), and once
    /// the operands are complete and no busy unit touches a storage the
    /// instruction depends on, dispatches it to the first idle execution
    /// unit and clears the IR. Any hazard stalls the instruction in
    /// decode for this tick.
    fn decode(&mut self, bus: &mut Bus) -> (r: Result<(), Fault>)
        requires
            old(self).units_wf(),
            old(self).mmu.cache.wf(),
            old(bus).wf(),
            old(self).mmu.cache.cache_accesses < u128::MAX,
        ensures
            decode_step(*old(self), *old(bus), *final(self), *final(bus), r),
    {
        let (opcode, mut operand1, mut operand2) = match self.ir {
            None => {
                return Ok(());
            }
            Some(t) => t,
        };
        // the storage areas that in-flight instructions may still mutate
        let mut affected: Vec<Storage> = Vec::new();
        if self.execution_units[0].busy {
            let mut v = self.execution_units[0].ir.0.affected_storage();
            affected.append(&mut v);
        }
        if self.execution_units[1].busy {
            let mut v = self.execution_units[1].ir.0.affected_storage();
            affected.append(&mut v);
        }
        proof {
            let units = old(self).execution_units@;
            assert forall|s: Storage| affected@.contains(s) implies busy_affects(units, s) by {
                let j = choose|j: int| 0 <= j < affected@.len() && affected@[j] == s;
                if units[0].busy && j < spec_affected_storage(units[0].ir.0).len() {
                    assert(spec_affected_storage(units[0].ir.0).contains(s));
                } else {
                    assert(units[1].busy && spec_affected_storage(units[1].ir.0).contains(s));
                }
            }
            assert forall|s: Storage| busy_affects(units, s) implies affected@.contains(s) by {
                let i = choose|i: int| 0 <= i < 2 && (#[trigger] units[i]).busy
                    && spec_affected_storage(units[i].ir.0).contains(s);
                let j = choose|j: int| 0 <= j < spec_affected_storage(units[i].ir.0).len()
                    && spec_affected_storage(units[i].ir.0)[j] == s;
                if i == 0 {
                    assert(affected@[j] == s);
                } else {
                    let off = if units[0].busy {
                        spec_affected_storage(units[0].ir.0).len() as int
                    } else {
                        0int
                    };
                    assert(affected@[off + j] == s);
                }
            }
        }
        // complete the operands from the instruction stream
        match opcode {
            Opcode::TXA | Opcode::TYA | Opcode::TAX | Opcode::TAY | Opcode::NOP | Opcode::BRK => {
                operand1 = Some(0x00);
                operand2 = Some(0x00);
            }
            Opcode::LDAi | Opcode::LDXi | Opcode::LDYi | Opcode::BNEr => {
                if operand1.is_none() {
                    match self.fetch_operand(bus) {
                        Err(f) => {
                            return Err(f);
                        }
                        Ok(v) => {
                            operand1 = v;
                        }
                    }
                }
                operand2 = Some(0x00);
            }
            Opcode::LDAa | Opcode::STAa | Opcode::ADCa | Opcode::LDXa | Opcode::LDYa
            | Opcode::CPXa | Opcode::INCa => {
                if operand1.is_none() {
                    match self.fetch_operand(bus) {
                        Err(f) => {
                            return Err(f);
                        }
                        Ok(v) => {
                            operand1 = v;
                        }
                    }
                } else if operand2.is_none() {
                    match self.fetch_operand(bus) {
                        Err(f) => {
                            return Err(f);
                        }
                        Ok(v) => {
                            operand2 = v;
                        }
                    }
                }
            }
            Opcode::SYS => {
                // SYS's operand needs follow X, so X must be stable first
                if !contains_storage(&affected, Storage::X) {
                    match self.x {
                        0x01 | 0x02 => {
                            operand1 = Some(0x00);
                            operand2 = Some(0x00);
                        }
                        0x03 => {
                            if operand1.is_none() {
                                match self.fetch_operand(bus) {
                                    Err(f) => {
                                        return Err(f);
                                    }
                                    Ok(v) => {
                                        operand1 = v;
                                    }
                                }
                            } else if operand2.is_none() {
                                match self.fetch_operand(bus) {
                                    Err(f) => {
                                        return Err(f);
                                    }
                                    Ok(v) => {
                                        operand2 = v;
                                    }
                                }
                            }
                        }
                        _ => {
                            return Err(Fault::InvalidSysCall { x: self.x });
                        }
                    }
                }
            }
        }
        self.ir = Some((opcode, operand1, operand2));
        // dispatch when the instruction depends on nothing in flight
        let dep = opcode.dependent_storage();
        let hz = hazard_any(&dep, &affected);
        proof {
            let units = old(self).execution_units@;
            if hz {
                let i = choose|i: int| 0 <= i < dep@.len() && affected@.contains(#[trigger] dep@[i]);
                assert(spec_dependent_storage(opcode).contains(dep@[i]));
                assert(spec_hazard(opcode, units));
            }
            if spec_hazard(opcode, units) {
                let s = choose|s: Storage| #[trigger] spec_dependent_storage(opcode).contains(s)
                    && busy_affects(units, s);
                let j = choose|j: int| 0 <= j < spec_dependent_storage(opcode).len()
                    && spec_dependent_storage(opcode)[j] == s;
                assert(affected@.contains(dep@[j]));
                assert(hz);
            }
            assert(hz == spec_hazard(opcode, units));
        }
        if !hz {
            let unit_index: usize = if !self.execution_units[0].busy {
                0
            } else if !self.execution_units[1].busy {
                1
            } else {
                return Ok(());
            };
            proof {
                assert(unit_index as int == first_free_unit(old(self).execution_units@));
            }
            match self.ir {
                Some((op, Some(o1), Some(o2))) => {
                    let pc_now = self.pc;
                    let u = &mut self.execution_units[unit_index];
                    u.set_instruction(pc_now, (op, o1, o2));
                    self.ir = None;
                    proof {
                        assert(dispatched(*old(self), *self, unit_index as int, op, o1, o2));
                    }
                }
                _ => {}
            }
        }
        Ok(())
    }

    /// Retires the instruction in unit `i`: the unit goes idle and the
    /// instruction counter advances, exactly once per executed opcode.
    fn complete_unit(&mut self, i: usize)
        requires
            old(self).units_wf(),
            i < 2,
            old(self).instruction_counter < u128::MAX,
        ensures
            final(self).units_wf(),
            *final(self) == (Cpu {
                instruction_counter: (old(self).instruction_counter + 1) as u128,
                execution_units: final(self).execution_units,
                ..*old(self)
            }),
            final(self).execution_units@ == old(self).execution_units@.update(
                i as int,
                (ExecutionUnit { busy: false, ..old(self).execution_units@[i as int] }),
            ),
    {
        let u = &mut self.execution_units[i];
        u.busy = false;
        self.instruction_counter = self.instruction_counter + 1;
    }

    /// The execute stage for the instructions that touch memory; they run
    /// only while the unit holds the cache port (or it is free), retry on
    /// misses, and complete when the byte arrives. `INCa` reads, then
    /// writes the incremented byte back in the same tick. `SYS` with X=2
    /// prints one memory byte; with X=3 it streams bytes from its
    /// absolute address until a NUL, advancing the address buffered in
    /// the unit's operands, and never reads past the NUL.
    #[verifier::rlimit(100)]
    fn execute_memory(&mut self, bus: &mut Bus, exe_index: usize) -> (r: Result<(), Fault>)
        requires
            old(self).units_wf(),
            old(self).mmu.cache.wf(),
            old(bus).wf(),
            exe_index < 2,
            old(self).execution_units@[exe_index as int].busy,
            old(self).mmu.cache.cache_accesses + 2 <= u128::MAX,
            old(self).instruction_counter < u128::MAX,
        ensures
            memory_step_frame(*old(self), *old(bus), *final(self), *final(bus), exe_index as int, r),
            memory_step_store(*old(self), *old(bus), *final(self), *final(bus), exe_index as int, r),
            memory_step_reads(*old(self), *old(bus), *final(self), *final(bus), exe_index as int, r),
            memory_step_sys(*old(self), *old(bus), *final(self), *final(bus), exe_index as int, r),
    {
        let proceed = match self.pipe_mem_user {
            PipeMemUser::Free => true,
            PipeMemUser::Execute(id) => id == self.execution_units[exe_index].id,
            _ => false,
        };
        if !proceed {
            proof {
                assert(old(self).output@.is_prefix_of(self.output@));
            }
            return Ok(());
        }
        let my = PipeMemUser::Execute(self.execution_units[exe_index].id);
        let (op, o1, o2) = self.execution_units[exe_index].ir;
        let addr: u16 = (o1 as u16) + 256 * (o2 as u16);
        proof {
            assert(addr == spec_operand_addr(o1, o2));
        }
        let ghost s0 = self.nv_bdizc;
        match op {
            Opcode::LDAa => {
                match self.read(bus, addr, my) {
                    Err(f) => Err(f),
                    Ok(None) => Ok(()),
                    Ok(Some(num)) => {
                        self.load_a(num);
                        self.complete_unit(exe_index);
                        self.pipe_mem_user = PipeMemUser::Complete;
                        proof {
                            lemma_flag_masks();
                            lemma_flag_preserved(s0, self.nv_bdizc,
                                (ZERO_FLAG | NEGATIVE_FLAG), BREAK_FLAG);
                        }
                        Ok(())
                    }
                }
            }
            Opcode::STAa => {
                let v = self.a;
                match self.write(bus, addr, v, my) {
                    Err(f) => Err(f),
                    Ok(hit) => {
                        proof {
                            assert(hit == old(self).mmu.cache.has_tag(crate::cache::spec_tag(
                                addr)));
                            if !hit {
                                assert(self.mmu.cache.lines@ == old(self).mmu.cache.lines@);
                                assert(bus.to_mem@ == old(bus).to_mem@.update(
                                    crate::cache::spec_index(addr) as int,
                                    Some(MemEvent::MemWriteRequest {
                                        mar: crate::cache::spec_tag(addr),
                                        mdr: old(self).a,
                                    }),
                                ));
                            }
                        }
                        self.complete_unit(exe_index);
                        self.pipe_mem_user = PipeMemUser::Complete;
                        Ok(())
                    }
                }
            }
            Opcode::ADCa => {
                match self.read(bus, addr, my) {
                    Err(f) => Err(f),
                    Ok(None) => Ok(()),
                    Ok(Some(num)) => {
                        self.alu_adc(num);
                        self.complete_unit(exe_index);
                        self.pipe_mem_user = PipeMemUser::Complete;
                        proof {
                            lemma_flag_masks();
                            lemma_flag_preserved(s0, self.nv_bdizc,
                                (ZERO_FLAG | NEGATIVE_FLAG | CARRY_FLAG | OVERFLOW_FLAG),
                                BREAK_FLAG);
                        }
                        Ok(())
                    }
                }
            }
            Opcode::LDXa => {
                match self.read(bus, addr, my) {
                    Err(f) => Err(f),
                    Ok(None) => Ok(()),
                    Ok(Some(num)) => {
                        self.load_x(num);
                        self.complete_unit(exe_index);
                        self.pipe_mem_user = PipeMemUser::Complete;
                        proof {
                            lemma_flag_masks();
                            lemma_flag_preserved(s0, self.nv_bdizc,
                                (ZERO_FLAG | NEGATIVE_FLAG), BREAK_FLAG);
                        }
                        Ok(())
                    }
                }
            }
            Opcode::LDYa => {
                match self.read(bus, addr, my) {
                    Err(f) => Err(f),
                    Ok(None) => Ok(()),
                    Ok(Some(num)) => {
                        self.load_y(num);
                        self.complete_unit(exe_index);
                        self.pipe_mem_user = PipeMemUser::Complete;
                        proof {
                            lemma_flag_masks();
                            lemma_flag_preserved(s0, self.nv_bdizc,
                                (ZERO_FLAG | NEGATIVE_FLAG), BREAK_FLAG);
                        }
                        Ok(())
                    }
                }
            }
            Opcode::CPXa => {
                match self.read(bus, addr, my) {
                    Err(f) => Err(f),
                    Ok(None) => Ok(()),
                    Ok(Some(num)) => {
                        self.alu_cpx(num);
                        self.complete_unit(exe_index);
                        self.pipe_mem_user = PipeMemUser::Complete;
                        proof {
                            lemma_flag_masks();
                            lemma_flag_preserved(s0, self.nv_bdizc,
                                (ZERO_FLAG | NEGATIVE_FLAG | CARRY_FLAG), BREAK_FLAG);
                        }
                        Ok(())
                    }
                }
            }
            Opcode::INCa => {
                match self.read(bus, addr, my) {
                    Err(f) => Err(f),
                    Ok(None) => Ok(()),
                    Ok(Some(num)) => {
                        let v: u8 = if num == 0xFF {
                            0
                        } else {
                            num + 1
                        };
                        self.set_zero(v);
                        let ghost s1 = self.nv_bdizc;
                        self.set_negative(v);
                        proof {
                            lemma_flag_masks();
                            lemma_flag_preserved(s0, s1, ZERO_FLAG, BREAK_FLAG);
                            lemma_flag_preserved(s1, self.nv_bdizc, NEGATIVE_FLAG, BREAK_FLAG);
                        }
                        match self.write(bus, addr, v, my) {
                            Err(f) => Err(f),
                            Ok(_) => {
                                self.complete_unit(exe_index);
                                self.pipe_mem_user = PipeMemUser::Complete;
                                Ok(())
                            }
                        }
                    }
                }
            }
            Opcode::SYS => {
                match self.x {
                    0x02 => {
                        let addr2: u16 = (((addr as u32) + (self.y as u32)) % 0x10000) as u16;
                        proof {
                            assert(addr2 == ((spec_operand_addr(o1, o2) + old(self).y) % 0x10000)
                                as u16);
                        }
                        match self.read(bus, addr2, my) {
                            Err(f) => Err(f),
                            Ok(None) => Ok(()),
                            Ok(Some(num)) => {
                                self.output.push(num);
                                proof {
                                    assert(self.output@ == old(self).output@ + seq![num]);
                                }
                                self.complete_unit(exe_index);
                                self.pipe_mem_user = PipeMemUser::Complete;
                                Ok(())
                            }
                        }
                    }
                    0x03 => {
                        match self.read(bus, addr, my) {
                            Err(f) => Err(f),
                            Ok(None) => Ok(()),
                            Ok(Some(num)) => {
                                if num != 0 {
                                    // print the byte and step the streamed address
                                    self.output.push(num);
                                    let lo: u8 = if o1 == 0xFF {
                                        0
                                    } else {
                                        o1 + 1
                                    };
                                    let hi: u8 = if o1 == 0xFF {
                                        if o2 == 0xFF {
                                            0
                                        } else {
                                            o2 + 1
                                        }
                                    } else {
                                        o2
                                    };
                                    let u = &mut self.execution_units[exe_index];
                                    u.ir = (op, lo, hi);
                                    proof {
                                        assert(spec_operand_addr(lo, hi) == ((spec_operand_addr(
                                            o1, o2) + 1) % 0x10000) as u16);
                                        assert(self.output@ == old(self).output@ + seq![num]);
                                    }
                                } else {
                                    // the NUL ends the string; nothing past it is read
                                    self.complete_unit(exe_index);
                                    self.pipe_mem_user = PipeMemUser::Complete;
                                }
                                Ok(())
                            }
                        }
                    }
                    _ => Err(Fault::InvalidSysCall { x: self.x }),
                }
            }
            _ => Ok(()),
        }
    }

    /// The execute stage for the unit at `exe_index`. Register-only
    /// instructions complete immediately; BRK sets the Break and
    /// Interrupt-disable flags together and flushes the pipeline; a taken
    /// BNEr retargets PC from the unit's instruction pointer plus the
    /// sign-extended operand and flushes; memory instructions go through
    /// the cache port and retry across ticks until their byte arrives.
    fn execute(&mut self, bus: &mut Bus, exe_index: usize) -> (r: Result<(), Fault>)
        requires
            old(self).units_wf(),
            old(self).mmu.cache.wf(),
            old(bus).wf(),
            exe_index < 2,
            old(self).mmu.cache.cache_accesses + 2 <= u128::MAX,
            old(self).instruction_counter < u128::MAX,
        ensures
            exec_step(*old(self), *old(bus), *final(self), *final(bus), exe_index as int, r),
    {
        if !self.execution_units[exe_index].busy {
            proof {
                assert(old(self).output@.is_prefix_of(self.output@));
            }
            return Ok(());
        }
        let (op, o1, _o2) = self.execution_units[exe_index].ir;
        let ghost s0 = self.nv_bdizc;
        match op {
            Opcode::LDAi => {
                self.load_a(o1);
                self.complete_unit(exe_index);
                proof {
                    lemma_flag_masks();
                    lemma_flag_preserved(s0, self.nv_bdizc, (ZERO_FLAG | NEGATIVE_FLAG), BREAK_FLAG);
                }
                Ok(())
            }
            Opcode::TXA => {
                let v = self.x;
                self.load_a(v);
                self.complete_unit(exe_index);
                proof {
                    lemma_flag_masks();
                    lemma_flag_preserved(s0, self.nv_bdizc, (ZERO_FLAG | NEGATIVE_FLAG), BREAK_FLAG);
                }
                Ok(())
            }
            Opcode::TYA => {
                let v = self.y;
                self.load_a(v);
                self.complete_unit(exe_index);
                proof {
                    lemma_flag_masks();
                    lemma_flag_preserved(s0, self.nv_bdizc, (ZERO_FLAG | NEGATIVE_FLAG), BREAK_FLAG);
                }
                Ok(())
            }
            Opcode::LDXi => {
                self.load_x(o1);
                self.complete_unit(exe_index);
                proof {
                    lemma_flag_masks();
                    lemma_flag_preserved(s0, self.nv_bdizc, (ZERO_FLAG | NEGATIVE_FLAG), BREAK_FLAG);
                }
                Ok(())
            }
            Opcode::TAX => {
                let v = self.a;
                self.load_x(v);
                self.complete_unit(exe_index);
                proof {
                    lemma_flag_masks();
                    lemma_flag_preserved(s0, self.nv_bdizc, (ZERO_FLAG | NEGATIVE_FLAG), BREAK_FLAG);
                }
                Ok(())
            }
            Opcode::LDYi => {
                self.load_y(o1);
                self.complete_unit(exe_index);
                proof {
                    lemma_flag_masks();
                    lemma_flag_preserved(s0, self.nv_bdizc, (ZERO_FLAG | NEGATIVE_FLAG), BREAK_FLAG);
                }
                Ok(())
            }
            Opcode::TAY => {
                let v = self.a;
                self.load_y(v);
                self.complete_unit(exe_index);
                proof {
                    lemma_flag_masks();
                    lemma_flag_preserved(s0, self.nv_bdizc, (ZERO_FLAG | NEGATIVE_FLAG), BREAK_FLAG);
                }
                Ok(())
            }
            Opcode::NOP => {
                self.complete_unit(exe_index);
                Ok(())
            }
            Opcode::BRK => {
                // Break and Interrupt-disable are set together, so no
                // interrupt is polled at the end of this instruction cycle
                proof {
                    lemma_flag_masks();
                    lemma_bit_ops(self.nv_bdizc, BREAK_FLAG);
                }
                self.nv_bdizc = self.nv_bdizc | BREAK_FLAG;
                proof {
                    lemma_bit_ops(self.nv_bdizc, INTERRUPT_FLAG);
                    lemma_flag_preserved(self.nv_bdizc, self.nv_bdizc | INTERRUPT_FLAG,
                        INTERRUPT_FLAG, BREAK_FLAG);
                }
                self.nv_bdizc = self.nv_bdizc | INTERRUPT_FLAG;
                proof {
                    assert forall|mm: u8| mm & (BREAK_FLAG | INTERRUPT_FLAG) == 0
                        implies (#[trigger] (self.nv_bdizc & mm)) == old(self).nv_bdizc & mm by {
                        assert(mm & (0x10u8 | 0x04u8) == 0 ==> mm & 0x10u8 == 0 && mm & 0x04u8
                            == 0) by (bit_vector);
                    }
                }
                self.clear_pipeline();
                self.instruction_counter = self.instruction_counter + 1;
                Ok(())
            }
            Opcode::BNEr => {
                let s = self.nv_bdizc;
                proof {
                    assert((s & 0x02u8 == 0) == !(s & 0x02u8 == 0x02u8)) by (bit_vector);
                }
                if s & ZERO_FLAG == 0 {
                    // branch taken: retarget and flush; no speculation
                    self.pc = branch_target(self.execution_units[exe_index].ip, o1);
                    self.clear_pipeline();
                }
                self.complete_unit(exe_index);
                Ok(())
            }
            Opcode::SYS => {
                if self.x == 1 {
                    // print Y as hexadecimal; no memory involved
                    let v = self.y;
                    self.sys_out_u8(v);
                    self.complete_unit(exe_index);
                    Ok(())
                } else {
                    self.execute_memory(bus, exe_index)
                }
            }
            _ => self.execute_memory(bus, exe_index),
        }
    }

    /// The interrupt poll at the tail of an instruction cycle. While
    /// Interrupt-disable is set the controller is not polled at all.
    /// Otherwise at most one pending event of maximal priority is
    /// delivered: its device is looked up by IQR and the device's output
    /// byte is emitted to the console. An unknown IQR is fatal.
    fn interrupt_check(&mut self) -> (r: Result<(), Fault>)
        requires
            old(self).interrupt_controller.wf(),
        ensures
            poll_step(*old(self), *final(self), r),
    {
        proof {
            assert(old(self).output@.is_prefix_of(old(self).output@));
        }
        let s = self.nv_bdizc;
        proof {
            assert((s & 0x04u8 == 0x04u8) == !(s & 0x04u8 == 0)) by (bit_vector);
        }
        if s & INTERRUPT_FLAG == 0 {
            match self.interrupt_controller.pop_highest() {
                Some(event) => {
                    proof {
                        assert(self.interrupt_controller.wf());
                    }
                    match self.interrupt_controller.find_device(event.iqr) {
                        Some(k) => {
                            let b = self.interrupt_controller.io_devices[k].get_out_buf();
                            self.output.push(b);
                            proof {
                                assert(self.output@ == old(self).output@ + seq![b]);
                            }
                            Ok(())
                        }
                        None => Err(Fault::UnknownIqr { iqr: event.iqr }),
                    }
                }
                None => Ok(()),
            }
        } else {
            Ok(())
        }
    }

    /// One clock tick. The stages run in reverse order (execute both
    /// units, then decode, then fetch) so that older in-flight work gets
    /// the single cache port first; at most one stage takes the port per
    /// tick. If the port's user finished this tick, the port is freed and
    /// the interrupt poll runs, so interrupts are observed at most once
    /// per instruction cycle.
    pub fn pulse(&mut self, bus: &mut Bus) -> (r: Result<(), Fault>)
        requires
            old(self).wf(),
            old(bus).wf(),
            old(self).cpu_clock_counter + 2 <= u128::MAX,
            old(self).mmu.cache.cache_accesses + 6 <= u128::MAX,
        ensures
            final(self).wf(),
            final(bus).wf(),
            final(self).cpu_clock_counter == old(self).cpu_clock_counter + 1,
            old(self).instruction_counter <= final(self).instruction_counter,
            final(self).instruction_counter <= final(self).cpu_clock_counter,
            old(self).mmu.cache.cache_accesses <= final(self).mmu.cache.cache_accesses
                <= old(self).mmu.cache.cache_accesses + 6,
            final(self).mmu.cache.cache_hits <= final(self).mmu.cache.cache_accesses,
            old(self).output@.is_prefix_of(final(self).output@),
            final(self).specs == old(self).specs,
            final(self).mmu.specs == old(self).mmu.specs,
            flag_set(old(self).nv_bdizc, BREAK_FLAG) ==> flag_set(final(self).nv_bdizc, BREAK_FLAG),
            // a halted machine is quiet: once BRK has set its flags and
            // the pipeline is drained, ticks only advance the clock
            flag_set(old(self).nv_bdizc, BREAK_FLAG) && flag_set(old(self).nv_bdizc,
                INTERRUPT_FLAG) && old(self).ir is None && !old(self).execution_units@[0].busy
                && !old(self).execution_units@[1].busy ==> *final(self) == (Cpu {
                cpu_clock_counter: (old(self).cpu_clock_counter + 1) as u128,
                pipe_mem_user: final(self).pipe_mem_user,
                ..*old(self)
            }) && *final(bus) == *old(bus),
            // one whole pipeline pass: the final state is reached from
            // the old one by the clock edge, both execute units, decode,
            // fetch and the conditional interrupt poll, each leg obeying
            // its stage's full relation
            r is Ok ==> cpu_tick(*old(self), *old(bus), *final(self), *final(bus)),
    {
        self.cpu_clock_counter = self.cpu_clock_counter + 1;
        let ghost c0 = *self;
        let ghost b0 = *bus;
        match self.execute(bus, 0) {
            Err(f) => {
                return Err(f);
            }
            Ok(()) => {}
        }
        let ghost c1 = *self;
        let ghost b1 = *bus;
        match self.execute(bus, 1) {
            Err(f) => {
                return Err(f);
            }
            Ok(()) => {}
        }
        let ghost c2 = *self;
        let ghost b2 = *bus;
        match self.decode(bus) {
            Err(f) => {
                return Err(f);
            }
            Ok(()) => {}
        }
        let ghost c3 = *self;
        let ghost b3 = *bus;
        match self.fetch_opcode(bus) {
            Err(f) => {
                return Err(f);
            }
            Ok(()) => {}
        }
        let ghost c4 = *self;
        let ghost b4 = *bus;
        proof {
            lemma_output_prefix_trans(c0.output@, c1.output@, c2.output@);
            lemma_output_prefix_trans(c0.output@, c2.output@, c3.output@);
            lemma_output_prefix_trans(c0.output@, c3.output@, c4.output@);
            assert(c0 == tick_started(*old(self)));
            assert(exec_step(tick_started(*old(self)), b0, c1, b1, 0, Ok(())));
            assert(exec_step(c1, b1, c2, b2, 1, Ok(())));
            assert(decode_step(c2, b2, c3, b3, Ok(())));
            assert(fetch_step(c3, b3, c4, b4, Ok(())));
        }
        // free the port if its user finished, and poll for interrupts a
        // couple of times per instruction cycle rather than every tick
        if self.pipe_mem_user == PipeMemUser::Complete {
            self.pipe_mem_user = PipeMemUser::Free;
            let ghost c5 = *self;
            match self.interrupt_check() {
                Err(f) => {
                    return Err(f);
                }
                Ok(()) => {}
            }
            proof {
                lemma_output_prefix_trans(c0.output@, c4.output@, self.output@);
                assert(c5 == (Cpu { pipe_mem_user: PipeMemUser::Free, ..c4 }));
                assert(poll_step(c5, *self, Ok(())));
                assert(cpu_tick(*old(self), b0, *self, *bus));
            }
        } else {
            proof {
                assert(cpu_tick(*old(self), b0, *self, *bus));
            }
        }
        Ok(())
    }

    /// Emits a byte printed as upper-case hexadecimal, one digit for
    /// values under 0x10 and two otherwise.
    pub fn sys_out_u8(&mut self, n: u8)
        ensures
            *final(self) == (Cpu { output: final(self).output, ..*old(self) }),
            final(self).output@ == old(self).output@ + spec_hex_of(n),
    {
        if n >= 0x10 {
            let hi = hex_digit(n / 16);
            self.output.push(hi);
        }
        let lo = hex_digit(n % 16);
        self.output.push(lo);
        proof {
            assert(self.output@ =~= old(self).output@ + spec_hex_of(n));
        }
    }
}

/// The address a taken BNEr lands on: the unit's instruction pointer
/// plus the sign-extended relative operand, wrapping around the 16-bit
/// address space.
pub open spec fn spec_branch_target(ip: u16, offset: u8) -> u16 {
    if offset < 0x80 {
        ((ip + offset) % 0x10000) as u16
    } else {
        ((ip + offset + 0xFF00) % 0x10000) as u16
    }
}

/// Computes a taken branch's destination.
pub fn branch_target(ip: u16, offset: u8) -> (t: u16)
    ensures
        t == spec_branch_target(ip, offset),
{
    let ext: u32 = if offset < 0x80 {
        offset as u32
    } else {
        offset as u32 + 0xFF00
    };
    ((ip as u32 + ext) % 0x10000) as u16
}

/// The ASCII code of one hexadecimal digit, upper case.
pub open spec fn spec_hex_digit(d: u8) -> u8 {
    if d < 10 {
        (0x30 + d) as u8
    } else {
        (0x41 + d - 10) as u8
    }
}

/// The digits of a byte printed as hexadecimal, without a leading zero.
pub open spec fn spec_hex_of(n: u8) -> Seq<u8> {
    if n < 0x10 {
        seq![spec_hex_digit(n)]
    } else {
        seq![spec_hex_digit(n / 16), spec_hex_digit(n % 16)]
    }
}

/// Everything one call of the execute stage for unit `i` guarantees,
/// as a relation between the machine and the bus before and after.
pub open spec fn exec_step(pre: Cpu, pre_bus: Bus, post: Cpu, post_bus: Bus, i: int, r: Result<(), Fault>) -> bool {
    &&& (post_bus.wf())
    &&& (post.units_wf())
    &&& (post.mmu.cache.wf())
    &&& (post.cpu_clock_counter == pre.cpu_clock_counter)
    &&& (post.interrupt_controller == pre.interrupt_controller)
    &&& (post.specs == pre.specs)
    &&& (post.mmu.specs == pre.mmu.specs)
    &&& (pre.mmu.cache.cache_accesses <= post.mmu.cache.cache_accesses
                <= pre.mmu.cache.cache_accesses + 2)
    &&& (post.pipeline_load() <= pre.pipeline_load())
    &&& (pre.instruction_counter <= post.instruction_counter)
    &&& (pre.output@.is_prefix_of(post.output@))
    &&& (!pre.execution_units@[i].busy ==> post == pre
                && post_bus == pre_bus)
    &&& (pre.execution_units@[i].busy
                && pre.execution_units@[i].ir.0 == Opcode::BRK ==> {
                &&& flag_set(post.nv_bdizc, BREAK_FLAG)
                &&& flag_set(post.nv_bdizc, INTERRUPT_FLAG)
                &&& others_same(pre.nv_bdizc, post.nv_bdizc,
                    (BREAK_FLAG | INTERRUPT_FLAG))
                &&& post.ir is None
                &&& !post.execution_units@[0].busy
                &&& !post.execution_units@[1].busy
                &&& post.instruction_counter == pre.instruction_counter + 1
                &&& post.pc == pre.pc
                &&& post.a == pre.a && post.x == pre.x
                    && post.y == pre.y
                &&& post.mmu == pre.mmu
                &&& post.pipe_mem_user == pre.pipe_mem_user
                &&& post_bus == pre_bus
            })
    &&& (flag_set(pre.nv_bdizc, BREAK_FLAG) ==> flag_set(post.nv_bdizc, BREAK_FLAG))
    // a unit holding a memory instruction behaves exactly as the
    // memory execute stage's relations say — in particular, a
    // unit without the cache port touches nothing at all
    &&& (pre.execution_units@[i].busy && is_memory_op(
                pre.execution_units@[i].ir.0, pre.x) ==> {
                &&& memory_step_frame(pre, pre_bus, post, post_bus,
                    i, r)
                &&& memory_step_store(pre, pre_bus, post, post_bus,
                    i, r)
                &&& memory_step_reads(pre, pre_bus, post, post_bus,
                    i, r)
                &&& memory_step_sys(pre, pre_bus, post, post_bus,
                    i, r)
            })
    &&& (({
                let u = pre.execution_units@[i];
                u.busy && (u.ir.0 == Opcode::LDAi || u.ir.0 == Opcode::TXA || u.ir.0 == Opcode::TYA)
                    ==> {
                    let v = if u.ir.0 == Opcode::LDAi {
                        u.ir.1
                    } else if u.ir.0 == Opcode::TXA {
                        pre.x
                    } else {
                        pre.y
                    };
                    &&& post.a == v
                    &&& post.x == pre.x && post.y == pre.y
                    &&& flag_set(post.nv_bdizc, ZERO_FLAG) == (v == 0)
                    &&& flag_set(post.nv_bdizc, NEGATIVE_FLAG) == (v >= 0x80)
                    &&& others_same(pre.nv_bdizc, post.nv_bdizc,
                        (ZERO_FLAG | NEGATIVE_FLAG))
                    &&& post.instruction_counter == pre.instruction_counter + 1
                    &&& post.execution_units@ == pre.execution_units@.update(i,
                        (ExecutionUnit { busy: false, ..u }))
                    &&& post.pc == pre.pc && post.ir == pre.ir
                    &&& post.mmu == pre.mmu && post_bus == pre_bus
                    &&& post.pipe_mem_user == pre.pipe_mem_user
                    &&& post.output == pre.output
                }
            }))
    &&& (({
                let u = pre.execution_units@[i];
                u.busy && (u.ir.0 == Opcode::LDXi || u.ir.0 == Opcode::TAX) ==> {
                    let v = if u.ir.0 == Opcode::LDXi {
                        u.ir.1
                    } else {
                        pre.a
                    };
                    &&& post.x == v
                    &&& post.a == pre.a && post.y == pre.y
                    &&& flag_set(post.nv_bdizc, ZERO_FLAG) == (v == 0)
                    &&& flag_set(post.nv_bdizc, NEGATIVE_FLAG) == (v >= 0x80)
                    &&& others_same(pre.nv_bdizc, post.nv_bdizc,
                        (ZERO_FLAG | NEGATIVE_FLAG))
                    &&& post.instruction_counter == pre.instruction_counter + 1
                    &&& post.execution_units@ == pre.execution_units@.update(i,
                        (ExecutionUnit { busy: false, ..u }))
                    &&& post.pc == pre.pc && post.ir == pre.ir
                    &&& post.mmu == pre.mmu && post_bus == pre_bus
                    &&& post.pipe_mem_user == pre.pipe_mem_user
                    &&& post.output == pre.output
                }
            }))
    &&& (({
                let u = pre.execution_units@[i];
                u.busy && (u.ir.0 == Opcode::LDYi || u.ir.0 == Opcode::TAY) ==> {
                    let v = if u.ir.0 == Opcode::LDYi {
                        u.ir.1
                    } else {
                        pre.a
                    };
                    &&& post.y == v
                    &&& post.a == pre.a && post.x == pre.x
                    &&& flag_set(post.nv_bdizc, ZERO_FLAG) == (v == 0)
                    &&& flag_set(post.nv_bdizc, NEGATIVE_FLAG) == (v >= 0x80)
                    &&& others_same(pre.nv_bdizc, post.nv_bdizc,
                        (ZERO_FLAG | NEGATIVE_FLAG))
                    &&& post.instruction_counter == pre.instruction_counter + 1
                    &&& post.execution_units@ == pre.execution_units@.update(i,
                        (ExecutionUnit { busy: false, ..u }))
                    &&& post.pc == pre.pc && post.ir == pre.ir
                    &&& post.mmu == pre.mmu && post_bus == pre_bus
                    &&& post.pipe_mem_user == pre.pipe_mem_user
                    &&& post.output == pre.output
                }
            }))
    &&& (({
                let u = pre.execution_units@[i];
                u.busy && u.ir.0 == Opcode::NOP ==> post == (Cpu {
                    instruction_counter: (pre.instruction_counter + 1) as u128,
                    execution_units: post.execution_units,
                    ..pre
                }) && !post.execution_units@[i].busy
            }))
    &&& (({
                let u = pre.execution_units@[i];
                u.busy && u.ir.0 == Opcode::BNEr ==> {
                    &&& !flag_set(pre.nv_bdizc, ZERO_FLAG) ==> {
                        &&& post.pc == spec_branch_target(u.ip, u.ir.1)
                        &&& post.ir is None
                        &&& !post.execution_units@[0].busy
                        &&& !post.execution_units@[1].busy
                    }
                    &&& flag_set(pre.nv_bdizc, ZERO_FLAG) ==> post.pc == pre.pc
                        && post.ir == pre.ir && post.execution_units@
                        == pre.execution_units@.update(i, (ExecutionUnit {
                        busy: false,
                        ..u
                    }))
                    &&& post.nv_bdizc == pre.nv_bdizc
                    &&& post.instruction_counter == pre.instruction_counter + 1
                    &&& post.mmu == pre.mmu
                    &&& post_bus == pre_bus
                }
            }))
    &&& (({
                let u = pre.execution_units@[i];
                u.busy && u.ir.0 == Opcode::SYS && pre.x == 1 ==> {
                    &&& post.output@ == pre.output@ + spec_hex_of(pre.y)
                    &&& post.instruction_counter == pre.instruction_counter + 1
                    &&& post.execution_units@ == pre.execution_units@.update(i,
                        (ExecutionUnit { busy: false, ..u }))
                    &&& post.pc == pre.pc && post.ir == pre.ir
                    &&& post.a == pre.a && post.x == pre.x && post.y == pre.y
                    &&& post.nv_bdizc == pre.nv_bdizc
                    &&& post.mmu == pre.mmu && post_bus == pre_bus
                    &&& post.pipe_mem_user == pre.pipe_mem_user
                }
            }))
}

/// Everything one call of the decode stage guarantees.
pub open spec fn decode_step(pre: Cpu, pre_bus: Bus, post: Cpu, post_bus: Bus, r: Result<(), Fault>) -> bool {
    &&& (post_bus.wf())
    &&& (post.units_wf())
    &&& (post.mmu.cache.wf())
    &&& (Cpu::decode_frame(pre, post))
    &&& (pre.mmu.cache.cache_accesses <= post.mmu.cache.cache_accesses
                <= pre.mmu.cache.cache_accesses + 1)
    &&& (post.pipeline_load() <= pre.pipeline_load() + 1)
    &&& (post.instruction_counter == pre.instruction_counter)
    &&& (forall|i: int| 0 <= i < 2 && (#[trigger] pre.execution_units@[i]).busy ==>
                post.execution_units@[i] == pre.execution_units@[i])
    &&& ((exists|i: int| 0 <= i < 2 && (#[trigger] post.execution_units@[i]).busy
                && !pre.execution_units@[i].busy) ==> post.ir is None)
    &&& (forall|i: int| 0 <= i < 2 && (#[trigger] post.execution_units@[i]).busy
                && !pre.execution_units@[i].busy ==> (pre.ir matches Some((op, _, _))
                && post.execution_units@[i].ir.0 == op
                && post.execution_units@[i].ip == post.pc))
    &&& (pre.ir is None ==> post == pre && post_bus == pre_bus)
    &&& (post.pipe_mem_user == pre.pipe_mem_user
                || post.pipe_mem_user == PipeMemUser::Decode
                || post.pipe_mem_user == PipeMemUser::Complete)
    // the hazard stall: an instruction that depends on a storage
    // area some in-flight instruction may mutate dispatches to no
    // unit and stays in the IR
    &&& (pre.ir matches Some((op, _, _)) ==> (spec_hazard(op,
                pre.execution_units@) ==> post.execution_units
                == pre.execution_units && post.ir is Some && (post.ir->0).0
                == op))
    // SYS cannot state its operand needs until X is stable: while
    // a busy unit may write X, decode does nothing at all
    &&& (pre.ir matches Some((op, _, _)) && op == Opcode::SYS && busy_affects(
                pre.execution_units@, Storage::X) ==> post == pre
                && post_bus == pre_bus)
    // dispatch is owed: a hazard-free instruction whose operands
    // are complete (or fixed by its arity) enters the first idle
    // unit this very tick
    &&& (({
                let units = pre.execution_units@;
                let fz = first_free_unit(units);
                pre.ir matches Some((op, po1, po2)) ==> {
                    &&& ((op == Opcode::TXA || op == Opcode::TYA || op == Opcode::TAX || op
                        == Opcode::TAY || op == Opcode::NOP || op == Opcode::BRK)
                        && !spec_hazard(op, units) && fz < 2) ==> dispatched(pre,
                        post, fz, op, 0, 0) && post.pc == pre.pc
                        && post.mmu == pre.mmu && post_bus == pre_bus
                    &&& po1 matches Some(v1) ==> ((op == Opcode::LDAi || op == Opcode::LDXi || op
                        == Opcode::LDYi || op == Opcode::BNEr) && !spec_hazard(op, units)
                        && fz < 2 ==> dispatched(pre, post, fz, op, v1, 0)
                        && post.pc == pre.pc)
                    &&& po1 matches Some(v1) ==> po2 matches Some(v2) ==> ((op == Opcode::LDAa
                        || op == Opcode::STAa || op == Opcode::ADCa || op == Opcode::LDXa || op
                        == Opcode::LDYa || op == Opcode::CPXa || op == Opcode::INCa)
                        && !spec_hazard(op, units) && fz < 2 ==> dispatched(pre,
                        post, fz, op, v1, v2) && post.pc == pre.pc)
                    &&& (op == Opcode::SYS && (pre.x == 1 || pre.x == 2)
                        && !spec_hazard(op, units) && fz < 2) ==> dispatched(pre,
                        post, fz, op, 0, 0) && post.pc == pre.pc
                    &&& po1 matches Some(v1) ==> po2 matches Some(v2) ==> (op == Opcode::SYS
                        && pre.x == 3 && !spec_hazard(op, units) && fz < 2 ==> dispatched(
                        pre, post, fz, op, v1, v2) && post.pc
                        == pre.pc)
                    &&& (op == Opcode::SYS && pre.x != 1 && pre.x != 2 && pre.x
                        != 3 && !busy_affects(units, Storage::X)) ==> r == Err::<(), Fault>(
                        Fault::InvalidSysCall { x: pre.x })
                }
            }))
    // the operand stream: at most one byte per tick, the low byte
    // before the high byte, PC advancing past each fetched byte
    &&& (({
                let units = pre.execution_units@;
                let fz = first_free_unit(units);
                let m = read_result_byte(pre.mmu.cache, pre_bus, pre.pc);
                let fetch_ok = (pre.pipe_mem_user == PipeMemUser::Decode
                    || pre.pipe_mem_user == PipeMemUser::Free)
                    && pre.mmu.cache.has_tag(crate::cache::spec_tag(pre.pc));
                pre.ir matches Some((op, po1, po2)) ==> {
                    &&& ((op == Opcode::LDAi || op == Opcode::LDXi || op == Opcode::LDYi || op
                        == Opcode::BNEr) && po1 is None && fetch_ok && spec_hazard(op, units))
                        ==> post.ir == Some((op, Some(m), Some(0u8))) && post.pc
                        == pc_next(pre.pc)
                    &&& ((op == Opcode::LDAi || op == Opcode::LDXi || op == Opcode::LDYi || op
                        == Opcode::BNEr) && po1 is None && fetch_ok && !spec_hazard(op, units)
                        && fz < 2) ==> dispatched(pre, post, fz, op, m, 0)
                        && post.pc == pc_next(pre.pc)
                    &&& ((op == Opcode::LDAa || op == Opcode::STAa || op == Opcode::ADCa || op
                        == Opcode::LDXa || op == Opcode::LDYa || op == Opcode::CPXa || op
                        == Opcode::INCa) && po1 is None && po2 is None && fetch_ok)
                        ==> post.ir == Some((op, Some(m), None::<u8>)) && post.pc
                        == pc_next(pre.pc) && post.execution_units
                        == pre.execution_units
                    &&& po1 matches Some(v1) ==> ((op == Opcode::LDAa || op == Opcode::STAa || op
                        == Opcode::ADCa || op == Opcode::LDXa || op == Opcode::LDYa || op
                        == Opcode::CPXa || op == Opcode::INCa) && po2 is None && fetch_ok
                        && spec_hazard(op, units) ==> post.ir == Some((op, Some(v1),
                        Some(m))) && post.pc == pc_next(pre.pc))
                    &&& po1 matches Some(v1) ==> ((op == Opcode::LDAa || op == Opcode::STAa || op
                        == Opcode::ADCa || op == Opcode::LDXa || op == Opcode::LDYa || op
                        == Opcode::CPXa || op == Opcode::INCa) && po2 is None && fetch_ok
                        && !spec_hazard(op, units) && fz < 2 ==> dispatched(pre,
                        post, fz, op, v1, m) && post.pc == pc_next(pre.pc))
                }
            }))
}

/// Everything one call of the fetch stage guarantees.
pub open spec fn fetch_step(pre: Cpu, pre_bus: Bus, post: Cpu, post_bus: Bus, r: Result<(), Fault>) -> bool {
    &&& (post_bus.wf())
    &&& (post.mmu.cache.wf())
    &&& (Cpu::fetch_frame(pre, post))
    &&& (pre.mmu.cache.cache_accesses <= post.mmu.cache.cache_accesses
                <= pre.mmu.cache.cache_accesses + 1)
    &&& (pre.ir is Some ==> post == pre && post_bus == pre_bus)
    &&& (flag_set(pre.nv_bdizc, BREAK_FLAG) ==> post == pre
                && post_bus == pre_bus)
    &&& (post.ir matches Some((op, o1, o2)) ==> post.ir == pre.ir || (
            o1 is None && o2 is None))
    &&& (pre.ir is None && post.ir is Some ==> {
                &&& post.ir matches Some((op, _, _)) && opcode_byte(op) == read_result_byte(
                    pre.mmu.cache, pre_bus, pre.pc)
                &&& post.pipe_mem_user == PipeMemUser::Complete
                &&& post.pc == (if pre.pc == 0xFFFF { 0u16 } else { (pre.pc
                    + 1) as u16 })
            })
    &&& (r matches Err(Fault::InvalidOpcode { addr, byte }) ==> addr == pre.pc
                && byte == read_result_byte(pre.mmu.cache, pre_bus, pre.pc)
                && !is_opcode_byte(byte))
    // fetch owes progress: with the IR slot free, no BRK pending,
    // the port available and PC's line cached, the byte at PC is
    // decoded this very tick — or rejected as fatal
    &&& (({
                let m = read_result_byte(pre.mmu.cache, pre_bus, pre.pc);
                (pre.ir is None && !flag_set(pre.nv_bdizc, BREAK_FLAG)
                    && !(pre.execution_units@[0].busy
                        && pre.execution_units@[0].ir.0 == Opcode::BRK)
                    && !(pre.execution_units@[1].busy
                        && pre.execution_units@[1].ir.0 == Opcode::BRK)
                    && (pre.pipe_mem_user == PipeMemUser::Fetch
                        || pre.pipe_mem_user == PipeMemUser::Free)
                    && pre.mmu.cache.has_tag(crate::cache::spec_tag(pre.pc))) ==> {
                    &&& is_opcode_byte(m) ==> r is Ok && post.ir is Some
                    &&& !is_opcode_byte(m) ==> r is Err
                }
            }))
    &&& (post.pipe_mem_user == pre.pipe_mem_user
                || post.pipe_mem_user == PipeMemUser::Fetch
                || post.pipe_mem_user == PipeMemUser::Complete)
}

/// Everything one interrupt poll guarantees; it never touches the bus.
pub open spec fn poll_step(pre: Cpu, post: Cpu, r: Result<(), Fault>) -> bool {
    &&& (post == (Cpu {
                interrupt_controller: post.interrupt_controller,
                output: post.output,
                ..pre
            }))
    &&& (post.interrupt_controller.io_devices
                == pre.interrupt_controller.io_devices)
    &&& (pre.output@.is_prefix_of(post.output@))
    &&& (flag_set(pre.nv_bdizc, INTERRUPT_FLAG) ==> post == pre)
    // with Interrupt-disable clear, an empty queue delivers
    // nothing and changes nothing
    &&& (!flag_set(pre.nv_bdizc, INTERRUPT_FLAG)
                && pre.interrupt_controller.priority_queue@.len() == 0 ==> post
                == pre)
    // otherwise the first event of maximal priority leaves the
    // queue; its device's output byte is emitted, and an
    // unregistered IQR is a fatal fault
    &&& (!flag_set(pre.nv_bdizc, INTERRUPT_FLAG)
                && pre.interrupt_controller.priority_queue@.len() > 0 ==> {
                let q = pre.interrupt_controller.priority_queue@;
                let k = first_max_ix(q);
                &&& is_first_max(q, k)
                &&& post.interrupt_controller.priority_queue@ == q.remove(k)
                &&& pre.interrupt_controller.has_device(q[k].iqr) ==> r is Ok
                    && post.output@ == pre.output@ + seq![
                    pre.interrupt_controller.io_devices@[
                        pre.interrupt_controller.device_ix(q[k].iqr)
                    ].out_buf,
                ]
                &&& !pre.interrupt_controller.has_device(q[k].iqr) ==> r == Err::<
                    (),
                    Fault,
                >(Fault::UnknownIqr { iqr: q[k].iqr }) && post.output == pre.output
            })
}

/// The machine after the clock edge, before the stages run.
pub open spec fn tick_started(pre: Cpu) -> Cpu {
    Cpu { cpu_clock_counter: (pre.cpu_clock_counter + 1) as u128, ..pre }
}

/// One whole CPU tick, the pipeline pass in reverse stage order: the
/// clock edge, both execute units, decode, fetch, then — only if the
/// port's user finished — the port freed and the interrupt poll. The
/// intermediate machine and bus states are existential; each leg obeys
/// its stage's full relation.
pub open spec fn cpu_tick(pre: Cpu, pre_bus: Bus, post: Cpu, post_bus: Bus) -> bool {
    exists|c1: Cpu, b1: Bus, c2: Cpu, b2: Bus, c3: Cpu, b3: Bus, c4: Cpu, b4: Bus| {
        &&& #[trigger] exec_step(tick_started(pre), pre_bus, c1, b1, 0, Ok(()))
        &&& #[trigger] exec_step(c1, b1, c2, b2, 1, Ok(()))
        &&& #[trigger] decode_step(c2, b2, c3, b3, Ok(()))
        &&& #[trigger] fetch_step(c3, b3, c4, b4, Ok(()))
        &&& post_bus == b4
        &&& if c4.pipe_mem_user == PipeMemUser::Complete {
            poll_step((Cpu { pipe_mem_user: PipeMemUser::Free, ..c4 }), post, Ok(()))
        } else {
            post == c4
        }
    }
}

/// A byte stream is a prefix of itself.
pub proof fn lemma_output_prefix_refl(a: Seq<u8>)
    ensures
        a.is_prefix_of(a),
{
    assert(a =~= a.subrange(0, a.len() as int));
}

/// Prefixes chain: what one stage appended to, a later stage extends.
pub proof fn lemma_output_prefix_trans(a: Seq<u8>, b: Seq<u8>, c: Seq<u8>)
    requires
        a.is_prefix_of(b),
        b.is_prefix_of(c),
    ensures
        a.is_prefix_of(c),
{
    assert(a =~= c.subrange(0, a.len() as int));
}

/// Whether the vector holds the given storage area.
fn contains_storage(v: &Vec<Storage>, s: Storage) -> (r: bool)
    ensures
        r == v@.contains(s),
{
    let n = v.len();
    let mut j: usize = 0;
    while j < n
        invariant
            n == v@.len(),
            j <= n,
            forall|k: int| 0 <= k < j ==> v@[k] != s,
        decreases n - j,
    {
        if v[j] == s {
            return true;
        }
        j = j + 1;
    }
    false
}

/// Whether any storage the instruction depends on may be mutated by an
/// in-flight instruction: the read-after-write / write-after-write
/// hazard test.
fn hazard_any(dep: &Vec<Storage>, affected: &Vec<Storage>) -> (r: bool)
    ensures
        r == exists|i: int| 0 <= i < dep@.len() && affected@.contains(#[trigger] dep@[i]),
{
    let n = dep.len();
    let mut j: usize = 0;
    while j < n
        invariant
            n == dep@.len(),
            j <= n,
            forall|k: int| 0 <= k < j ==> !affected@.contains(#[trigger] dep@[k]),
        decreases n - j,
    {
        if contains_storage(affected, dep[j]) {
            return true;
        }
        j = j + 1;
    }
    false
}

fn hex_digit(d: u8) -> (r: u8)
    requires
        d < 16,
    ensures
        r == spec_hex_digit(d),
{
    if d < 10 {
        0x30 + d
    } else {
        0x41 + d - 10
    }
}

} // verus!
