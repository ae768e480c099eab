//! The execution engine: a register file, a program counter and two
//! counters, which fetch, decode and execute one instruction at a time
//! against the memory bus.

use crate::alu::{
    alu_imm, alu_imm_word, alu_reg, alu_reg_word, lemma_signed64, lemma_wrapping,
    lemma_division_by_zero, lemma_wrapping_signed, op_32_result, sext32, op_imm_32_result, op_imm_result, op_result, signed64,
};
use crate::bus::{le_bytes, le_value, lemma_le_value_bound, overwrite, Bus};
use crate::instruction::{
    decoded, imm_b, imm_i, imm_i_bits, imm_j, imm_s, imm_u, lemma_fields_in_range,
    lemma_offsets_even, wrap64, Instruction,
};
use crate::opcodes::{
    CSR_CYCLE, CSR_INSTRET, CSR_TIME, F3_BEQ, F3_BGE, F3_BGEU, F3_BLT, F3_BLTU, F3_BNE, F3_CSRRC,
    F3_CSRRCI, F3_CSRRS, F3_CSRRSI, F3_CSRRW, F3_CSRRWI, F3_ECALL_EBREAK, F3_LB, F3_LBU, F3_LD,
    F3_LH, F3_LHU, F3_LW, F3_LWU, F3_SB, F3_SD, F3_SH, F3_SW, IMM_EBREAK, IMM_ECALL, OPCODE_AUIPC,
    OPCODE_BRANCH, OPCODE_JAL, OPCODE_JALR, OPCODE_LOAD, OPCODE_LUI, OPCODE_MISC_MEM, OPCODE_OP,
    OPCODE_OP_32, OPCODE_OP_IMM, OPCODE_OP_IMM_32, OPCODE_STORE, OPCODE_SYSTEM, F3_DIV, F3_DIVU,
    F3_REM, F7_MULDIV,
};
use std::time::{Duration, Instant};
use vstd::prelude::*;

verus! {

#[verifier::external_type_specification]
#[verifier::external_body]
pub struct ExInstant(Instant);

/// Relies on `Instant::now`: a reading of the monotonic clock.
pub assume_specification[ Instant::now ]() -> Instant;

/// Relies on `Instant::elapsed`: the time since `self_` was read.
pub assume_specification[ Instant::elapsed ](self_: &Instant) -> Duration;

/// Relies on `Duration::as_millis`: the whole milliseconds of a duration.
pub assume_specification[ Duration::as_millis ](self_: &Duration) -> u128;

/// Why execution stopped short of retiring an instruction.
#[derive(Debug, Clone, Copy, PartialEq, Eq, Structural)]
pub enum Trap {
    /// No rule matches the opcode, funct3 and funct7 of the instruction, or
    /// it names a control and status register that does not exist.
    UndefinedInstruction { opcode: i32, funct3: i32, funct7: i32 },
    /// An access, or the fetch, reaches past the end of memory.
    MemoryOutOfBounds { address: u64 },
}

/// A write of the low `width` bytes of `value` to memory at `address`.
#[derive(Debug, Clone, Copy, PartialEq, Eq, Structural)]
pub struct Store {
    pub address: u64,
    pub width: u64,
    pub value: u64,
}

/// What one instruction does to the machine.
#[derive(Debug, Clone, Copy, PartialEq, Eq, Structural)]
pub enum Outcome {
    /// The instruction completes: `rd` receives `rd_value` if there is one,
    /// the program counter becomes `next_pc`, and `store` is performed.
    Retire { rd_value: Option<u64>, next_pc: u64, store: Option<Store> },
    /// The instruction cannot complete; nothing changes.
    Stop(Trap),
}

/// The value read from register `i`: register 0 always reads as zero.
pub open spec fn reg(regs: Seq<u64>, i: i32) -> u64 {
    if i == 0 {
        0
    } else {
        regs[i as int]
    }
}

/// The register file after writing `value`, if any, to register `rd`;
/// writes to register 0 are discarded.
pub open spec fn write_back(regs: Seq<u64>, rd: i32, value: Option<u64>) -> Seq<u64> {
    match value {
        Some(v) => if rd == 0 {
            regs
        } else {
            regs.update(rd as int, v)
        },
        None => regs,
    }
}

/// Memory after `store`, if any.
pub open spec fn apply_store(mem: Seq<u8>, store: Option<Store>) -> Seq<u8> {
    match store {
        Some(s) => overwrite(mem, s.address as int, le_bytes(s.value as nat, s.width as nat)),
        None => mem,
    }
}

/// The width in bytes of a load, and whether it is sign-extended.
pub open spec fn load_kind(funct3: i32) -> Option<(u64, bool)> {
    if funct3 == F3_LB {
        Some((1, true))
    } else if funct3 == F3_LH {
        Some((2, true))
    } else if funct3 == F3_LW {
        Some((4, true))
    } else if funct3 == F3_LD {
        Some((8, false))
    } else if funct3 == F3_LBU {
        Some((1, false))
    } else if funct3 == F3_LHU {
        Some((2, false))
    } else if funct3 == F3_LWU {
        Some((4, false))
    } else {
        None
    }
}

/// The width in bytes of a store.
pub open spec fn store_width(funct3: i32) -> Option<u64> {
    if funct3 == F3_SB {
        Some(1)
    } else if funct3 == F3_SH {
        Some(2)
    } else if funct3 == F3_SW {
        Some(4)
    } else if funct3 == F3_SD {
        Some(8)
    } else {
        None
    }
}

/// A loaded value of `width` bytes, sign-extended to 64 bits if `signed`.
pub open spec fn extend_loaded(v: u64, width: u64, signed: bool) -> u64 {
    if !signed {
        v
    } else if width == 1 {
        if v < 0x80 {
            v
        } else {
            (v + 0xffff_ffff_ffff_ff00) as u64
        }
    } else if width == 2 {
        if v < 0x8000 {
            v
        } else {
            (v + 0xffff_ffff_ffff_0000) as u64
        }
    } else if width == 4 {
        if v < 0x8000_0000 {
            v
        } else {
            (v + 0xffff_ffff_0000_0000) as u64
        }
    } else {
        v
    }
}

/// Whether the branch that `funct3` selects is taken.
pub open spec fn branch_taken(funct3: i32, a: u64, b: u64) -> Option<bool> {
    if funct3 == F3_BEQ {
        Some(a == b)
    } else if funct3 == F3_BNE {
        Some(a != b)
    } else if funct3 == F3_BLT {
        Some(signed64(a) < signed64(b))
    } else if funct3 == F3_BGE {
        Some(signed64(a) >= signed64(b))
    } else if funct3 == F3_BLTU {
        Some(a < b)
    } else if funct3 == F3_BGEU {
        Some(a >= b)
    } else {
        None
    }
}

/// Whether `funct3` of the system opcode names a CSR instruction.
pub open spec fn is_csr_op(funct3: i32) -> bool {
    funct3 == F3_CSRRW || funct3 == F3_CSRRS || funct3 == F3_CSRRC || funct3 == F3_CSRRWI
        || funct3 == F3_CSRRSI || funct3 == F3_CSRRCI
}

/// The value of control and status register `id`, where it exists.
pub open spec fn csr_value(id: u64, cycles: u64, instret: u64, time: u64) -> Option<u64> {
    if id == CSR_CYCLE {
        Some(cycles)
    } else if id == CSR_INSTRET {
        Some(instret)
    } else if id == CSR_TIME {
        Some(time)
    } else {
        None
    }
}

/// Whether executing `ins` reads the `time` register, and so the clock.
pub open spec fn reads_clock(ins: Instruction) -> bool {
    ins.opcode == OPCODE_SYSTEM && is_csr_op(ins.funct3) && imm_i_bits(ins.raw as u32) == CSR_TIME
}

/// The instruction completes without a store.
pub open spec fn retire(rd_value: Option<u64>, next_pc: u64) -> Outcome {
    Outcome::Retire { rd_value, next_pc, store: None }
}

/// The instruction matches no rule.
pub open spec fn undefined(ins: Instruction) -> Outcome {
    Outcome::Stop(
        Trap::UndefinedInstruction { opcode: ins.opcode, funct3: ins.funct3, funct7: ins.funct7 },
    )
}

/// Completes writing `value` where an operation was selected, else is
/// undefined.
pub open spec fn write_or_undefined(value: Option<u64>, ins: Instruction, next_pc: u64) -> Outcome {
    match value {
        Some(v) => retire(Some(v), next_pc),
        None => undefined(ins),
    }
}

/// What `ins` does on `cpu` with memory `mem`, where the `time` register
/// reads `time`.
pub open spec fn outcome_of(cpu: Cpu, ins: Instruction, mem: Seq<u8>, time: u64) -> Outcome {
    let a = reg(cpu.registers@, ins.rs1);
    let b = reg(cpu.registers@, ins.rs2);
    let pc = cpu.pc;
    let next = wrap64(pc + ins.size);
    let op = ins.opcode;
    if op == OPCODE_OP_IMM {
        write_or_undefined(op_imm_result(ins, a), ins, next)
    } else if op == OPCODE_OP_IMM_32 {
        write_or_undefined(op_imm_32_result(ins, a), ins, next)
    } else if op == OPCODE_LUI {
        retire(Some(wrap64(imm_u(ins.raw))), next)
    } else if op == OPCODE_AUIPC {
        retire(Some(wrap64(pc + imm_u(ins.raw))), next)
    } else if op == OPCODE_OP {
        write_or_undefined(op_result(ins.funct3, ins.funct7, a, b), ins, next)
    } else if op == OPCODE_OP_32 {
        write_or_undefined(op_32_result(ins.funct3, ins.funct7, a, b), ins, next)
    } else if op == OPCODE_JAL {
        retire(Some(next), wrap64(pc + imm_j(ins.raw)))
    } else if op == OPCODE_JALR {
        retire(Some(next), wrap64(a + imm_i(ins.raw)) & 0xffff_ffff_ffff_fffe)
    } else if op == OPCODE_BRANCH {
        match branch_taken(ins.funct3, a, b) {
            Some(taken) => retire(None, if taken { wrap64(pc + imm_b(ins.raw)) } else { next }),
            None => undefined(ins),
        }
    } else if op == OPCODE_LOAD {
        match load_kind(ins.funct3) {
            Some((width, signed)) => {
                let addr = wrap64(a + imm_i(ins.raw));
                if addr + width <= mem.len() {
                    let v = le_value(mem.subrange(addr as int, addr + width)) as u64;
                    retire(Some(extend_loaded(v, width, signed)), next)
                } else {
                    Outcome::Stop(Trap::MemoryOutOfBounds { address: addr })
                }
            },
            None => undefined(ins),
        }
    } else if op == OPCODE_STORE {
        match store_width(ins.funct3) {
            Some(width) => {
                let addr = wrap64(a + imm_s(ins.raw));
                if addr + width <= mem.len() {
                    Outcome::Retire {
                        rd_value: None,
                        next_pc: next,
                        store: Some(Store { address: addr, width, value: b }),
                    }
                } else {
                    Outcome::Stop(Trap::MemoryOutOfBounds { address: addr })
                }
            },
            None => undefined(ins),
        }
    } else if op == OPCODE_MISC_MEM {
        retire(None, next)
    } else if op == OPCODE_SYSTEM {
        if is_csr_op(ins.funct3) {
            match csr_value(
                imm_i_bits(ins.raw as u32) as u64,
                cpu.cycles,
                cpu.instructions_retired,
                time,
            ) {
                Some(v) => retire(Some(v), next),
                None => undefined(ins),
            }
        } else if ins.funct3 == F3_ECALL_EBREAK && ins.funct7 == 0 && (ins.rs2 == IMM_ECALL
            || ins.rs2 == IMM_EBREAK) {
            retire(None, next)
        } else {
            undefined(ins)
        }
    } else {
        undefined(ins)
    }
}

/// How the machine moves from `before` to `after`, with memory going from
/// `mem` to `mem_after`, when it executes `ins` and the `time` register
/// reads `time`; `r` is what the execution returns.
pub open spec fn executed(
    before: Cpu,
    after: Cpu,
    mem: Seq<u8>,
    mem_after: Seq<u8>,
    ins: Instruction,
    time: u64,
    r: Result<(), Trap>,
) -> bool {
    match outcome_of(before, ins, mem, time) {
        Outcome::Retire { rd_value, next_pc, store } => {
            &&& r == Ok::<(), Trap>(())
            &&& after.registers@ == write_back(before.registers@, ins.rd, rd_value)
            &&& after.pc == next_pc
            &&& after.cycles == wrap64(before.cycles + 1)
            &&& after.instructions_retired == wrap64(before.instructions_retired + 1)
            &&& after.machine == before.machine
            &&& mem_after == apply_store(mem, store)
        },
        Outcome::Stop(t) => r == Err::<(), Trap>(t) && after == before && mem_after == mem,
    }
}

/// The instruction that `pc` points at in `mem`, or the trap that fetching
/// it raises.
pub open spec fn fetched(pc: u64, mem: Seq<u8>) -> Result<Instruction, Trap> {
    if pc + 4 <= mem.len() {
        Ok(decoded((le_value(mem.subrange(pc as int, pc + 4)) as u64) as i32))
    } else {
        Err(Trap::MemoryOutOfBounds { address: pc })
    }
}

/// Register 0 cannot be changed: an instruction that names it as its
/// destination leaves the whole register file as it was, and register 0
/// still reads as zero.
pub proof fn lemma_register_zero_immutable(
    before: Cpu,
    after: Cpu,
    mem: Seq<u8>,
    mem_after: Seq<u8>,
    ins: Instruction,
    time: u64,
    r: Result<(), Trap>,
)
    requires
        executed(before, after, mem, mem_after, ins, time, r),
        ins.rd == 0,
    ensures
        after.registers@ == before.registers@,
        reg(after.registers@, 0) == 0,
{
}

/// A branch that is not taken moves the program counter on by the size of
/// the instruction, four bytes; a taken branch adds the B-type immediate,
/// which is even. Branches write no register and no memory.
pub proof fn lemma_branch_targets(cpu: Cpu, ins: Instruction, mem: Seq<u8>, time: u64)
    requires
        ins.wf(),
        ins.opcode == OPCODE_BRANCH,
        branch_taken(ins.funct3, reg(cpu.registers@, ins.rs1), reg(cpu.registers@, ins.rs2))
            is Some,
    ensures
        imm_b(ins.raw) % 2 == 0,
        outcome_of(cpu, ins, mem, time) == retire(
            None,
            if branch_taken(
                ins.funct3,
                reg(cpu.registers@, ins.rs1),
                reg(cpu.registers@, ins.rs2),
            )->Some_0 {
                wrap64(cpu.pc + imm_b(ins.raw))
            } else {
                wrap64(cpu.pc + 4)
            },
        ),
{
    lemma_fields_in_range(ins);
    lemma_offsets_even(ins.raw);
}

/// Executing a divide or remainder whose divisor register reads zero does
/// not trap: the destination receives all ones for a quotient and the
/// dividend for a remainder (its low word sign-extended in the word forms),
/// and the program counter moves on by four bytes.
pub proof fn lemma_divide_by_zero_executes(cpu: Cpu, ins: Instruction, mem: Seq<u8>, time: u64)
    requires
        ins.wf(),
        ins.opcode == OPCODE_OP || ins.opcode == OPCODE_OP_32,
        ins.funct7 == F7_MULDIV,
        4 <= ins.funct3 < 8,
        reg(cpu.registers@, ins.rs2) == 0,
    ensures
        outcome_of(cpu, ins, mem, time) == retire(
            Some(
                if ins.funct3 == F3_DIV || ins.funct3 == F3_DIVU {
                    u64::MAX
                } else if ins.opcode == OPCODE_OP {
                    reg(cpu.registers@, ins.rs1)
                } else {
                    sext32(reg(cpu.registers@, ins.rs1) as int)
                },
            ),
            wrap64(cpu.pc + 4),
        ),
{
    lemma_fields_in_range(ins);
    lemma_division_by_zero(reg(cpu.registers@, ins.rs1), 0);
}

/// Dividing the most negative 64-bit value by -1 does not trap: the
/// quotient is the dividend and the remainder zero.
pub proof fn lemma_signed_overflow_executes(cpu: Cpu, ins: Instruction, mem: Seq<u8>, time: u64)
    requires
        ins.wf(),
        ins.opcode == OPCODE_OP,
        ins.funct7 == F7_MULDIV,
        ins.funct3 == F3_DIV || ins.funct3 == F3_REM,
        reg(cpu.registers@, ins.rs1) == 0x8000_0000_0000_0000,
        reg(cpu.registers@, ins.rs2) == u64::MAX,
    ensures
        outcome_of(cpu, ins, mem, time) == retire(
            Some(if ins.funct3 == F3_DIV { 0x8000_0000_0000_0000 } else { 0 }),
            wrap64(cpu.pc + 4),
        ),
{
    lemma_fields_in_range(ins);
}

/// An instruction whose opcode is none of the defined ones is undefined:
/// executing it traps and changes nothing, whatever its other fields hold.
pub proof fn lemma_unknown_opcode_traps(cpu: Cpu, ins: Instruction, mem: Seq<u8>, time: u64)
    requires
        ins.opcode != OPCODE_OP_IMM && ins.opcode != OPCODE_OP_IMM_32 && ins.opcode != OPCODE_LUI
            && ins.opcode != OPCODE_AUIPC && ins.opcode != OPCODE_OP && ins.opcode != OPCODE_OP_32
            && ins.opcode != OPCODE_JAL && ins.opcode != OPCODE_JALR && ins.opcode
            != OPCODE_BRANCH && ins.opcode != OPCODE_LOAD && ins.opcode != OPCODE_STORE
            && ins.opcode != OPCODE_MISC_MEM && ins.opcode != OPCODE_SYSTEM,
    ensures
        outcome_of(cpu, ins, mem, time) == undefined(ins),
        forall|after: Cpu, mem_after: Seq<u8>, r: Result<(), Trap>|
            #[trigger] executed(cpu, after, mem, mem_after, ins, time, r) ==> after == cpu
                && mem_after == mem && r == Err::<(), Trap>(
                Trap::UndefinedInstruction {
                    opcode: ins.opcode,
                    funct3: ins.funct3,
                    funct7: ins.funct7,
                },
            ),
{
}

/// Whether the next step of `cpu` on memory `mem` raises `t`: fetching
/// raises it, or the fetched instruction does for some reading of the
/// clock.
pub open spec fn step_traps(cpu: Cpu, mem: Seq<u8>, t: Trap) -> bool {
    match fetched(cpu.pc, mem) {
        Err(e) => e == t,
        Ok(ins) => exists|time: u64| #[trigger] outcome_of(cpu, ins, mem, time) == Outcome::Stop(t),
    }
}

/// Whether one step takes `cpu` with memory `mem` to `after` with memory
/// `mem_after` without a trap: the instruction at the program counter is
/// fetched and executed for some reading of the clock.
#[verifier::opaque]
pub open spec fn steps_to(cpu: Cpu, mem: Seq<u8>, after: Cpu, mem_after: Seq<u8>) -> bool {
    match fetched(cpu.pc, mem) {
        Ok(ins) => exists|time: u64|
            #[trigger] executed(cpu, after, mem, mem_after, ins, time, Ok::<(), Trap>(())),
        Err(_) => false,
    }
}

/// Whether `trace` is a run of the machine: a sequence of states, each
/// with its memory, in which every state is reached from the one before by
/// one step that does not trap.
pub open spec fn is_run(trace: Seq<(Cpu, Seq<u8>)>) -> bool {
    &&& trace.len() >= 1
    &&& forall|i: int|
        0 <= i < trace.len() - 1 ==> steps_to(
            #[trigger] trace[i].0,
            trace[i].1,
            trace[i + 1].0,
            trace[i + 1].1,
        )
}

/// The context that a simulated machine runs in: the moment it started,
/// which the `time` register counts from.
#[derive(Debug)]
pub struct Machine {
    pub start: Instant,
}

impl Machine {
    /// A machine that starts now.
    pub fn new() -> Machine {
        Machine { start: Instant::now() }
    }

    /// Whole milliseconds since the machine started.
    pub fn elapsed_millis(&self) -> u64 {
        self.start.elapsed().as_millis() as u64
    }
}

/// One hart: 32 registers, of which register 0 reads as zero, a program
/// counter, and the cycle and retired-instruction counters.
#[derive(Debug)]
pub struct Cpu<'a> {
    pub machine: &'a Machine,
    pub registers: [u64; 32],
    pub pc: u64,
    pub cycles: u64,
    pub instructions_retired: u64,
}

fn load_access(funct3: i32) -> (r: Option<(u64, bool)>)
    ensures
        r == load_kind(funct3),
{
    if funct3 == F3_LB {
        Some((1, true))
    } else if funct3 == F3_LH {
        Some((2, true))
    } else if funct3 == F3_LW {
        Some((4, true))
    } else if funct3 == F3_LD {
        Some((8, false))
    } else if funct3 == F3_LBU {
        Some((1, false))
    } else if funct3 == F3_LHU {
        Some((2, false))
    } else if funct3 == F3_LWU {
        Some((4, false))
    } else {
        None
    }
}

fn store_access(funct3: i32) -> (r: Option<u64>)
    ensures
        r == store_width(funct3),
{
    if funct3 == F3_SB {
        Some(1)
    } else if funct3 == F3_SH {
        Some(2)
    } else if funct3 == F3_SW {
        Some(4)
    } else if funct3 == F3_SD {
        Some(8)
    } else {
        None
    }
}

fn branch_decision(funct3: i32, a: u64, b: u64) -> (r: Option<bool>)
    ensures
        r == branch_taken(funct3, a, b),
{
    proof {
        lemma_signed64(a);
        lemma_signed64(b);
    }
    if funct3 == F3_BEQ {
        Some(a == b)
    } else if funct3 == F3_BNE {
        Some(a != b)
    } else if funct3 == F3_BLT {
        Some((a as i64) < (b as i64))
    } else if funct3 == F3_BGE {
        Some((a as i64) >= (b as i64))
    } else if funct3 == F3_BLTU {
        Some(a < b)
    } else if funct3 == F3_BGEU {
        Some(a >= b)
    } else {
        None
    }
}

fn csr_instruction(funct3: i32) -> (r: bool)
    ensures
        r == is_csr_op(funct3),
{
    funct3 == F3_CSRRW || funct3 == F3_CSRRS || funct3 == F3_CSRRC || funct3 == F3_CSRRWI
        || funct3 == F3_CSRRSI || funct3 == F3_CSRRCI
}

/// Whether executing `ins` reads the clock.
pub fn needs_clock(ins: &Instruction) -> (r: bool)
    ensures
        r == reads_clock(*ins),
{
    ins.opcode == OPCODE_SYSTEM && csr_instruction(ins.funct3) && ins.csr() == CSR_TIME
}

/// `v`, `width` bytes wide, sign-extended if `signed`.
fn extend_load(v: u64, width: u64, signed: bool) -> (r: u64)
    requires
        width == 1 ==> v < 0x100,
        width == 2 ==> v < 0x1_0000,
        width == 4 ==> v < 0x1_0000_0000,
    ensures
        r == extend_loaded(v, width, signed),
{
    if !signed {
        v
    } else if width == 1 {
        proof {
            assert(v < 0x100 ==> v as u8 as i8 as u64 == extend_loaded(v, 1, true)) by (bit_vector);
        }
        v as u8 as i8 as u64
    } else if width == 2 {
        proof {
            assert(v < 0x1_0000 ==> v as u16 as i16 as u64 == extend_loaded(v, 2, true))
                by (bit_vector);
        }
        v as u16 as i16 as u64
    } else if width == 4 {
        proof {
            assert(v < 0x1_0000_0000 ==> v as u32 as i32 as u64 == extend_loaded(v, 4, true))
                by (bit_vector);
        }
        v as u32 as i32 as u64
    } else {
        v
    }
}

/// Whether `width` bytes at `addr` lie inside the bus's memory.
fn fits(bus: &Bus, addr: u64, width: u64) -> (r: bool)
    ensures
        r == (addr + width <= bus.memory@.len()),
{
    let len = bus.memory.len() as u64;
    addr <= len && width <= len - addr
}

impl<'a> Cpu<'a> {
    /// A hart of `machine` with every register, the program counter and
    /// both counters at zero.
    pub fn new(machine: &'a Machine) -> (r: Cpu<'a>)
        ensures
            r.machine == machine,
            r.registers@ == Seq::new(32, |i: int| 0u64),
            r.pc == 0,
            r.cycles == 0,
            r.instructions_retired == 0,
    {
        let r = Cpu { registers: [0;32], pc: 0, cycles: 0, instructions_retired: 0, machine };
        proof {
            assert(r.registers@ =~= Seq::new(32, |i: int| 0u64));
        }
        r
    }

    /// The value of register `index`; register 0 reads as zero.
    pub fn read_register(&self, index: i32) -> (r: u64)
        requires
            0 <= index < 32,
        ensures
            r == reg(self.registers@, index),
    {
        if index == 0 {
            0
        } else {
            self.registers[index as usize]
        }
    }

    /// Writes `value` to register `index`; a write to register 0 is
    /// discarded.
    pub fn write_register(&mut self, index: i32, value: u64)
        requires
            0 <= index < 32,
        ensures
            final(self).registers@ == write_back(old(self).registers@, index, Some(value)),
            final(self).pc == old(self).pc,
            final(self).cycles == old(self).cycles,
            final(self).instructions_retired == old(self).instructions_retired,
            final(self).machine == old(self).machine,
    {
        if index > 0 {
            self.registers[index as usize] = value;
        }
    }

    /// The value of control and status register `id`, where `time` is what
    /// the `time` register reads; `None` where no such register exists.
    pub fn read_control_register(&self, id: u64, time: u64) -> (r: Option<u64>)
        ensures
            r == csr_value(id, self.cycles, self.instructions_retired, time),
    {
        if id == CSR_CYCLE {
            Some(self.cycles)
        } else if id == CSR_INSTRET {
            Some(self.instructions_retired)
        } else if id == CSR_TIME {
            Some(time)
        } else {
            None
        }
    }

    /// Asks to write `value` to control and status register `id`. The
    /// registers that exist count cycles, time and instructions: none of
    /// them takes a write, so this reports `false` and changes nothing.
    pub fn write_control_register(&self, id: u64, value: u64) -> (r: bool)
        ensures
            !r,
    {
        false
    }

    /// A CSR instruction on register `id`: reads its old value, then
    /// writes back the value that `funct3` makes of it and `operand`
    /// (replace, set bits or clear bits). `None` where the register does
    /// not exist.
    pub fn csr_operation(&self, id: u64, time: u64, funct3: i32, operand: u64) -> (r: Option<u64>)
        ensures
            r == csr_value(id, self.cycles, self.instructions_retired, time),
    {
        match self.read_control_register(id, time) {
            Some(old_value) => {
                let new_value = if funct3 == F3_CSRRW || funct3 == F3_CSRRWI {
                    operand
                } else if funct3 == F3_CSRRS || funct3 == F3_CSRRSI {
                    old_value | operand
                } else {
                    old_value & !operand
                };
                self.write_control_register(id, new_value);
                Some(old_value)
            },
            None => None,
        }
    }

    /// The trap for an instruction that no rule matches.
    pub fn undefined_instruction(&self, instruction: &Instruction) -> (r: Trap)
        ensures
            Outcome::Stop(r) == undefined(*instruction),
    {
        Trap::UndefinedInstruction {
            opcode: instruction.opcode,
            funct3: instruction.funct3,
            funct7: instruction.funct7,
        }
    }

    fn write_or_undefined(&self, value: Option<u64>, ins: &Instruction, next_pc: u64) -> (r: Outcome)
        ensures
            r == write_or_undefined(value, *ins, next_pc),
    {
        match value {
            Some(v) => Outcome::Retire { rd_value: Some(v), next_pc, store: None },
            None => Outcome::Stop(self.undefined_instruction(ins)),
        }
    }

    /// What `ins` does, where the `time` register reads `time`. Nothing is
    /// changed: the result says what to change.
    pub fn outcome(&self, ins: &Instruction, bus: &Bus, time: u64) -> (r: Outcome)
        requires
            ins.wf(),
        ensures
            r == outcome_of(*self, *ins, bus.memory@, time),
    {
        proof {
            lemma_fields_in_range(*ins);
        }
        let a = self.read_register(ins.rs1);
        let b = self.read_register(ins.rs2);
        let pc = self.pc;
        let next = pc.wrapping_add(ins.size);
        proof {
            lemma_wrapping(pc, ins.size);
        }
        let op = ins.opcode;
        if op == OPCODE_OP_IMM {
            self.write_or_undefined(alu_imm(ins, a), ins, next)
        } else if op == OPCODE_OP_IMM_32 {
            self.write_or_undefined(alu_imm_word(ins, a), ins, next)
        } else if op == OPCODE_LUI {
            Outcome::Retire { rd_value: Some(ins.immediate_u_unsigned()), next_pc: next, store: None }
        } else if op == OPCODE_AUIPC {
            let u = ins.immediate_u();
            proof {
                lemma_wrapping_signed(pc, u);
            }
            Outcome::Retire { rd_value: Some(pc.wrapping_add_signed(u)), next_pc: next, store: None }
        } else if op == OPCODE_OP {
            self.write_or_undefined(alu_reg(ins.funct3, ins.funct7, a, b), ins, next)
        } else if op == OPCODE_OP_32 {
            self.write_or_undefined(alu_reg_word(ins.funct3, ins.funct7, a, b), ins, next)
        } else if op == OPCODE_JAL {
            let j = ins.immediate_j();
            proof {
                lemma_wrapping_signed(pc, j);
            }
            Outcome::Retire { rd_value: Some(next), next_pc: pc.wrapping_add_signed(j), store: None }
        } else if op == OPCODE_JALR {
            let i = ins.immediate_i();
            proof {
                lemma_wrapping_signed(a, i);
            }
            let target = a.wrapping_add_signed(i) & 0xffff_ffff_ffff_fffe;
            Outcome::Retire { rd_value: Some(next), next_pc: target, store: None }
        } else if op == OPCODE_BRANCH {
            match branch_decision(ins.funct3, a, b) {
                Some(taken) => {
                    let offset = ins.immediate_b();
                    proof {
                        lemma_wrapping_signed(pc, offset);
                    }
                    let target = if taken { pc.wrapping_add_signed(offset) } else { next };
                    Outcome::Retire { rd_value: None, next_pc: target, store: None }
                },
                None => Outcome::Stop(self.undefined_instruction(ins)),
            }
        } else if op == OPCODE_LOAD {
            match load_access(ins.funct3) {
                Some((width, signed)) => {
                    let i = ins.immediate_i();
                    proof {
                        lemma_wrapping_signed(a, i);
                    }
                    let addr = a.wrapping_add_signed(i);
                    if fits(bus, addr, width) {
                        let v = if width == 1 {
                            bus.load8(addr)
                        } else if width == 2 {
                            bus.load16(addr)
                        } else if width == 4 {
                            bus.load32(addr)
                        } else {
                            bus.load64(addr)
                        };
                        proof {
                            let bytes = bus.memory@.subrange(addr as int, addr + width);
                            lemma_le_value_bound(bytes);
                            vstd::arithmetic::power2::lemma2_to64();
                        }
                        Outcome::Retire {
                            rd_value: Some(extend_load(v, width, signed)),
                            next_pc: next,
                            store: None,
                        }
                    } else {
                        Outcome::Stop(Trap::MemoryOutOfBounds { address: addr })
                    }
                },
                None => Outcome::Stop(self.undefined_instruction(ins)),
            }
        } else if op == OPCODE_STORE {
            match store_access(ins.funct3) {
                Some(width) => {
                    let s = ins.immediate_s();
                    proof {
                        lemma_wrapping_signed(a, s);
                    }
                    let addr = a.wrapping_add_signed(s);
                    if fits(bus, addr, width) {
                        Outcome::Retire {
                            rd_value: None,
                            next_pc: next,
                            store: Some(Store { address: addr, width, value: b }),
                        }
                    } else {
                        Outcome::Stop(Trap::MemoryOutOfBounds { address: addr })
                    }
                },
                None => Outcome::Stop(self.undefined_instruction(ins)),
            }
        } else if op == OPCODE_MISC_MEM {
            Outcome::Retire { rd_value: None, next_pc: next, store: None }
        } else if op == OPCODE_SYSTEM {
            if csr_instruction(ins.funct3) {
                let operand = if ins.funct3 == F3_CSRRWI || ins.funct3 == F3_CSRRSI || ins.funct3
                    == F3_CSRRCI {
                    ins.rs1 as u64
                } else {
                    a
                };
                match self.csr_operation(ins.csr(), time, ins.funct3, operand) {
                    Some(v) => Outcome::Retire { rd_value: Some(v), next_pc: next, store: None },
                    None => Outcome::Stop(self.undefined_instruction(ins)),
                }
            } else if ins.funct3 == F3_ECALL_EBREAK && ins.funct7 == 0 && (ins.rs2 == IMM_ECALL
                || ins.rs2 == IMM_EBREAK) {
                Outcome::Retire { rd_value: None, next_pc: next, store: None }
            } else {
                Outcome::Stop(self.undefined_instruction(ins))
            }
        } else {
            Outcome::Stop(self.undefined_instruction(ins))
        }
    }

    /// Executes `instruction`, where the `time` register reads `time`: on
    /// success writes back at most one register, moves the program counter
    /// and counts one cycle and one retired instruction; on a trap changes
    /// nothing.
    pub fn execute_with_clock(&mut self, instruction: &Instruction, bus: &mut Bus, time: u64) -> (r:
        Result<(), Trap>)
        requires
            instruction.wf(),
        ensures
            executed(
                *old(self),
                *final(self),
                old(bus).memory@,
                final(bus).memory@,
                *instruction,
                time,
                r,
            ),
    {
        proof {
            lemma_fields_in_range(*instruction);
        }
        match self.outcome(instruction, bus, time) {
            Outcome::Retire { rd_value, next_pc, store } => {
                match store {
                    Some(s) => {
                        if s.width == 1 {
                            bus.store8(s.address, s.value);
                        } else if s.width == 2 {
                            bus.store16(s.address, s.value);
                        } else if s.width == 4 {
                            bus.store32(s.address, s.value);
                        } else {
                            bus.store64(s.address, s.value);
                        }
                    },
                    None => {},
                }
                match rd_value {
                    Some(v) => self.write_register(instruction.rd, v),
                    None => {},
                }
                proof {
                    lemma_wrapping(self.cycles, 1);
                    lemma_wrapping(self.instructions_retired, 1);
                }
                self.pc = next_pc;
                self.cycles = self.cycles.wrapping_add(1);
                self.instructions_retired = self.instructions_retired.wrapping_add(1);
                Ok(())
            },
            Outcome::Stop(t) => Err(t),
        }
    }

    /// Executes `instruction`, reading the machine's clock only where the
    /// instruction reads the `time` register.
    pub fn execute(&mut self, instruction: &Instruction, bus: &mut Bus) -> (r: Result<(), Trap>)
        requires
            instruction.wf(),
        ensures
            !reads_clock(*instruction) ==> executed(
                *old(self),
                *final(self),
                old(bus).memory@,
                final(bus).memory@,
                *instruction,
                0,
                r,
            ),
            exists|time: u64|
                executed(
                    *old(self),
                    *final(self),
                    old(bus).memory@,
                    final(bus).memory@,
                    *instruction,
                    time,
                    r,
                ),
    {
        let time = if needs_clock(instruction) {
            self.machine.elapsed_millis()
        } else {
            0
        };
        self.execute_with_clock(instruction, bus, time)
    }

    /// Reads and decodes the instruction word at the program counter.
    pub fn fetch(&self, bus: &Bus) -> (r: Result<Instruction, Trap>)
        ensures
            r == fetched(self.pc, bus.memory@),
            r is Ok ==> r->Ok_0.wf(),
    {
        if fits(bus, self.pc, 4) {
            let data = bus.load32(self.pc) as i32;
            Ok(Instruction::decode(data))
        } else {
            Err(Trap::MemoryOutOfBounds { address: self.pc })
        }
    }

    /// One fetch-decode-execute cycle.
    pub fn step(&mut self, bus: &mut Bus) -> (r: Result<(), Trap>)
        ensures
            match fetched(old(self).pc, old(bus).memory@) {
                Ok(ins) => {
                    &&& !reads_clock(ins) ==> executed(
                        *old(self),
                        *final(self),
                        old(bus).memory@,
                        final(bus).memory@,
                        ins,
                        0,
                        r,
                    )
                    &&& exists|time: u64|
                        executed(
                            *old(self),
                            *final(self),
                            old(bus).memory@,
                            final(bus).memory@,
                            ins,
                            time,
                            r,
                        )
                },
                Err(t) => r == Err::<(), Trap>(t) && *final(self) == *old(self) && final(bus).memory@
                    == old(bus).memory@,
            },

    {
        match self.fetch(bus) {
            Ok(instruction) => self.execute(&instruction, bus),
            Err(t) => Err(t),
        }
    }

    /// One step, described by what a run of steps needs.
    fn advance(&mut self, bus: &mut Bus) -> (r: Result<(), Trap>)
        ensures
            r is Ok ==> steps_to(*old(self), old(bus).memory@, *final(self), final(bus).memory@),
            r is Ok ==> final(self).cycles == wrap64(old(self).cycles + 1),
            r matches Err(t) ==> step_traps(*final(self), final(bus).memory@, t),
            r is Err ==> *final(self) == *old(self) && final(bus).memory@ == old(bus).memory@,
            final(self).machine == old(self).machine,
    {
        let r = self.step(bus);
        proof {
            reveal(steps_to);
        }
        r
    }

    /// Steps until an instruction traps, and returns that trap; the machine
    /// is left as it was before that instruction. The cycle counter bounds
    /// the run: it stops with `Ok` once the counter reads its largest value.
    pub fn work(&mut self, bus: &mut Bus) -> (r: Result<(), Trap>)
        ensures
            r is Ok ==> final(self).cycles == u64::MAX,
            r matches Err(t) ==> step_traps(*final(self), final(bus).memory@, t),
            exists|trace: Seq<(Cpu, Seq<u8>)>|
                {
                    &&& is_run(trace)
                    &&& trace[0] == (*old(self), old(bus).memory@)
                    &&& #[trigger] trace.last() == (*final(self), final(bus).memory@)
                },
            final(self).machine == old(self).machine,
    {
        let ghost mut trace = seq![(*self, bus.memory@)];
        while self.cycles < u64::MAX
            invariant
                self.machine == old(self).machine,
                is_run(trace),
                trace[0] == (*old(self), old(bus).memory@),
                trace.last() == (*self, bus.memory@),
            decreases u64::MAX - self.cycles,
        {
            let before = self.cycles;
            match self.advance(bus) {
                Ok(()) => {},
                Err(t) => {
                    return Err(t);
                },
            }
            proof {
                let longer = trace.push((*self, bus.memory@));
                assert forall|i: int| 0 <= i < longer.len() - 1 implies steps_to(
                    #[trigger] longer[i].0,
                    longer[i].1,
                    longer[i + 1].0,
                    longer[i + 1].1,
                ) by {
                    if i < trace.len() - 1 {
                        assert(longer[i] == trace[i] && longer[i + 1] == trace[i + 1]);
                    }
                }
                trace = longer;
            }
            assert(self.cycles == before + 1);
        }
        Ok(())
    }
}

} // verus!
