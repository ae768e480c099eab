use rvsim::bus::Bus;
use rvsim::instruction::Instruction;
use rvsim::machine::{Cpu, Machine, Trap};

fn r_type(funct7: u32, rs2: u32, rs1: u32, funct3: u32, rd: u32, opcode: u32) -> u32 {
    funct7 << 25 | rs2 << 20 | rs1 << 15 | funct3 << 12 | rd << 7 | opcode
}

fn i_type(imm: i32, rs1: u32, funct3: u32, rd: u32, opcode: u32) -> u32 {
    ((imm as u32) & 0xfff) << 20 | rs1 << 15 | funct3 << 12 | rd << 7 | opcode
}

fn s_type(imm: i32, rs2: u32, rs1: u32, funct3: u32, opcode: u32) -> u32 {
    let imm = (imm as u32) & 0xfff;
    (imm >> 5) << 25 | rs2 << 20 | rs1 << 15 | funct3 << 12 | (imm & 0x1f) << 7 | opcode
}

fn b_type(imm: i32, rs2: u32, rs1: u32, funct3: u32) -> u32 {
    let imm = (imm as u32) & 0x1fff;
    ((imm >> 12) & 1) << 31
        | ((imm >> 5) & 0x3f) << 25
        | rs2 << 20
        | rs1 << 15
        | funct3 << 12
        | ((imm >> 1) & 0xf) << 8
        | ((imm >> 11) & 1) << 7
        | 0x63
}

const OP: u32 = 0x33;
const OP_32: u32 = 0x3b;
const OP_IMM: u32 = 0x13;
const OP_IMM_32: u32 = 0x1b;
const LOAD: u32 = 0x03;
const STORE: u32 = 0x23;
const SYSTEM: u32 = 0x73;

fn load_program(bus: &mut Bus, words: &[u32]) {
    for (k, w) in words.iter().enumerate() {
        bus.store32(4 * k as u64, *w as u64);
    }
}

/// Runs one register-register instruction on `a` and `b` and returns rd.
fn run_op(opcode: u32, funct7: u32, funct3: u32, a: u64, b: u64) -> u64 {
    let machine = Machine::new();
    let mut bus = Bus::new(64);
    let mut cpu = Cpu::new(&machine);
    load_program(&mut bus, &[r_type(funct7, 2, 1, funct3, 3, opcode)]);
    cpu.registers[1] = a;
    cpu.registers[2] = b;
    assert_eq!(cpu.step(&mut bus), Ok(()));
    assert_eq!(cpu.pc, 4);
    cpu.registers[3]
}

#[test]
fn store_words_then_load_them_back() {
    let machine = Machine::new();
    let mut bus = Bus::new(0x200);
    let mut cpu = Cpu::new(&machine);
    load_program(
        &mut bus,
        &[
            s_type(0x100, 1, 0, 2, STORE),
            s_type(0x104, 2, 0, 2, STORE),
            s_type(0x108, 3, 0, 2, STORE),
            i_type(0x100, 0, 2, 4, LOAD),
            i_type(0x104, 0, 2, 5, LOAD),
            i_type(0x108, 0, 2, 6, LOAD),
        ],
    );
    cpu.registers[1] = 2;
    cpu.registers[2] = 10;
    cpu.registers[3] = 18;
    for _ in 0..6 {
        assert_eq!(cpu.step(&mut bus), Ok(()));
    }
    assert_eq!(cpu.registers[4], 2);
    assert_eq!(cpu.registers[5], 10);
    assert_eq!(cpu.registers[6], 18);
    assert_eq!(bus.load32(0x104), 10);
    assert_eq!(cpu.pc, 24);
    assert_eq!(cpu.cycles, 6);
    assert_eq!(cpu.instructions_retired, 6);
}

#[test]
fn add_writes_sum_and_wraps() {
    assert_eq!(run_op(OP, 0, 0, 2, 10), 12);
    assert_eq!(run_op(OP, 0, 0, u64::MAX, 1), 0);
}

#[test]
fn undefined_instruction_traps_without_effect() {
    let machine = Machine::new();
    let mut bus = Bus::new(64);
    let mut cpu = Cpu::new(&machine);
    load_program(&mut bus, &[r_type(5, 2, 1, 1, 3, OP)]);
    cpu.registers[3] = 7;
    assert_eq!(
        cpu.step(&mut bus),
        Err(Trap::UndefinedInstruction { opcode: 0x33, funct3: 1, funct7: 5 })
    );
    assert_eq!(cpu.pc, 0);
    assert_eq!(cpu.registers[3], 7);
    assert_eq!(cpu.cycles, 0);
    assert_eq!(cpu.instructions_retired, 0);
}

#[test]
fn zero_word_is_undefined() {
    let machine = Machine::new();
    let mut bus = Bus::new(16);
    let mut cpu = Cpu::new(&machine);
    assert_eq!(
        cpu.work(&mut bus),
        Err(Trap::UndefinedInstruction { opcode: 0, funct3: 0, funct7: 0 })
    );
}

#[test]
fn division_by_zero_gives_all_ones_and_dividend() {
    assert_eq!(run_op(OP, 1, 4, 42, 0), u64::MAX);
    assert_eq!(run_op(OP, 1, 6, 42, 0), 42);
    assert_eq!(run_op(OP, 1, 5, 42, 0), u64::MAX);
    assert_eq!(run_op(OP, 1, 7, 42, 0), 42);
    assert_eq!(run_op(OP_32, 1, 4, 42, 0), u64::MAX);
    assert_eq!(run_op(OP_32, 1, 6, 42, 0), 42);
    assert_eq!(run_op(OP_32, 1, 5, 42, 0), u64::MAX);
    assert_eq!(run_op(OP_32, 1, 7, 42, 0), 42);
    assert_eq!(run_op(OP_32, 1, 6, 0xffff_ffff, 0x1_0000_0000), u64::MAX);
}

#[test]
fn signed_division_overflow() {
    let min = i64::MIN as u64;
    assert_eq!(run_op(OP, 1, 4, min, u64::MAX), min);
    assert_eq!(run_op(OP, 1, 6, min, u64::MAX), 0);
    let min32 = i32::MIN as i64 as u64;
    assert_eq!(run_op(OP_32, 1, 4, min32, u64::MAX), min32);
    assert_eq!(run_op(OP_32, 1, 6, min32, u64::MAX), 0);
}

#[test]
fn division_rounds_toward_zero() {
    assert_eq!(run_op(OP, 1, 4, (-7i64) as u64, 2), (-3i64) as u64);
    assert_eq!(run_op(OP, 1, 6, (-7i64) as u64, 2), (-1i64) as u64);
    assert_eq!(run_op(OP, 1, 4, 7, (-2i64) as u64), (-3i64) as u64);
    assert_eq!(run_op(OP, 1, 6, 7, (-2i64) as u64), 1);
    assert_eq!(run_op(OP, 1, 5, 7, 2), 3);
    assert_eq!(run_op(OP, 1, 7, 7, 2), 1);
}

#[test]
fn multiply_high_halves() {
    assert_eq!(run_op(OP, 1, 0, 3, 5), 15);
    assert_eq!(run_op(OP, 1, 3, u64::MAX, u64::MAX), u64::MAX - 1);
    assert_eq!(run_op(OP, 1, 1, u64::MAX, u64::MAX), 0);
    assert_eq!(run_op(OP, 1, 1, (-2i64) as u64, 1 << 63), 1);
    assert_eq!(run_op(OP, 1, 2, u64::MAX, u64::MAX), u64::MAX);
    assert_eq!(run_op(OP, 1, 2, 2, 1 << 63), 1);
}

#[test]
fn comparisons_and_shifts() {
    assert_eq!(run_op(OP, 0, 2, u64::MAX, 1), 1);
    assert_eq!(run_op(OP, 0, 3, u64::MAX, 1), 0);
    assert_eq!(run_op(OP, 0x20, 0, 5, 7), (-2i64) as u64);
    assert_eq!(run_op(OP, 0, 1, 1, 65), 2);
    assert_eq!(run_op(OP, 0, 5, 1 << 63, 63), 1);
    assert_eq!(run_op(OP, 0x20, 5, 1 << 63, 63), u64::MAX);
}

#[test]
fn word_operations_sign_extend() {
    assert_eq!(run_op(OP_32, 0, 0, 0x7fff_ffff, 1), 0xffff_ffff_8000_0000);
    assert_eq!(run_op(OP_32, 0x20, 0, 0, 1), u64::MAX);
    assert_eq!(run_op(OP_32, 0, 1, 1, 31), 0xffff_ffff_8000_0000);
    assert_eq!(run_op(OP_32, 0, 5, 0x8000_0000, 0), 0xffff_ffff_8000_0000);
    assert_eq!(run_op(OP_32, 0, 5, 0x8000_0000, 4), 0x0800_0000);
    assert_eq!(run_op(OP_32, 0x20, 5, 0x8000_0000, 4), 0xffff_ffff_f800_0000);
    assert_eq!(run_op(OP_32, 1, 0, 0x1_0000_0001, 0x8000_0000), 0xffff_ffff_8000_0000);
}

#[test]
fn immediate_operations() {
    let machine = Machine::new();
    let mut bus = Bus::new(64);
    let mut cpu = Cpu::new(&machine);
    load_program(
        &mut bus,
        &[
            i_type(-1, 1, 0, 3, OP_IMM),
            i_type(0x400 | 40, 1, 5, 4, OP_IMM),
            i_type(1, 2, 0, 5, OP_IMM_32),
            i_type(-1, 1, 3, 6, OP_IMM),
        ],
    );
    cpu.registers[1] = 1 << 63;
    cpu.registers[2] = 0x7fff_ffff;
    for _ in 0..4 {
        assert_eq!(cpu.step(&mut bus), Ok(()));
    }
    assert_eq!(cpu.registers[3], (1 << 63) - 1);
    assert_eq!(cpu.registers[4], 0xffff_ffff_ff80_0000);
    assert_eq!(cpu.registers[5], 0xffff_ffff_8000_0000);
    assert_eq!(cpu.registers[6], 1);
}

#[test]
fn register_zero_stays_zero() {
    let machine = Machine::new();
    let mut bus = Bus::new(64);
    let mut cpu = Cpu::new(&machine);
    load_program(&mut bus, &[r_type(0, 2, 1, 0, 0, OP), i_type(5, 1, 0, 0, OP_IMM)]);
    cpu.registers[1] = 3;
    cpu.registers[2] = 4;
    assert_eq!(cpu.step(&mut bus), Ok(()));
    assert_eq!(cpu.step(&mut bus), Ok(()));
    assert_eq!(cpu.registers[0], 0);
    assert_eq!(cpu.pc, 8);
}

#[test]
fn branches_fall_through_or_jump() {
    let machine = Machine::new();
    let mut bus = Bus::new(64);
    let mut cpu = Cpu::new(&machine);
    load_program(&mut bus, &[b_type(8, 2, 1, 0), 0, b_type(-8, 2, 1, 1)]);
    cpu.registers[1] = 1;
    cpu.registers[2] = 2;
    assert_eq!(cpu.step(&mut bus), Ok(()));
    assert_eq!(cpu.pc, 4);
    cpu.pc = 8;
    assert_eq!(cpu.step(&mut bus), Ok(()));
    assert_eq!(cpu.pc, 0);
    cpu.registers[2] = 1;
    assert_eq!(cpu.step(&mut bus), Ok(()));
    assert_eq!(cpu.pc, 8);
}

#[test]
fn signed_and_unsigned_branches() {
    let machine = Machine::new();
    let mut bus = Bus::new(64);
    let mut cpu = Cpu::new(&machine);
    load_program(&mut bus, &[b_type(16, 2, 1, 4), b_type(16, 2, 1, 6)]);
    cpu.registers[1] = u64::MAX;
    cpu.registers[2] = 1;
    assert_eq!(cpu.step(&mut bus), Ok(()));
    assert_eq!(cpu.pc, 16);
    cpu.pc = 4;
    assert_eq!(cpu.step(&mut bus), Ok(()));
    assert_eq!(cpu.pc, 8);
}

#[test]
fn jumps_link_and_clear_low_bit() {
    let machine = Machine::new();
    let mut bus = Bus::new(64);
    let mut cpu = Cpu::new(&machine);
    // jal x1, -4 at address 8; jalr x1, 5(x2) at address 4
    bus.store32(8, 0xffdf_f0ef);
    bus.store32(4, i_type(5, 2, 0, 1, 0x67) as u64);
    cpu.pc = 8;
    assert_eq!(cpu.step(&mut bus), Ok(()));
    assert_eq!(cpu.pc, 4);
    assert_eq!(cpu.registers[1], 12);
    cpu.registers[2] = 0x20;
    assert_eq!(cpu.step(&mut bus), Ok(()));
    assert_eq!(cpu.pc, 0x24);
    assert_eq!(cpu.registers[1], 8);
}

#[test]
fn upper_immediates() {
    let machine = Machine::new();
    let mut bus = Bus::new(64);
    let mut cpu = Cpu::new(&machine);
    load_program(&mut bus, &[0x8000_01b7, 0x0000_1197]);
    assert_eq!(cpu.step(&mut bus), Ok(()));
    assert_eq!(cpu.registers[3], 0xffff_ffff_8000_0000);
    assert_eq!(cpu.step(&mut bus), Ok(()));
    assert_eq!(cpu.registers[3], 4 + 0x1000);
}

#[test]
fn loads_extend_by_kind() {
    let machine = Machine::new();
    let mut bus = Bus::new(64);
    let mut cpu = Cpu::new(&machine);
    load_program(&mut bus, &[i_type(0, 1, 0, 3, LOAD), i_type(0, 1, 4, 4, LOAD), i_type(0, 1, 1, 5, LOAD)]);
    bus.store16(0x20, 0x80f0);
    cpu.registers[1] = 0x20;
    for _ in 0..3 {
        assert_eq!(cpu.step(&mut bus), Ok(()));
    }
    assert_eq!(cpu.registers[3], 0xffff_ffff_ffff_fff0);
    assert_eq!(cpu.registers[4], 0xf0);
    assert_eq!(cpu.registers[5], 0xffff_ffff_ffff_80f0);
}

#[test]
fn store_writes_low_bytes_at_negative_offset() {
    let machine = Machine::new();
    let mut bus = Bus::new(64);
    let mut cpu = Cpu::new(&machine);
    load_program(&mut bus, &[s_type(-8, 2, 1, 0, STORE)]);
    cpu.registers[1] = 0x30;
    cpu.registers[2] = 0x1234;
    assert_eq!(cpu.step(&mut bus), Ok(()));
    assert_eq!(bus.load8(0x28), 0x34);
    assert_eq!(bus.load8(0x29), 0);
}

#[test]
fn out_of_bounds_access_traps() {
    let machine = Machine::new();
    let mut bus = Bus::new(64);
    let mut cpu = Cpu::new(&machine);
    load_program(&mut bus, &[i_type(0, 1, 3, 3, LOAD)]);
    cpu.registers[1] = 60;
    assert_eq!(cpu.step(&mut bus), Err(Trap::MemoryOutOfBounds { address: 60 }));
    assert_eq!(cpu.pc, 0);
    cpu.pc = 64;
    assert_eq!(cpu.step(&mut bus), Err(Trap::MemoryOutOfBounds { address: 64 }));
}

#[test]
fn counters_and_system_instructions() {
    let machine = Machine::new();
    let mut bus = Bus::new(64);
    let mut cpu = Cpu::new(&machine);
    load_program(
        &mut bus,
        &[
            0x0000_0073,
            0x0010_0073,
            i_type(0xc00, 0, 2, 3, SYSTEM),
            i_type(0xc02, 0, 2, 4, SYSTEM),
            i_type(0xc01, 0, 2, 5, SYSTEM),
            0x0000_000f,
            i_type(0x123, 0, 2, 6, SYSTEM),
        ],
    );
    for _ in 0..6 {
        assert_eq!(cpu.step(&mut bus), Ok(()));
    }
    assert_eq!(cpu.registers[3], 2);
    assert_eq!(cpu.registers[4], 3);
    assert!(cpu.registers[5] < 60_000);
    assert_eq!(
        cpu.step(&mut bus),
        Err(Trap::UndefinedInstruction { opcode: 0x73, funct3: 2, funct7: 0x09 })
    );
    assert_eq!(cpu.cycles, 6);
}

#[test]
fn clock_value_is_what_execution_is_given() {
    let machine = Machine::new();
    let mut bus = Bus::new(64);
    let mut cpu = Cpu::new(&machine);
    let ins = Instruction::decode(i_type(0xc01, 0, 2, 7, SYSTEM) as i32);
    assert_eq!(cpu.execute_with_clock(&ins, &mut bus, 1234), Ok(()));
    assert_eq!(cpu.registers[7], 1234);
    assert_eq!(cpu.pc, 4);
}

#[test]
fn fetch_decodes_word_at_pc() {
    let machine = Machine::new();
    let mut bus = Bus::new(16);
    let cpu = Cpu::new(&machine);
    bus.store32(0, 0x0020_81b3);
    let ins = cpu.fetch(&bus).unwrap();
    assert_eq!(ins.rd, 3);
    assert_eq!(ins.opcode, 0x33);
}
