use rvsim::instruction::Instruction;

#[test]
fn test_immediate_b() {
    let i = Instruction::decode(-1);
    assert_eq!(i.immediate_b(), -2);
}

#[test]
fn test_immediate_j() {
    let i = Instruction::decode(-1);
    assert_eq!(i.immediate_j(), -2);
}

#[test]
fn test_immediate_u() {
    let i = Instruction::decode(-1);
    assert_eq!(i.immediate_u_unsigned(), u64::MAX - 4095);
}

#[test]
fn test_immediate_s() {
    let i = Instruction::decode(-1);
    assert_eq!(i.immediate_s(), -1);
}

#[test]
fn immediate_i_unsigned_of_all_ones_is_all_ones() {
    let i = Instruction::decode(-1);
    assert_eq!(i.immediate_i(), -1);
    assert_eq!(i.immediate_i_unsigned(), u64::MAX);
}

#[test]
fn decode_splits_register_fields() {
    // add x3, x1, x2
    let i = Instruction::decode(0x0020_81b3);
    assert_eq!(i.raw, 0x0020_81b3);
    assert_eq!(i.size, 4);
    assert_eq!(i.opcode, 0x33);
    assert_eq!(i.rd, 3);
    assert_eq!(i.rs1, 1);
    assert_eq!(i.rs2, 2);
    assert_eq!(i.funct3, 0);
    assert_eq!(i.funct7, 0);
}

#[test]
fn decode_shift_amounts() {
    // srai x3, x1, 40
    let i = Instruction::decode(1115738515);
    assert_eq!(i.shamt, 40);
    assert_eq!(i.shamtw, 8);
    assert_eq!(i.funct7, 0x21);
}

#[test]
fn decode_accepts_any_word() {
    let i = Instruction::decode(0);
    assert_eq!(i.opcode, 0);
    assert_eq!(i.size, 4);
    let i = Instruction::decode(i32::MIN);
    assert_eq!(i.funct7, 0x40);
}

#[test]
fn immediate_b_positive_and_negative() {
    // beq x1, x2, +8
    assert_eq!(Instruction::decode(2131043).immediate_b(), 8);
    // beq x1, x2, -16
    assert_eq!(Instruction::decode(-31422237).immediate_b(), -16);
}

#[test]
fn immediate_j_positive_and_negative() {
    // jal x1, -4
    assert_eq!(Instruction::decode(-2101009).immediate_j(), -4);
    // jal x1, 2048
    assert_eq!(Instruction::decode(1048815).immediate_j(), 2048);
}

#[test]
fn immediate_s_negative_offset() {
    // sw x2, -8(x1)
    assert_eq!(Instruction::decode(-31413213).immediate_s(), -8);
    // sw x1, 0x100(x0)
    assert_eq!(Instruction::decode(269492259).immediate_s(), 0x100);
}

#[test]
fn immediate_i_and_u_values() {
    // lw x5, 0x104(x0)
    assert_eq!(Instruction::decode(272638595).immediate_i(), 0x104);
    // lui x3, 0x80000
    let lui = Instruction::decode(-2147483209);
    assert_eq!(lui.immediate_u(), -0x8000_0000);
    assert_eq!(lui.immediate_u_unsigned(), 0xffff_ffff_8000_0000);
}

#[test]
fn csr_number_is_unsigned() {
    // csrrs x3, cycle, x0
    assert_eq!(Instruction::decode(-1073733133).csr(), 0xc00);
    assert_eq!(Instruction::decode(-1).csr(), 0xfff);
}
