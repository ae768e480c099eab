use rvsim::opcodes::{
    mnemonic_to_opcode, opcode_of_lowercase, opcode_to_mnemonic, ADD, LQ, NOT, SUB,
};

#[test]
fn test_mnemonic_to_opcode() {
    assert_eq!(mnemonic_to_opcode("sUb").unwrap(), SUB);
}

#[test]
fn test_opcode_to_mnemonic() {
    assert_eq!(opcode_to_mnemonic(SUB).unwrap(), "sub");
}

#[test]
fn mnemonic_lookup_ignores_case() {
    assert_eq!(mnemonic_to_opcode("ADD"), Some(ADD));
    assert_eq!(mnemonic_to_opcode("Not"), Some(NOT));
    assert_eq!(mnemonic_to_opcode("lq"), Some(LQ));
}

#[test]
fn unknown_mnemonic_has_no_opcode() {
    assert_eq!(mnemonic_to_opcode("mov"), None);
    assert_eq!(mnemonic_to_opcode(""), None);
    assert_eq!(mnemonic_to_opcode("subb"), None);
}

#[test]
fn lowercase_lookup_is_exact() {
    assert_eq!(opcode_of_lowercase("sub"), Some(SUB));
    assert_eq!(opcode_of_lowercase("SUB"), None);
}

#[test]
fn opcode_mnemonics_round_trip() {
    for op in 0..=255u8 {
        if let Some(name) = opcode_to_mnemonic(op) {
            assert_eq!(mnemonic_to_opcode(name), Some(op));
        }
    }
    assert_eq!(opcode_to_mnemonic(254), Some("not"));
    assert_eq!(opcode_to_mnemonic(100), None);
}
