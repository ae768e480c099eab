//! Instruction encodings: major opcodes, the funct3 and funct7 values that
//! select an operation within an opcode, and control and status register
//! numbers; and the opcodes and mnemonics of the textual assembler.

use vstd::prelude::*;
use vstd::string::StrSliceExecFns;

verus! {

pub const OPCODE_OP_IMM: i32 = 0b0010011;
pub const OPCODE_OP_IMM_32: i32 = 0b0011011;
pub const OPCODE_OP: i32 = 0b0110011;
pub const OPCODE_OP_32: i32 = 0b0111011;
pub const OPCODE_LUI: i32 = 0b0110111;
pub const OPCODE_AUIPC: i32 = 0b0010111;
pub const OPCODE_JAL: i32 = 0b1101111;
pub const OPCODE_JALR: i32 = 0b1100111;
pub const OPCODE_BRANCH: i32 = 0b1100011;
pub const OPCODE_LOAD: i32 = 0b0000011;
pub const OPCODE_STORE: i32 = 0b0100011;
pub const OPCODE_MISC_MEM: i32 = 0b0001111;
pub const OPCODE_SYSTEM: i32 = 0b1110011;

pub const F3_ADD: i32 = 0;
pub const F3_SUB: i32 = 0;
pub const F3_SLL: i32 = 1;
pub const F3_SLT: i32 = 2;
pub const F3_SLTU: i32 = 3;
pub const F3_XOR: i32 = 4;
pub const F3_SRL: i32 = 5;
pub const F3_SRA: i32 = 5;
pub const F3_OR: i32 = 6;
pub const F3_AND: i32 = 7;
pub const F3_MUL: i32 = 0;
pub const F3_MULH: i32 = 1;
pub const F3_MULHSU: i32 = 2;
pub const F3_MULHU: i32 = 3;
pub const F3_DIV: i32 = 4;
pub const F3_DIVU: i32 = 5;
pub const F3_REM: i32 = 6;
pub const F3_REMU: i32 = 7;
pub const F3_MULW: i32 = F3_MUL;
pub const F3_DIVW: i32 = F3_DIV;
pub const F3_DIVUW: i32 = F3_DIVU;
pub const F3_REMW: i32 = F3_REM;
pub const F3_REMUW: i32 = F3_REMU;
pub const F3_BEQ: i32 = 0;
pub const F3_BNE: i32 = 1;
pub const F3_BLT: i32 = 4;
pub const F3_BGE: i32 = 5;
pub const F3_BLTU: i32 = 6;
pub const F3_BGEU: i32 = 7;
pub const F3_LB: i32 = 0;
pub const F3_LH: i32 = 1;
pub const F3_LW: i32 = 2;
pub const F3_LD: i32 = 3;
pub const F3_LBU: i32 = 4;
pub const F3_LHU: i32 = 5;
pub const F3_LWU: i32 = 6;
pub const F3_SB: i32 = 0;
pub const F3_SH: i32 = 1;
pub const F3_SW: i32 = 2;
pub const F3_SD: i32 = 3;
pub const F3_ECALL_EBREAK: i32 = 0;
pub const F3_CSRRW: i32 = 1;
pub const F3_CSRRS: i32 = 2;
pub const F3_CSRRC: i32 = 3;
pub const F3_CSRRWI: i32 = 5;
pub const F3_CSRRSI: i32 = 6;
pub const F3_CSRRCI: i32 = 7;

pub const F7_ADD: i32 = 0;
pub const F7_SLT: i32 = 0;
pub const F7_SLTU: i32 = 0;
pub const F7_AND: i32 = 0;
pub const F7_OR: i32 = 0;
pub const F7_XOR: i32 = 0;
pub const F7_SLL: i32 = 0;
pub const F7_SRL: i32 = 0;
pub const F7_SUB: i32 = 0b0100000;
pub const F7_SRA: i32 = 0b0100000;
pub const F7_MULDIV: i32 = 1;

pub const IMM_ECALL: i32 = 0;
pub const IMM_EBREAK: i32 = 1;

pub const CSR_CYCLE: u64 = 0xC00;
pub const CSR_TIME: u64 = 0xC01;
pub const CSR_INSTRET: u64 = 0xC02;

/// Assembler opcodes: arithmetic and logic.
pub const ADD: u8 = 0;
pub const SUB: u8 = 1;
pub const AND: u8 = 2;
pub const OR: u8 = 3;
pub const XOR: u8 = 4;
pub const SHL: u8 = 5;
pub const SHR: u8 = 6;
pub const SAR: u8 = 7;

/// Assembler opcodes: branches.
pub const JA: u8 = 8;
pub const JR: u8 = 9;
pub const JE: u8 = 10;
pub const JNE: u8 = 11;
pub const JG: u8 = 12;
pub const JGE: u8 = 13;
pub const JGS: u8 = 14;
pub const JGES: u8 = 15;

/// Assembler opcodes: loads.
pub const LBU: u8 = 16;
pub const LWU: u8 = 17;
pub const LDU: u8 = 18;
pub const LBS: u8 = 19;
pub const LWS: u8 = 20;
pub const LDS: u8 = 21;
pub const LQ: u8 = 22;

/// Assembler opcodes: stores.
pub const SB: u8 = 23;
pub const SW: u8 = 24;
pub const SD: u8 = 25;
pub const SQ: u8 = 26;

/// Assembler opcodes: pseudo-instructions.
pub const NEG: u8 = 255;
pub const NOT: u8 = 254;

/// The lowercase form of `s`, as `str::to_lowercase` computes it.
pub uninterp spec fn lower_of(s: Seq<char>) -> Seq<char>;

/// Relies on `str::to_lowercase`: the result depends on the characters of
/// `s` alone.
#[verifier::external_body]
fn lowercase(s: &str) -> (r: String)
    ensures
        r@ == lower_of(s@),
{
    s.to_lowercase()
}

/// The assembler opcode whose mnemonic is exactly `name`.
pub open spec fn opcode_named(name: Seq<char>) -> Option<u8> {
    if name == "add"@ {
        Some(ADD)
    } else if name == "sub"@ {
        Some(SUB)
    } else if name == "and"@ {
        Some(AND)
    } else if name == "or"@ {
        Some(OR)
    } else if name == "xor"@ {
        Some(XOR)
    } else if name == "shl"@ {
        Some(SHL)
    } else if name == "shr"@ {
        Some(SHR)
    } else if name == "sar"@ {
        Some(SAR)
    } else if name == "ja"@ {
        Some(JA)
    } else if name == "jr"@ {
        Some(JR)
    } else if name == "je"@ {
        Some(JE)
    } else if name == "jne"@ {
        Some(JNE)
    } else if name == "jg"@ {
        Some(JG)
    } else if name == "jge"@ {
        Some(JGE)
    } else if name == "jgs"@ {
        Some(JGS)
    } else if name == "jges"@ {
        Some(JGES)
    } else if name == "lbu"@ {
        Some(LBU)
    } else if name == "lwu"@ {
        Some(LWU)
    } else if name == "ldu"@ {
        Some(LDU)
    } else if name == "lbs"@ {
        Some(LBS)
    } else if name == "lws"@ {
        Some(LWS)
    } else if name == "lds"@ {
        Some(LDS)
    } else if name == "lq"@ {
        Some(LQ)
    } else if name == "sb"@ {
        Some(SB)
    } else if name == "sw"@ {
        Some(SW)
    } else if name == "sd"@ {
        Some(SD)
    } else if name == "sq"@ {
        Some(SQ)
    } else if name == "neg"@ {
        Some(NEG)
    } else if name == "not"@ {
        Some(NOT)
    } else {
        None
    }
}

/// The mnemonic of assembler opcode `opcode`.
pub open spec fn mnemonic_of(opcode: u8) -> Option<Seq<char>> {
    if opcode == ADD {
        Some("add"@)
    } else if opcode == SUB {
        Some("sub"@)
    } else if opcode == AND {
        Some("and"@)
    } else if opcode == OR {
        Some("or"@)
    } else if opcode == XOR {
        Some("xor"@)
    } else if opcode == SHL {
        Some("shl"@)
    } else if opcode == SHR {
        Some("shr"@)
    } else if opcode == SAR {
        Some("sar"@)
    } else if opcode == JA {
        Some("ja"@)
    } else if opcode == JR {
        Some("jr"@)
    } else if opcode == JE {
        Some("je"@)
    } else if opcode == JNE {
        Some("jne"@)
    } else if opcode == JG {
        Some("jg"@)
    } else if opcode == JGE {
        Some("jge"@)
    } else if opcode == JGS {
        Some("jgs"@)
    } else if opcode == JGES {
        Some("jges"@)
    } else if opcode == LBU {
        Some("lbu"@)
    } else if opcode == LWU {
        Some("lwu"@)
    } else if opcode == LDU {
        Some("ldu"@)
    } else if opcode == LBS {
        Some("lbs"@)
    } else if opcode == LWS {
        Some("lws"@)
    } else if opcode == LDS {
        Some("lds"@)
    } else if opcode == LQ {
        Some("lq"@)
    } else if opcode == SB {
        Some("sb"@)
    } else if opcode == SW {
        Some("sw"@)
    } else if opcode == SD {
        Some("sd"@)
    } else if opcode == SQ {
        Some("sq"@)
    } else if opcode == NEG {
        Some("neg"@)
    } else if opcode == NOT {
        Some("not"@)
    } else {
        None
    }
}

/// Whether `a` and `b` hold the same characters.
fn same_text(a: &str, b: &str) -> (r: bool)
    ensures
        r == (a@ == b@),
{
    let n = a.unicode_len();
    if n != b.unicode_len() {
        return false;
    }
    let mut i: usize = 0;
    while i < n
        invariant
            n == a@.len() == b@.len(),
            i <= n,
            forall|k: int| 0 <= k < i ==> a@[k] == b@[k],
        decreases n - i,
    {
        if a.get_char(i) != b.get_char(i) {
            return false;
        }
        i = i + 1;
    }
    proof {
        assert(a@ =~= b@);
    }
    true
}

/// The assembler opcode whose mnemonic is `name`, which is already in
/// lowercase.
pub fn opcode_of_lowercase(name: &str) -> (r: Option<u8>)
    ensures
        r == opcode_named(name@),
{
    if same_text(name, "add") {
        Some(ADD)
    } else if same_text(name, "sub") {
        Some(SUB)
    } else if same_text(name, "and") {
        Some(AND)
    } else if same_text(name, "or") {
        Some(OR)
    } else if same_text(name, "xor") {
        Some(XOR)
    } else if same_text(name, "shl") {
        Some(SHL)
    } else if same_text(name, "shr") {
        Some(SHR)
    } else if same_text(name, "sar") {
        Some(SAR)
    } else if same_text(name, "ja") {
        Some(JA)
    } else if same_text(name, "jr") {
        Some(JR)
    } else if same_text(name, "je") {
        Some(JE)
    } else if same_text(name, "jne") {
        Some(JNE)
    } else if same_text(name, "jg") {
        Some(JG)
    } else if same_text(name, "jge") {
        Some(JGE)
    } else if same_text(name, "jgs") {
        Some(JGS)
    } else if same_text(name, "jges") {
        Some(JGES)
    } else if same_text(name, "lbu") {
        Some(LBU)
    } else if same_text(name, "lwu") {
        Some(LWU)
    } else if same_text(name, "ldu") {
        Some(LDU)
    } else if same_text(name, "lbs") {
        Some(LBS)
    } else if same_text(name, "lws") {
        Some(LWS)
    } else if same_text(name, "lds") {
        Some(LDS)
    } else if same_text(name, "lq") {
        Some(LQ)
    } else if same_text(name, "sb") {
        Some(SB)
    } else if same_text(name, "sw") {
        Some(SW)
    } else if same_text(name, "sd") {
        Some(SD)
    } else if same_text(name, "sq") {
        Some(SQ)
    } else if same_text(name, "neg") {
        Some(NEG)
    } else if same_text(name, "not") {
        Some(NOT)
    } else {
        None
    }
}

/// The assembler opcode of `mnemonic`, in any mix of upper and lower case.
pub fn mnemonic_to_opcode(mnemonic: &str) -> (r: Option<u8>)
    ensures
        r == opcode_named(lower_of(mnemonic@)),
{
    let lower = lowercase(mnemonic);
    opcode_of_lowercase(lower.as_str())
}

/// The mnemonic of assembler opcode `opcode`, in lowercase.
pub fn opcode_to_mnemonic(opcode: u8) -> (r: Option<&'static str>)
    ensures
        match r {
            Some(s) => mnemonic_of(opcode) == Some(s@),
            None => mnemonic_of(opcode) is None,
        },
{
    if opcode == ADD {
        Some("add")
    } else if opcode == SUB {
        Some("sub")
    } else if opcode == AND {
        Some("and")
    } else if opcode == OR {
        Some("or")
    } else if opcode == XOR {
        Some("xor")
    } else if opcode == SHL {
        Some("shl")
    } else if opcode == SHR {
        Some("shr")
    } else if opcode == SAR {
        Some("sar")
    } else if opcode == JA {
        Some("ja")
    } else if opcode == JR {
        Some("jr")
    } else if opcode == JE {
        Some("je")
    } else if opcode == JNE {
        Some("jne")
    } else if opcode == JG {
        Some("jg")
    } else if opcode == JGE {
        Some("jge")
    } else if opcode == JGS {
        Some("jgs")
    } else if opcode == JGES {
        Some("jges")
    } else if opcode == LBU {
        Some("lbu")
    } else if opcode == LWU {
        Some("lwu")
    } else if opcode == LDU {
        Some("ldu")
    } else if opcode == LBS {
        Some("lbs")
    } else if opcode == LWS {
        Some("lws")
    } else if opcode == LDS {
        Some("lds")
    } else if opcode == LQ {
        Some("lq")
    } else if opcode == SB {
        Some("sb")
    } else if opcode == SW {
        Some("sw")
    } else if opcode == SD {
        Some("sd")
    } else if opcode == SQ {
        Some("sq")
    } else if opcode == NEG {
        Some("neg")
    } else if opcode == NOT {
        Some("not")
    } else {
        None
    }
}

} // verus!
