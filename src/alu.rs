//! Integer arithmetic on register values: the two's complement views of a
//! 64-bit register, 32-bit word results, shifts, and the multiply and
//! divide family with its defined results for division by zero and for
//! signed overflow.

use crate::instruction::{imm_i, wrap64, Instruction};
use crate::opcodes::{
    F3_ADD, F3_AND, F3_DIV, F3_DIVU, F3_DIVUW, F3_DIVW, F3_MUL, F3_MULH, F3_MULHSU, F3_MULHU, F3_MULW, F3_OR, F3_REM, F3_REMU, F3_REMUW, F3_REMW, F3_SLL, F3_SLT, F3_SLTU, F3_SRA, F3_SRL, F3_SUB, F3_XOR, F7_ADD, F7_MULDIV, F7_SRA, F7_SRL, F7_SUB,
};
use vstd::prelude::*;

verus! {

/// The register value `x` read as a signed 64-bit number.
pub open spec fn signed64(x: u64) -> int {
    if x < 0x8000_0000_0000_0000 {
        x as int
    } else {
        x - 0x1_0000_0000_0000_0000
    }
}

/// The low 32 bits of the register value `x`, read as a signed number.
pub open spec fn signed32(x: u64) -> int {
    let low = x % 0x1_0000_0000;
    if low < 0x8000_0000 {
        low as int
    } else {
        low - 0x1_0000_0000
    }
}

/// The register value that holds the low 32 bits of `x`, sign-extended.
pub open spec fn sext32(x: int) -> u64 {
    let low = x % 0x1_0000_0000;
    if low < 0x8000_0000 {
        low as u64
    } else {
        (low + 0xffff_ffff_0000_0000) as u64
    }
}

/// The magnitude of `x`.
pub open spec fn abs(x: int) -> int {
    if x < 0 {
        -x
    } else {
        x
    }
}

/// `x / y` rounded toward zero.
pub open spec fn trunc_div(x: int, y: int) -> int {
    if (x < 0) == (y < 0) {
        abs(x) / abs(y)
    } else {
        -(abs(x) / abs(y))
    }
}

/// The remainder that goes with `trunc_div`: it has the sign of `x`.
pub open spec fn trunc_rem(x: int, y: int) -> int {
    if x < 0 {
        -(abs(x) % abs(y))
    } else {
        abs(x) % abs(y)
    }
}

/// Arithmetic right shift: `a` shifted right by `sh` bits, the vacated
/// high bits filled with copies of the sign bit.
pub open spec fn sra64(a: u64, sh: u64) -> u64 {
    if a >> 63u64 == 0 {
        a >> sh
    } else {
        !(!a >> sh)
    }
}

/// Signed division: quotient and remainder. Division by zero gives all
/// ones and the dividend; the most negative value divided by -1 gives
/// itself and zero.
pub open spec fn div_signed_result(a: u64, b: u64) -> (u64, u64) {
    if b == 0 {
        (u64::MAX, a)
    } else if signed64(a) == -0x8000_0000_0000_0000 && signed64(b) == -1 {
        (a, 0)
    } else {
        (wrap64(trunc_div(signed64(a), signed64(b))), wrap64(trunc_rem(signed64(a), signed64(b))))
    }
}

/// Unsigned division: quotient and remainder. Division by zero gives all
/// ones and the dividend.
pub open spec fn div_unsigned_result(a: u64, b: u64) -> (u64, u64) {
    if b == 0 {
        (u64::MAX, a)
    } else {
        ((a / b) as u64, (a % b) as u64)
    }
}

/// High 64 bits of the signed by signed product.
pub open spec fn mulh_result(a: u64, b: u64) -> u64 {
    wrap64(signed64(a) * signed64(b) / 0x1_0000_0000_0000_0000)
}

/// High 64 bits of the unsigned by unsigned product.
pub open spec fn mulhu_result(a: u64, b: u64) -> u64 {
    (a * b / 0x1_0000_0000_0000_0000) as u64
}

/// High 64 bits of the signed by unsigned product.
pub open spec fn mulhsu_result(a: u64, b: u64) -> u64 {
    wrap64(signed64(a) * b / 0x1_0000_0000_0000_0000)
}

/// Casting a register value to `i64` reads it as signed.
pub proof fn lemma_signed64(x: u64)
    ensures
        (x as i64) as int == signed64(x),
{
    assert((x as i64) as int == signed64(x)) by (bit_vector);
}

/// Casting an `i64` to `u64` takes it modulo 2^64.
pub proof fn lemma_wrap64_of_i64(x: i64)
    ensures
        x as u64 == wrap64(x as int),
{
    assert(x as u64 == wrap64(x as int)) by (bit_vector);
}

/// Euclidean division by a negative divisor, in terms of its magnitude.
proof fn lemma_div_negative_divisor(x: int, y: int)
    requires
        y < 0,
    ensures
        x / y == -(x / -y),
        x % y == x % -y,
{
    let d = -y;
    vstd::arithmetic::div_mod::lemma_fundamental_div_mod(x, d);
    vstd::arithmetic::div_mod::lemma_fundamental_div_mod(x, y);
    vstd::arithmetic::div_mod::lemma_mod_bound(x, d);
    assert(x / y == -(x / d) && x % y == x % d) by (nonlinear_arith)
        requires
            d == -y,
            d > 0,
            x == d * (x / d) + x % d,
            x == y * (x / y) + x % y,
            0 <= x % d < d,
            0 <= x % y < d,
    ;
}

/// Sign-extending the low word ignores everything above bit 31.
proof fn lemma_sext32_wrap64(x: int)
    ensures
        sext32(wrap64(x) as int) == sext32(x),
{
    vstd::arithmetic::div_mod::lemma_mod_mod(x, 0x1_0000_0000, 0x1_0000_0000);
    assert(wrap64(x) as int == x % 0x1_0000_0000_0000_0000);
}

/// The low 32 bits of `x`, sign-extended to 64.
pub fn sign_extend_word(x: u64) -> (r: u64)
    ensures
        r == sext32(x as int),
{
    proof {
        assert((x as i32) as u64 == sext32(x as int)) by (bit_vector);
    }
    x as i32 as u64
}

/// The high half of the unsigned product of `a` and `b`.
pub fn mulhu(a: u64, b: u64) -> (r: u64)
    ensures
        r == mulhu_result(a, b),
{
    proof {
        assert(a * b <= 0xffff_ffff_ffff_fffe_0000_0000_0000_0001) by (nonlinear_arith)
            requires
                a <= 0xffff_ffff_ffff_ffff,
                b <= 0xffff_ffff_ffff_ffff,
        ;
    }
    let p = (a as u128) * (b as u128);
    proof {
        assert(p >> 64u32 == p / 0x1_0000_0000_0000_0000) by (bit_vector);
        assert(p / 0x1_0000_0000_0000_0000 <= u64::MAX) by (nonlinear_arith)
            requires
                p == a * b,
                a <= u64::MAX,
                b <= u64::MAX,
        ;
    }
    (p >> 64u32) as u64
}

/// The high half of the product of `a` read as signed and `b` unsigned.
pub fn mulhsu(a: u64, b: u64) -> (r: u64)
    ensures
        r == mulhsu_result(a, b),
{
    let x = a as i64;
    proof {
        lemma_signed64(a);
        assert(-0x8000_0000_0000_0000 * 0xffff_ffff_ffff_ffff <= x * b <= 0x7fff_ffff_ffff_ffff
            * 0xffff_ffff_ffff_ffff) by (nonlinear_arith)
            requires
                -0x8000_0000_0000_0000 <= x <= 0x7fff_ffff_ffff_ffff,
                0 <= b <= 0xffff_ffff_ffff_ffff,
        ;
    }
    let p = (x as i128) * (b as i128);
    proof {
        assert(((p >> 64u32) as u64) == wrap64(p as int / 0x1_0000_0000_0000_0000)) by (bit_vector);
    }
    (p >> 64u32) as u64
}

/// The high half of the signed product of `a` and `b`.
pub fn mulh(a: u64, b: u64) -> (r: u64)
    ensures
        r == mulh_result(a, b),
{
    let x = a as i64;
    let y = b as i64;
    proof {
        lemma_signed64(a);
        lemma_signed64(b);
        assert(-0x8000_0000_0000_0000 * 0x8000_0000_0000_0000 <= x * y <= 0x8000_0000_0000_0000
            * 0x8000_0000_0000_0000) by (nonlinear_arith)
            requires
                -0x8000_0000_0000_0000 <= x <= 0x7fff_ffff_ffff_ffff,
                -0x8000_0000_0000_0000 <= y <= 0x7fff_ffff_ffff_ffff,
        ;
    }
    let p = (x as i128) * (y as i128);
    proof {
        assert(((p >> 64u32) as u64) == wrap64(p as int / 0x1_0000_0000_0000_0000)) by (bit_vector);
    }
    (p >> 64u32) as u64
}

/// Unsigned quotient and remainder of `a` by `b`.
pub fn div_unsigned(a: u64, b: u64) -> (r: (u64, u64))
    ensures
        r == div_unsigned_result(a, b),
{
    if b == 0 {
        (u64::MAX, a)
    } else {
        (a / b, a % b)
    }
}

/// Signed quotient and remainder of `a` by `b`, both read as signed.
pub fn div_signed(a: u64, b: u64) -> (r: (u64, u64))
    ensures
        r == div_signed_result(a, b),
{
    let x = a as i64;
    let y = b as i64;
    proof {
        lemma_signed64(a);
        lemma_signed64(b);
    }
    if y == 0 {
        (u64::MAX, a)
    } else if x == i64::MIN && y == -1 {
        (a, 0)
    } else {
        let q = x / y;
        let m = x % y;
        proof {
            if y < 0 {
                lemma_div_negative_divisor(x as int, y as int);
                lemma_div_negative_divisor(-x, y as int);
            }
            assert(q as int == trunc_div(x as int, y as int));
            assert(m as int == trunc_rem(x as int, y as int));
            lemma_wrap64_of_i64(q);
            lemma_wrap64_of_i64(m);
        }
        (q as u64, m as u64)
    }
}

/// Arithmetic right shift of `a` by `sh` bits.
pub fn shift_right_arithmetic(a: u64, sh: u64) -> (r: u64)
    requires
        sh < 64,
    ensures
        r == sra64(a, sh),
{
    proof {
        assert(((a as i64) >> sh) as u64 == sra64(a, sh)) by (bit_vector)
            requires
                sh < 64,
        ;
    }
    ((a as i64) >> sh) as u64
}

/// `1` where `c` holds, else `0`.
pub open spec fn flag(c: bool) -> u64 {
    if c {
        1
    } else {
        0
    }
}

/// Register-register operations on 64-bit values, selected by funct3 and
/// funct7; `None` where the pair names no operation. Shift amounts are the
/// low six bits of `b`.
pub open spec fn op_result(funct3: i32, funct7: i32, a: u64, b: u64) -> Option<u64> {
    let sh = b & 0x3f;
    if funct7 == F7_ADD {
        if funct3 == F3_ADD {
            Some(wrap64(a + b))
        } else if funct3 == F3_SLL {
            Some(a << sh)
        } else if funct3 == F3_SLT {
            Some(flag(signed64(a) < signed64(b)))
        } else if funct3 == F3_SLTU {
            Some(flag(a < b))
        } else if funct3 == F3_XOR {
            Some(a ^ b)
        } else if funct3 == F3_SRL {
            Some(a >> sh)
        } else if funct3 == F3_OR {
            Some(a | b)
        } else if funct3 == F3_AND {
            Some(a & b)
        } else {
            None
        }
    } else if funct7 == F7_SUB {
        if funct3 == F3_SUB {
            Some(wrap64(a - b))
        } else if funct3 == F3_SRA {
            Some(sra64(a, sh))
        } else {
            None
        }
    } else if funct7 == F7_MULDIV {
        if funct3 == F3_MUL {
            Some(wrap64(a * b))
        } else if funct3 == F3_MULH {
            Some(mulh_result(a, b))
        } else if funct3 == F3_MULHSU {
            Some(mulhsu_result(a, b))
        } else if funct3 == F3_MULHU {
            Some(mulhu_result(a, b))
        } else if funct3 == F3_DIV {
            Some(div_signed_result(a, b).0)
        } else if funct3 == F3_DIVU {
            Some(div_unsigned_result(a, b).0)
        } else if funct3 == F3_REM {
            Some(div_signed_result(a, b).1)
        } else if funct3 == F3_REMU {
            Some(div_unsigned_result(a, b).1)
        } else {
            None
        }
    } else {
        None
    }
}

/// Register-register word operations: on the low 32 bits of the operands,
/// with the 32-bit result sign-extended. Shift amounts are the low five
/// bits of `b`; division works on the sign-extended (signed forms) or the
/// zero-extended (unsigned forms) low words.
pub open spec fn op_32_result(funct3: i32, funct7: i32, a: u64, b: u64) -> Option<u64> {
    let sh = b & 0x1f;
    let sa = sext32(a as int);
    let sb = sext32(b as int);
    let ua = a % 0x1_0000_0000;
    let ub = b % 0x1_0000_0000;
    if funct7 == F7_ADD {
        if funct3 == F3_ADD {
            Some(sext32(a + b))
        } else if funct3 == F3_SLL {
            Some(sext32((a << sh) as int))
        } else if funct3 == F3_SRL {
            Some(sext32((ua as u64 >> sh) as int))
        } else {
            None
        }
    } else if funct7 == F7_SUB {
        if funct3 == F3_SUB {
            Some(sext32(a - b))
        } else if funct3 == F3_SRA {
            Some(sra64(sa, sh))
        } else {
            None
        }
    } else if funct7 == F7_MULDIV {
        if funct3 == F3_MULW {
            Some(sext32(a * b))
        } else if funct3 == F3_DIVW {
            Some(sext32(div_signed_result(sa, sb).0 as int))
        } else if funct3 == F3_DIVUW {
            Some(sext32(div_unsigned_result(ua as u64, ub as u64).0 as int))
        } else if funct3 == F3_REMW {
            Some(sext32(div_signed_result(sa, sb).1 as int))
        } else if funct3 == F3_REMUW {
            Some(sext32(div_unsigned_result(ua as u64, ub as u64).1 as int))
        } else {
            None
        }
    } else {
        None
    }
}

/// Operations on a register and the I-type immediate. Shifts take their
/// amount from the six-bit `shamt` field; the low bit of funct7 is the top
/// bit of that amount, so right shifts look at the other six bits only.
pub open spec fn op_imm_result(ins: Instruction, a: u64) -> Option<u64> {
    let imm = imm_i(ins.raw);
    let sh = ins.shamt as u64;
    let f3 = ins.funct3;
    let f6 = ins.funct7 & 0x7e;
    if f3 == F3_ADD {
        Some(wrap64(a + imm))
    } else if f3 == F3_SLT {
        Some(flag(signed64(a) < imm))
    } else if f3 == F3_SLTU {
        Some(flag(a < wrap64(imm)))
    } else if f3 == F3_AND {
        Some(a & wrap64(imm))
    } else if f3 == F3_OR {
        Some(a | wrap64(imm))
    } else if f3 == F3_XOR {
        Some(a ^ wrap64(imm))
    } else if f3 == F3_SLL {
        Some(a << sh)
    } else if f3 == F3_SRL && f6 == F7_SRL {
        Some(a >> sh)
    } else if f3 == F3_SRA && f6 == F7_SRA {
        Some(sra64(a, sh))
    } else {
        None
    }
}

/// Word operations on a register and the I-type immediate, with the 32-bit
/// result sign-extended. Shifts take their amount from `shamtw`.
pub open spec fn op_imm_32_result(ins: Instruction, a: u64) -> Option<u64> {
    let sh = ins.shamtw as u64;
    let f3 = ins.funct3;
    let f7 = ins.funct7;
    if f3 == F3_ADD {
        Some(sext32(a + imm_i(ins.raw)))
    } else if f3 == F3_SLL {
        Some(sext32((a << sh) as int))
    } else if f3 == F3_SRL && f7 == F7_SRL {
        Some(sext32(((a % 0x1_0000_0000) as u64 >> sh) as int))
    } else if f3 == F3_SRA && f7 == F7_SRA {
        Some(sra64(sext32(a as int), sh))
    } else {
        None
    }
}

/// The wrapping operations of `u64` compute modulo 2^64.
pub proof fn lemma_wrapping(a: u64, b: u64)
    ensures
        a.wrapping_add(b) == wrap64(a + b),
        a.wrapping_sub(b) == wrap64(a - b),
        a.wrapping_mul(b) == wrap64(a * b),
{
    assert(a.wrapping_add(b) == wrap64(a + b)) by (bit_vector);
    assert(a.wrapping_sub(b) == wrap64(a - b)) by (bit_vector);
}

/// Adding a signed amount with wrapping computes modulo 2^64.
pub proof fn lemma_wrapping_signed(a: u64, i: i64)
    ensures
        a.wrapping_add_signed(i) == wrap64(a + i),
{
    assert(a.wrapping_add_signed(i) == wrap64(a + i)) by (bit_vector);
}

/// The register-register operation that `funct3` and `funct7` select.
pub fn alu_reg(funct3: i32, funct7: i32, a: u64, b: u64) -> (r: Option<u64>)
    ensures
        r == op_result(funct3, funct7, a, b),
{
    let sh = b & 0x3f;
    proof {
        assert(sh < 64) by (bit_vector)
            requires
                sh == b & 0x3f,
        ;
        lemma_signed64(a);
        lemma_signed64(b);
        lemma_wrapping(a, b);
    }
    if funct7 == F7_ADD {
        if funct3 == F3_ADD {
            Some(a.wrapping_add(b))
        } else if funct3 == F3_SLL {
            Some(a << sh)
        } else if funct3 == F3_SLT {
            Some(if (a as i64) < (b as i64) { 1 } else { 0 })
        } else if funct3 == F3_SLTU {
            Some(if a < b { 1 } else { 0 })
        } else if funct3 == F3_XOR {
            Some(a ^ b)
        } else if funct3 == F3_SRL {
            Some(a >> sh)
        } else if funct3 == F3_OR {
            Some(a | b)
        } else if funct3 == F3_AND {
            Some(a & b)
        } else {
            None
        }
    } else if funct7 == F7_SUB {
        if funct3 == F3_SUB {
            Some(a.wrapping_sub(b))
        } else if funct3 == F3_SRA {
            Some(shift_right_arithmetic(a, sh))
        } else {
            None
        }
    } else if funct7 == F7_MULDIV {
        if funct3 == F3_MUL {
            Some(a.wrapping_mul(b))
        } else if funct3 == F3_MULH {
            Some(mulh(a, b))
        } else if funct3 == F3_MULHSU {
            Some(mulhsu(a, b))
        } else if funct3 == F3_MULHU {
            Some(mulhu(a, b))
        } else if funct3 == F3_DIV {
            Some(div_signed(a, b).0)
        } else if funct3 == F3_DIVU {
            Some(div_unsigned(a, b).0)
        } else if funct3 == F3_REM {
            Some(div_signed(a, b).1)
        } else if funct3 == F3_REMU {
            Some(div_unsigned(a, b).1)
        } else {
            None
        }
    } else {
        None
    }
}

/// The register-register word operation that `funct3` and `funct7` select.
pub fn alu_reg_word(funct3: i32, funct7: i32, a: u64, b: u64) -> (r: Option<u64>)
    ensures
        r == op_32_result(funct3, funct7, a, b),
{
    let sh = b & 0x1f;
    let ua = a & 0xffff_ffff;
    let ub = b & 0xffff_ffff;
    proof {
        assert(sh < 32) by (bit_vector)
            requires
                sh == b & 0x1f,
        ;
        assert(ua == (a % 0x1_0000_0000) as u64) by (bit_vector)
            requires
                ua == a & 0xffff_ffff,
        ;
        assert(ub == (b % 0x1_0000_0000) as u64) by (bit_vector)
            requires
                ub == b & 0xffff_ffff,
        ;
        lemma_wrapping(a, b);
        lemma_sext32_wrap64(a + b);
        lemma_sext32_wrap64(a - b);
        lemma_sext32_wrap64(a * b);
    }
    if funct7 == F7_ADD {
        if funct3 == F3_ADD {
            Some(sign_extend_word(a.wrapping_add(b)))
        } else if funct3 == F3_SLL {
            Some(sign_extend_word(a << sh))
        } else if funct3 == F3_SRL {
            Some(sign_extend_word(ua >> sh))
        } else {
            None
        }
    } else if funct7 == F7_SUB {
        if funct3 == F3_SUB {
            Some(sign_extend_word(a.wrapping_sub(b)))
        } else if funct3 == F3_SRA {
            Some(shift_right_arithmetic(sign_extend_word(a), sh))
        } else {
            None
        }
    } else if funct7 == F7_MULDIV {
        if funct3 == F3_MULW {
            Some(sign_extend_word(a.wrapping_mul(b)))
        } else if funct3 == F3_DIVW {
            Some(sign_extend_word(div_signed(sign_extend_word(a), sign_extend_word(b)).0))
        } else if funct3 == F3_DIVUW {
            Some(sign_extend_word(div_unsigned(ua, ub).0))
        } else if funct3 == F3_REMW {
            Some(sign_extend_word(div_signed(sign_extend_word(a), sign_extend_word(b)).1))
        } else if funct3 == F3_REMUW {
            Some(sign_extend_word(div_unsigned(ua, ub).1))
        } else {
            None
        }
    } else {
        None
    }
}

/// The register-immediate operation that `ins` selects, on `a`.
pub fn alu_imm(ins: &Instruction, a: u64) -> (r: Option<u64>)
    requires
        ins.wf(),
    ensures
        r == op_imm_result(*ins, a),
{
    let imm = ins.immediate_i();
    let uimm = ins.immediate_i_unsigned();
    let f3 = ins.funct3;
    let f6 = ins.funct7 & 0x7e;
    let raw = ins.raw;
    proof {
        assert(0 <= (raw >> 20) & 0x3f < 64) by (bit_vector);
        lemma_signed64(a);
        lemma_wrapping_signed(a, imm);
    }
    let sh = ins.shamt as u64;
    if f3 == F3_ADD {
        Some(a.wrapping_add_signed(imm))
    } else if f3 == F3_SLT {
        Some(if (a as i64) < imm { 1 } else { 0 })
    } else if f3 == F3_SLTU {
        Some(if a < uimm { 1 } else { 0 })
    } else if f3 == F3_AND {
        Some(a & uimm)
    } else if f3 == F3_OR {
        Some(a | uimm)
    } else if f3 == F3_XOR {
        Some(a ^ uimm)
    } else if f3 == F3_SLL {
        Some(a << sh)
    } else if f3 == F3_SRL && f6 == F7_SRL {
        Some(a >> sh)
    } else if f3 == F3_SRA && f6 == F7_SRA {
        Some(shift_right_arithmetic(a, sh))
    } else {
        None
    }
}

/// The register-immediate word operation that `ins` selects, on `a`.
pub fn alu_imm_word(ins: &Instruction, a: u64) -> (r: Option<u64>)
    requires
        ins.wf(),
    ensures
        r == op_imm_32_result(*ins, a),
{
    let imm = ins.immediate_i();
    let f3 = ins.funct3;
    let f7 = ins.funct7;
    let raw = ins.raw;
    proof {
        assert(0 <= (raw >> 20) & 0x1f < 32) by (bit_vector);
        lemma_wrapping_signed(a, imm);
        lemma_sext32_wrap64(a + imm);
    }
    let sh = ins.shamtw as u64;
    let ua = a & 0xffff_ffff;
    proof {
        assert(ua == (a % 0x1_0000_0000) as u64) by (bit_vector)
            requires
                ua == a & 0xffff_ffff,
        ;
    }
    if f3 == F3_ADD {
        Some(sign_extend_word(a.wrapping_add_signed(imm)))
    } else if f3 == F3_SLL {
        Some(sign_extend_word(a << sh))
    } else if f3 == F3_SRL && f7 == F7_SRL {
        Some(sign_extend_word(ua >> sh))
    } else if f3 == F3_SRA && f7 == F7_SRA {
        Some(shift_right_arithmetic(sign_extend_word(a), sh))
    } else {
        None
    }
}

/// Division by zero does not trap: the quotient is all ones and the
/// remainder is the dividend, in the 64-bit forms and in the word forms
/// (where the divisor is zero when its low 32 bits are, and the dividend is
/// the sign-extended low word).
pub proof fn lemma_division_by_zero(a: u64, b: u64)
    ensures
        op_result(F3_DIV, F7_MULDIV, a, 0) == Some(u64::MAX),
        op_result(F3_DIVU, F7_MULDIV, a, 0) == Some(u64::MAX),
        op_result(F3_REM, F7_MULDIV, a, 0) == Some(a),
        op_result(F3_REMU, F7_MULDIV, a, 0) == Some(a),
        b % 0x1_0000_0000 == 0 ==> op_32_result(F3_DIVW, F7_MULDIV, a, b) == Some(u64::MAX),
        b % 0x1_0000_0000 == 0 ==> op_32_result(F3_DIVUW, F7_MULDIV, a, b) == Some(u64::MAX),
        b % 0x1_0000_0000 == 0 ==> op_32_result(F3_REMW, F7_MULDIV, a, b) == Some(
            sext32(a as int),
        ),
        b % 0x1_0000_0000 == 0 ==> op_32_result(F3_REMUW, F7_MULDIV, a, b) == Some(
            sext32(a as int),
        ),
{
    assert(sext32(u64::MAX as int) == u64::MAX) by (bit_vector);
    assert(sext32(sext32(a as int) as int) == sext32(a as int)) by (bit_vector);
    assert(sext32((a % 0x1_0000_0000) as int) == sext32(a as int)) by (bit_vector);
    assert(b % 0x1_0000_0000 == 0 ==> sext32(b as int) == 0) by (bit_vector);
}

} // verus!
