//! The instruction decoder: the fixed bit fields of a 32-bit instruction
//! word and its five kinds of immediate.

use vstd::arithmetic::power2::{lemma2_to64, pow2};
use vstd::prelude::*;

verus! {

/// The value of the `width`-bit two's complement number whose bits are `v`.
pub open spec fn sign_extend(v: u32, width: nat) -> int {
    if v < pow2((width - 1) as nat) {
        v as int
    } else {
        v - pow2(width)
    }
}

/// The register value that holds the integer `x`, that is `x` modulo 2^64.
pub open spec fn wrap64(x: int) -> u64 {
    (x % 0x1_0000_0000_0000_0000) as u64
}

/// I-type: word bits 31..20 are immediate bits 11..0.
pub open spec fn imm_i_bits(w: u32) -> u32 {
    w >> 20
}

/// S-type: word bits 31..25 are immediate bits 11..5, word bits 11..7 are
/// immediate bits 4..0.
pub open spec fn imm_s_bits(w: u32) -> u32 {
    ((w >> 25) & 0x7f) << 5 | ((w >> 7) & 0x1f)
}

/// B-type: word bit 31 is immediate bit 12, bit 7 is bit 11, bits 30..25 are
/// bits 10..5, bits 11..8 are bits 4..1; immediate bit 0 is zero.
pub open spec fn imm_b_bits(w: u32) -> u32 {
    ((w >> 31) & 0x1) << 12 | ((w >> 7) & 0x1) << 11 | ((w >> 25) & 0x3f) << 5 | ((w >> 8) & 0xf)
        << 1
}

/// U-type: word bits 31..12 are immediate bits 31..12; the low twelve bits
/// are zero.
pub open spec fn imm_u_bits(w: u32) -> u32 {
    w & 0xffff_f000
}

/// J-type: word bit 31 is immediate bit 20, bits 19..12 are bits 19..12,
/// bit 20 is bit 11, bits 30..21 are bits 10..1; immediate bit 0 is zero.
pub open spec fn imm_j_bits(w: u32) -> u32 {
    ((w >> 31) & 0x1) << 20 | ((w >> 12) & 0xff) << 12 | ((w >> 20) & 0x1) << 11 | ((w >> 21)
        & 0x3ff) << 1
}

/// The I-type immediate of `raw`: twelve bits, sign-extended.
pub open spec fn imm_i(raw: i32) -> int {
    sign_extend(imm_i_bits(raw as u32), 12)
}

/// The S-type immediate of `raw`: twelve bits, sign-extended.
pub open spec fn imm_s(raw: i32) -> int {
    sign_extend(imm_s_bits(raw as u32), 12)
}

/// The B-type immediate of `raw`: thirteen bits, sign-extended.
pub open spec fn imm_b(raw: i32) -> int {
    sign_extend(imm_b_bits(raw as u32), 13)
}

/// The U-type immediate of `raw`: thirty-two bits, sign-extended.
pub open spec fn imm_u(raw: i32) -> int {
    sign_extend(imm_u_bits(raw as u32), 32)
}

/// The J-type immediate of `raw`: twenty-one bits, sign-extended.
pub open spec fn imm_j(raw: i32) -> int {
    sign_extend(imm_j_bits(raw as u32), 21)
}

/// The record that `decode` makes of `data`.
pub open spec fn decoded(data: i32) -> Instruction {
    Instruction {
        raw: data,
        size: 4,
        opcode: data & 0x7f,
        rd: (data >> 7) & 0x1f,
        funct3: (data >> 12) & 0x7,
        rs1: (data >> 15) & 0x1f,
        rs2: (data >> 20) & 0x1f,
        funct7: (data >> 25) & 0x7f,
        shamt: (data >> 20) & 0x3f,
        shamtw: (data >> 20) & 0x1f,
    }
}

/// Branch and jump offsets are even: instructions are at least two-byte
/// aligned, so their lowest bit is never encoded.
pub proof fn lemma_offsets_even(raw: i32)
    ensures
        imm_b(raw) % 2 == 0,
        imm_j(raw) % 2 == 0,
{
    let w = raw as u32;
    lemma2_to64();
    assert(imm_b_bits(w) % 2 == 0 && imm_b_bits(w) < 0x2000) by (bit_vector);
    assert(imm_j_bits(w) % 2 == 0 && imm_j_bits(w) < 0x20_0000) by (bit_vector);
}

/// Every field of a decoded instruction lies in the range of its bits.
pub proof fn lemma_fields_in_range(ins: Instruction)
    requires
        ins.wf(),
    ensures
        0 <= ins.opcode < 128,
        0 <= ins.rd < 32,
        0 <= ins.funct3 < 8,
        0 <= ins.rs1 < 32,
        0 <= ins.rs2 < 32,
        0 <= ins.funct7 < 128,
        0 <= ins.shamt < 64,
        0 <= ins.shamtw < 32,
        ins.size == 4,
{
    let data = ins.raw;
    assert(0 <= data & 0x7f < 128) by (bit_vector);
    assert(0 <= (data >> 7) & 0x1f < 32) by (bit_vector);
    assert(0 <= (data >> 12) & 0x7 < 8) by (bit_vector);
    assert(0 <= (data >> 15) & 0x1f < 32) by (bit_vector);
    assert(0 <= (data >> 20) & 0x1f < 32) by (bit_vector);
    assert(0 <= (data >> 25) & 0x7f < 128) by (bit_vector);
    assert(0 <= (data >> 20) & 0x3f < 64) by (bit_vector);
}

/// A decoded instruction word: its fixed bit fields, with the immediates
/// computed from `raw` on demand.
#[derive(Debug, Clone, Copy, PartialEq, Eq, Structural)]
pub struct Instruction {
    pub raw: i32,
    pub size: u64,
    pub opcode: i32,
    pub rd: i32,
    pub rs1: i32,
    pub rs2: i32,
    pub funct3: i32,
    pub funct7: i32,
    pub shamt: i32,
    pub shamtw: i32,
}

impl Instruction {
    /// Whether every field holds what `decoded` gives for `raw`.
    pub open spec fn wf(&self) -> bool {
        *self == decoded(self.raw)
    }

    /// Splits `data` into its fields. Every word decodes: whether the
    /// fields name an instruction is decided when it is executed.
    pub fn decode(data: i32) -> (r: Instruction)
        ensures
            r == decoded(data),
            r.wf(),
            0 <= r.opcode < 128,
            0 <= r.rd < 32,
            0 <= r.funct3 < 8,
            0 <= r.rs1 < 32,
            0 <= r.rs2 < 32,
            0 <= r.funct7 < 128,
            0 <= r.shamt < 64,
            0 <= r.shamtw < 32,
    {
        proof {
            lemma_fields_in_range(decoded(data));
        }
        Instruction {
            raw: data,
            size: 4,
            opcode: data & 0x7f,
            rd: (data >> 7) & 0x1f,
            funct3: (data >> 12) & 0x7,
            rs1: (data >> 15) & 0x1f,
            rs2: (data >> 20) & 0x1f,
            funct7: (data >> 25) & 0x7f,
            shamt: (data >> 20) & 0x3f,
            shamtw: (data >> 20) & 0x1f,
        }
    }

    /// The control and status register number: word bits 31..20, unsigned.
    pub fn csr(&self) -> (r: u64)
        ensures
            r == imm_i_bits(self.raw as u32),
            r < 0x1000,
    {
        let w = self.raw as u32;
        proof {
            assert(w >> 20 < 0x1000) by (bit_vector);
        }
        (w >> 20) as u64
    }

    /// The I-type immediate.
    pub fn immediate_i(&self) -> (r: i64)
        ensures
            r as int == imm_i(self.raw),
    {
        let w = self.raw as u32;
        let v = w >> 20;
        proof {
            lemma2_to64();
            assert(v < 0x1000) by (bit_vector)
                requires
                    v == w >> 20,
            ;
        }
        if v >= 0x800 {
            v as i64 - 0x1000
        } else {
            v as i64
        }
    }

    /// The U-type immediate.
    pub fn immediate_u(&self) -> (r: i64)
        ensures
            r as int == imm_u(self.raw),
    {
        let v = self.raw as u32 & 0xffff_f000;
        proof {
            lemma2_to64();
        }
        if v >= 0x8000_0000 {
            v as i64 - 0x1_0000_0000
        } else {
            v as i64
        }
    }

    /// The S-type immediate.
    pub fn immediate_s(&self) -> (r: i64)
        ensures
            r as int == imm_s(self.raw),
    {
        let w = self.raw as u32;
        let v = ((w >> 25) & 0x7f) << 5 | ((w >> 7) & 0x1f);
        proof {
            lemma2_to64();
            assert(v < 0x1000) by (bit_vector)
                requires
                    v == ((w >> 25) & 0x7f) << 5 | ((w >> 7) & 0x1f),
            ;
        }
        if v >= 0x800 {
            v as i64 - 0x1000
        } else {
            v as i64
        }
    }

    /// The B-type immediate: a branch offset, always even.
    pub fn immediate_b(&self) -> (r: i64)
        ensures
            r as int == imm_b(self.raw),
            r % 2 == 0,
    {
        let w = self.raw as u32;
        let v = ((w >> 31) & 0x1) << 12 | ((w >> 7) & 0x1) << 11 | ((w >> 25) & 0x3f) << 5 | ((w
            >> 8) & 0xf) << 1;
        proof {
            lemma2_to64();
            assert(v == imm_b_bits(w));
            lemma_offsets_even(self.raw);
            assert(v < 0x2000) by (bit_vector)
                requires
                    v == imm_b_bits(w),
            ;
        }
        if v >= 0x1000 {
            v as i64 - 0x2000
        } else {
            v as i64
        }
    }

    /// The J-type immediate: a jump offset, always even.
    pub fn immediate_j(&self) -> (r: i64)
        ensures
            r as int == imm_j(self.raw),
            r % 2 == 0,
    {
        let w = self.raw as u32;
        let v = ((w >> 31) & 0x1) << 20 | ((w >> 12) & 0xff) << 12 | ((w >> 20) & 0x1) << 11 | ((
        w >> 21) & 0x3ff) << 1;
        proof {
            lemma2_to64();
            assert(v == imm_j_bits(w));
            lemma_offsets_even(self.raw);
            assert(v < 0x20_0000) by (bit_vector)
                requires
                    v == imm_j_bits(w),
            ;
        }
        if v >= 0x10_0000 {
            v as i64 - 0x20_0000
        } else {
            v as i64
        }
    }

    /// The I-type immediate as a register value (two's complement).
    pub fn immediate_i_unsigned(&self) -> (r: u64)
        ensures
            r == wrap64(imm_i(self.raw)),
    {
        let i = self.immediate_i();
        proof {
            assert(i as u64 == wrap64(i as int)) by (bit_vector);
        }
        i as u64
    }

    /// The U-type immediate as a register value (two's complement).
    pub fn immediate_u_unsigned(&self) -> (r: u64)
        ensures
            r == wrap64(imm_u(self.raw)),
    {
        let i = self.immediate_u();
        proof {
            assert(i as u64 == wrap64(i as int)) by (bit_vector);
        }
        i as u64
    }
}

} // verus!
