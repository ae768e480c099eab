//! The memory bus: a flat, byte-addressable memory with little-endian
//! loads and stores of 1, 2, 4 and 8 bytes.

use vstd::arithmetic::div_mod::{lemma_div_denominator, lemma_mod_breakdown};
use vstd::arithmetic::power2::{lemma2_to64, lemma2_to64_rest, lemma_pow2_adds, lemma_pow2_pos, pow2};
use vstd::prelude::*;

verus! {

/// The unsigned value of `bytes` read little-endian: the first byte is the
/// least significant.
pub open spec fn le_value(bytes: Seq<u8>) -> nat
    decreases bytes.len(),
{
    if bytes.len() == 0 {
        0
    } else {
        (bytes[0] + 256 * le_value(bytes.drop_first())) as nat
    }
}

/// The `n` little-endian bytes of `v`: byte `k` holds bits `8k .. 8k + 7`.
pub open spec fn le_bytes(v: nat, n: nat) -> Seq<u8> {
    Seq::new(n, |k: int| ((v / pow2(8 * k as nat)) % 256) as u8)
}

/// `mem` with the bytes starting at `addr` replaced by `bytes`.
pub open spec fn overwrite(mem: Seq<u8>, addr: int, bytes: Seq<u8>) -> Seq<u8> {
    Seq::new(
        mem.len(),
        |i: int|
            if addr <= i < addr + bytes.len() {
                bytes[i - addr]
            } else {
                mem[i]
            },
    )
}

/// A width in bytes that the bus reads and writes in one access.
pub open spec fn is_access_width(width: nat) -> bool {
    width == 1 || width == 2 || width == 4 || width == 8
}

/// `n` bytes hold a value below 2^(8n).
pub proof fn lemma_le_value_bound(bytes: Seq<u8>)
    ensures
        le_value(bytes) < pow2(8 * bytes.len()),
    decreases bytes.len(),
{
    lemma2_to64();
    if bytes.len() > 0 {
        let rest = bytes.drop_first();
        lemma_le_value_bound(rest);
        lemma_pow2_adds(8, 8 * rest.len());
        assert(8 + 8 * rest.len() == 8 * bytes.len());
        assert(bytes[0] + 256 * le_value(rest) < 256 * pow2(8 * rest.len())) by (nonlinear_arith)
            requires
                bytes[0] < 256,
                le_value(rest) < pow2(8 * rest.len()),
        ;
    }
}

/// Reading back the `n` little-endian bytes of `v` gives `v` modulo 2^(8n).
proof fn lemma_le_round_trip(v: nat, n: nat)
    ensures
        le_value(le_bytes(v, n)) == v % pow2(8 * n),
    decreases n,
{
    lemma2_to64();
    if n == 0 {
        assert(v % 1 == 0);
    } else {
        let s = le_bytes(v, n);
        let rest = le_bytes(v / 256, (n - 1) as nat);
        assert forall|k: int| 0 <= k < n - 1 implies s.drop_first()[k] == rest[k] by {
            lemma_pow2_adds(8, 8 * k as nat);
            assert(8 * (k + 1) as nat == 8 + 8 * k as nat);
            lemma_pow2_pos(8 * k as nat);
            lemma_div_denominator(v as int, 256, pow2(8 * k as nat) as int);
        }
        assert(s.drop_first() =~= rest);
        lemma_le_round_trip(v / 256, (n - 1) as nat);
        lemma_pow2_adds(8, 8 * (n - 1) as nat);
        assert(8 + 8 * (n - 1) as nat == 8 * n);
        lemma_pow2_pos(8 * (n - 1) as nat);
        lemma_mod_breakdown(v as int, 256, pow2(8 * (n - 1) as nat) as int);
        assert(v / 1 == v);
        assert(s[0] == v % 256);
        assert(le_value(s) == s[0] + 256 * le_value(s.drop_first()));
    }
}

/// Storing a value of `width` bytes and loading the same bytes back gives
/// the value's low `8 * width` bits; for eight bytes, the value itself.
pub proof fn lemma_store_load_round_trip(mem: Seq<u8>, addr: int, v: u64, width: nat)
    requires
        is_access_width(width),
        0 <= addr,
        addr + width <= mem.len(),
    ensures
        le_value(overwrite(mem, addr, le_bytes(v as nat, width)).subrange(addr, addr + width))
            == v as nat % pow2(8 * width),
        width == 8 ==> le_value(
            overwrite(mem, addr, le_bytes(v as nat, width)).subrange(addr, addr + width),
        ) == v,
{
    let stored = overwrite(mem, addr, le_bytes(v as nat, width));
    assert(stored.subrange(addr, addr + width) =~= le_bytes(v as nat, width));
    lemma_le_round_trip(v as nat, width);
    lemma2_to64();
    if width == 8 {
        vstd::arithmetic::div_mod::lemma_small_mod(v as nat, pow2(64));
    }
}

/// Stores are little-endian: after a store of `width` bytes of `v` at
/// `addr`, the byte at `addr + k` holds bits `8k .. 8k + 7` of `v`, and
/// every byte outside the stored range is unchanged.
pub proof fn lemma_store_little_endian(mem: Seq<u8>, addr: int, v: u64, width: nat, k: int)
    requires
        is_access_width(width),
        0 <= addr,
        addr + width <= mem.len(),
        0 <= k < width,
    ensures
        overwrite(mem, addr, le_bytes(v as nat, width))[addr + k] == (v as nat / pow2(
            8 * k as nat,
        )) % 256,
        forall|i: int|
            0 <= i < mem.len() && !(addr <= i < addr + width) ==> #[trigger] overwrite(
                mem,
                addr,
                le_bytes(v as nat, width),
            )[i] == mem[i],
{
}

/// The memory of a simulated machine: a fixed number of bytes, all of
/// which can be read and written.
#[derive(Debug)]
pub struct Bus {
    pub memory: Vec<u8>,
}

impl Bus {
    /// The bytes of memory.
    pub open spec fn bytes(&self) -> Seq<u8> {
        self.memory@
    }

    /// Whether `width` bytes starting at `addr` all lie inside the memory.
    pub open spec fn in_bounds(&self, addr: int, width: int) -> bool {
        0 <= addr && addr + width <= self.memory@.len()
    }

    /// Creates a bus of `memory_size` bytes, all zero.
    pub fn new(memory_size: usize) -> (bus: Bus)
        ensures
            bus.memory@ == Seq::new(memory_size as nat, |i: int| 0u8),
    {
        let mut memory: Vec<u8> = Vec::new();
        let mut i: usize = 0;
        while i < memory_size
            invariant
                i <= memory_size,
                memory@ == Seq::new(i as nat, |k: int| 0u8),
            decreases memory_size - i,
        {
            memory.push(0);
            i = i + 1;
            assert(memory@ =~= Seq::new(i as nat, |k: int| 0u8));
        }
        Bus { memory }
    }

    fn load_le(&self, addr: u64, width: u64) -> (r: u64)
        requires
            1 <= width <= 8,
            self.in_bounds(addr as int, width as int),
        ensures
            r == le_value(self.memory@.subrange(addr as int, addr + width)),
    {
        let ghost mem = self.memory@;
        let len = self.memory.len();
        let base = addr as usize;
        let mut k: usize = width as usize;
        let mut acc: u64 = 0;
        proof {
            lemma2_to64();
            assert(mem.subrange(addr + width, addr + width) =~= Seq::<u8>::empty());
        }
        while k > 0
            invariant
                k <= width <= 8,
                base == addr,
                len == mem.len(),
                addr + width <= mem.len(),
                mem == self.memory@,
                acc == le_value(mem.subrange(addr + k, addr + width)),
            decreases k,
        {
            let ghost tail = mem.subrange(addr + k, addr + width);
            let ghost longer = mem.subrange(addr + k - 1, addr + width);
            proof {
                assert(longer.drop_first() =~= tail);
                lemma_le_value_bound(tail);
                assert(tail.len() <= 7);
                lemma2_to64_rest();
                if tail.len() < 7 {
                    vstd::arithmetic::power2::lemma_pow2_strictly_increases(
                        8 * tail.len(),
                        56,
                    );
                }
                assert(acc < 0x100_0000_0000_0000);
                assert(acc * 256 + 255 <= u64::MAX) by (nonlinear_arith)
                    requires
                        acc < 0x100_0000_0000_0000,
                ;
            }
            let byte = self.memory[base + k - 1];
            acc = acc * 256 + byte as u64;
            k = k - 1;
        }
        proof {
            assert(mem.subrange(addr as int, addr + width) =~= mem.subrange(addr + 0, addr + width));
        }
        acc
    }

    fn store_le(&mut self, addr: u64, width: u64, value: u64)
        requires
            1 <= width <= 8,
            old(self).in_bounds(addr as int, width as int),
        ensures
            final(self).memory@ == overwrite(
                old(self).memory@,
                addr as int,
                le_bytes(value as nat, width as nat),
            ),
    {
        let ghost mem = self.memory@;
        let ghost bytes = le_bytes(value as nat, width as nat);
        let len = self.memory.len();
        let base = addr as usize;
        let mut k: usize = 0;
        let mut rest: u64 = value;
        proof {
            lemma2_to64();
            assert(value as nat / 1 == value as nat);
        }
        while k < width as usize
            invariant
                k <= width <= 8,
                base == addr,
                len == mem.len(),
                addr + width <= mem.len(),
                bytes == le_bytes(value as nat, width as nat),
                rest == value as nat / pow2(8 * k as nat),
                self.memory@.len() == mem.len(),
                forall|i: int|
                    0 <= i < mem.len() ==> #[trigger] self.memory@[i] == if addr <= i < addr + k {
                        bytes[i - addr]
                    } else {
                        mem[i]
                    },
            decreases width - k,
        {
            proof {
                lemma_pow2_adds(8 * k as nat, 8);
                assert(8 * (k + 1) as nat == 8 * k as nat + 8);
                lemma_pow2_pos(8 * k as nat);
                lemma2_to64();
                lemma_div_denominator(value as int, pow2(8 * k as nat) as int, 256);
            }
            self.memory.set(base + k, (rest % 256) as u8);
            rest = rest / 256;
            k = k + 1;
        }
        proof {
            assert(self.memory@ =~= overwrite(mem, addr as int, bytes));
        }
    }

    /// Copies `bytes` into memory starting at `addr`.
    pub fn store_bytes(&mut self, addr: u64, bytes: &[u8])
        requires
            old(self).in_bounds(addr as int, bytes@.len() as int),
        ensures
            final(self).memory@ == overwrite(old(self).memory@, addr as int, bytes@),
    {
        let ghost mem = self.memory@;
        let len = self.memory.len();
        let base = addr as usize;
        let n = bytes.len();
        let mut k: usize = 0;
        while k < n
            invariant
                k <= n == bytes@.len(),
                base == addr,
                len == mem.len(),
                addr + n <= mem.len(),
                self.memory@.len() == mem.len(),
                forall|i: int|
                    0 <= i < mem.len() ==> #[trigger] self.memory@[i] == if addr <= i < addr + k {
                        bytes@[i - addr]
                    } else {
                        mem[i]
                    },
            decreases n - k,
        {
            self.memory.set(base + k, bytes[k]);
            k = k + 1;
        }
        proof {
            assert(self.memory@ =~= overwrite(mem, addr as int, bytes@));
        }
    }

    /// The byte at `addr`.
    pub fn load8(&self, addr: u64) -> (r: u64)
        requires
            self.in_bounds(addr as int, 1),
        ensures
            r == le_value(self.memory@.subrange(addr as int, addr + 1)),
            r == self.memory@[addr as int],
    {
        let r = self.load_le(addr, 1);
        proof {
            let s = self.memory@.subrange(addr as int, addr + 1);
            assert(s.drop_first().len() == 0);
            assert(le_value(s.drop_first()) == 0);
            assert(s[0] == self.memory@[addr as int]);
        }
        r
    }

    /// The two bytes at `addr`, read little-endian.
    pub fn load16(&self, addr: u64) -> (r: u64)
        requires
            self.in_bounds(addr as int, 2),
        ensures
            r == le_value(self.memory@.subrange(addr as int, addr + 2)),
    {
        self.load_le(addr, 2)
    }

    /// The four bytes at `addr`, read little-endian.
    pub fn load32(&self, addr: u64) -> (r: u64)
        requires
            self.in_bounds(addr as int, 4),
        ensures
            r == le_value(self.memory@.subrange(addr as int, addr + 4)),
    {
        self.load_le(addr, 4)
    }

    /// The eight bytes at `addr`, read little-endian.
    pub fn load64(&self, addr: u64) -> (r: u64)
        requires
            self.in_bounds(addr as int, 8),
        ensures
            r == le_value(self.memory@.subrange(addr as int, addr + 8)),
    {
        self.load_le(addr, 8)
    }

    /// Writes the low byte of `value` at `addr`.
    pub fn store8(&mut self, addr: u64, value: u64)
        requires
            old(self).in_bounds(addr as int, 1),
        ensures
            final(self).memory@ == overwrite(old(self).memory@, addr as int, le_bytes(value as nat, 1)),
    {
        self.store_le(addr, 1, value)
    }

    /// Writes the low two bytes of `value` at `addr`, little-endian.
    pub fn store16(&mut self, addr: u64, value: u64)
        requires
            old(self).in_bounds(addr as int, 2),
        ensures
            final(self).memory@ == overwrite(old(self).memory@, addr as int, le_bytes(value as nat, 2)),
    {
        self.store_le(addr, 2, value)
    }

    /// Writes the low four bytes of `value` at `addr`, little-endian.
    pub fn store32(&mut self, addr: u64, value: u64)
        requires
            old(self).in_bounds(addr as int, 4),
        ensures
            final(self).memory@ == overwrite(old(self).memory@, addr as int, le_bytes(value as nat, 4)),
    {
        self.store_le(addr, 4, value)
    }

    /// Writes the eight bytes of `value` at `addr`, little-endian.
    pub fn store64(&mut self, addr: u64, value: u64)
        requires
            old(self).in_bounds(addr as int, 8),
        ensures
            final(self).memory@ == overwrite(old(self).memory@, addr as int, le_bytes(value as nat, 8)),
    {
        self.store_le(addr, 8, value)
    }
}

} // verus!
