use vstd::prelude::*;
use vstd::arithmetic::power2::{pow2, lemma_pow2_unfold, lemma2_to64};
use crate::error::Error;

verus! {

/// Bit `i` of `bytes`, counting from the most significant bit of the first byte.
pub open spec fn bit_at(bytes: Seq<u8>, i: int) -> nat {
    ((bytes[i / 8] >> ((7 - i % 8) as u8)) & 1u8) as nat
}

/// The `n` bits of `bytes` starting at bit `pos`, read as a big-endian unsigned number.
pub open spec fn bits_value(bytes: Seq<u8>, pos: int, n: nat) -> nat
    decreases n,
{
    if n == 0 {
        0
    } else {
        2 * bits_value(bytes, pos, (n - 1) as nat) + bit_at(bytes, pos + n - 1)
    }
}

/// The two's-complement reading of an `n`-bit unsigned value `v`.
pub open spec fn to_signed(v: nat, n: nat) -> int {
    if n > 0 && v >= pow2((n - 1) as nat) {
        v - pow2(n)
    } else {
        v as int
    }
}

/// The `n` bits of `bytes` starting at bit `pos`, read as a two's-complement number.
pub open spec fn signed_bits_value(bytes: Seq<u8>, pos: int, n: nat) -> int {
    to_signed(bits_value(bytes, pos, n), n)
}

/// An `n`-bit value is below `2^n`.
pub proof fn lemma_bits_value_bound(bytes: Seq<u8>, pos: int, n: nat)
    ensures
        bits_value(bytes, pos, n) < pow2(n),
    decreases n,
{
    if n == 0 {
        lemma2_to64();
    } else {
        lemma_bits_value_bound(bytes, pos, (n - 1) as nat);
        lemma_pow2_unfold(n);
        assert(bit_at(bytes, pos + n - 1) <= 1) by {
            let b = bytes[(pos + n - 1) / 8] >> ((7 - (pos + n - 1) % 8) as u8);
            assert(b & 1u8 <= 1u8) by (bit_vector);
        }
    }
}

/// What a cursor stands for: the whole byte source and the number of bits already read.
pub ghost struct CursorView {
    pub bytes: Seq<u8>,
    pub pos: nat,
}

impl CursorView {
    /// Whether `n` more bits can be read.
    pub open spec fn has_bits(self, n: nat) -> bool {
        self.pos + n <= 8 * self.bytes.len()
    }
}

/// A big-endian bit reader over an owned byte source, with no alignment assumption.
pub struct BitCursor {
    data: Vec<u8>,
    byte_pos: usize,
    bit_pos: u8,
}

impl View for BitCursor {
    type V = CursorView;

    closed spec fn view(&self) -> CursorView {
        CursorView { bytes: self.data@, pos: (self.byte_pos * 8 + self.bit_pos) as nat }
    }
}

impl BitCursor {
    /// The cursor's byte offset and bit offset describe a position inside the source.
    pub closed spec fn wf(&self) -> bool {
        &&& self.bit_pos < 8
        &&& self.byte_pos <= self.data.len()
        &&& self.byte_pos == self.data.len() ==> self.bit_pos == 0
    }

    pub proof fn lemma_wf(&self)
        requires
            self.wf(),
        ensures
            self@.pos <= 8 * self@.bytes.len(),
    {
    }

    /// A cursor at the first bit of `data`.
    pub fn new(data: Vec<u8>) -> (c: Self)
        ensures
            c.wf(),
            c@.bytes == data@,
            c@.pos == 0,
    {
        BitCursor { data, byte_pos: 0, bit_pos: 0 }
    }

    /// Reads one bit; the caller has checked that one remains.
    fn read_bit(&mut self) -> (b: u64)
        requires
            old(self).wf(),
            old(self)@.has_bits(1),
        ensures
            final(self).wf(),
            final(self)@.bytes == old(self)@.bytes,
            final(self)@.pos == old(self)@.pos + 1,
            b == bit_at(old(self)@.bytes, old(self)@.pos as int),
            b <= 1,
    {
        let ghost pos = self@.pos as int;
        let byte = self.data[self.byte_pos];
        let shift = 7 - self.bit_pos;
        let b = (byte >> shift) & 1u8;
        assert(pos / 8 == self.byte_pos && pos % 8 == self.bit_pos) by {
            vstd::arithmetic::div_mod::lemma_fundamental_div_mod_converse(
                pos, 8, self.byte_pos as int, self.bit_pos as int);
        }
        assert(b <= 1) by (bit_vector)
            requires
                b == (byte >> shift) & 1u8,
        ;
        if self.bit_pos == 7 {
            self.bit_pos = 0;
            self.byte_pos = self.byte_pos + 1;
        } else {
            self.bit_pos = self.bit_pos + 1;
        }
        b as u64
    }

    /// Reads the next `n` bits as a big-endian unsigned number. When fewer than
    /// `n` bits remain, fails with `EndOfStream` and leaves the cursor where it was.
    pub fn read_unsigned(&mut self, n: u32) -> (r: Result<u32, Error>)
        requires
            old(self).wf(),
            1 <= n <= 32,
        ensures
            final(self).wf(),
            final(self)@.bytes == old(self)@.bytes,
            old(self)@.has_bits(n as nat) ==> r == Ok::<u32, Error>(
                bits_value(old(self)@.bytes, old(self)@.pos as int, n as nat) as u32)
                && final(self)@.pos == old(self)@.pos + n
                && bits_value(old(self)@.bytes, old(self)@.pos as int, n as nat) < pow2(n as nat),
            !old(self)@.has_bits(n as nat) ==> r == Err::<u32, Error>(Error::EndOfStream)
                && final(self)@ == old(self)@,
    {
        let ghost start = self@;
        if !self.has_bits(n) {
            return Err(Error::EndOfStream);
        }
        let mut v: u64 = 0;
        let mut p: u64 = 1;
        let mut k: u32 = 0;
        proof {
            lemma2_to64();
        }
        while k < n
            invariant
                self.wf(),
                self@.bytes == start.bytes,
                start.has_bits(n as nat),
                k <= n <= 32,
                self@.pos == start.pos + k,
                v == bits_value(start.bytes, start.pos as int, k as nat),
                p == pow2(k as nat),
                v < p,
                p <= 0x1_0000_0000,
            decreases n - k,
        {
            let b = self.read_bit();
            proof {
                lemma_pow2_unfold((k + 1) as nat);
                if k + 1 < 32 {
                    vstd::arithmetic::power2::lemma_pow2_strictly_increases((k + 1) as nat, 32);
                }
                lemma2_to64();
            }
            v = 2 * v + b;
            p = 2 * p;
            k = k + 1;
        }
        Ok(v as u32)
    }

    /// Reads the next `n` bits as a two's-complement number. When fewer than
    /// `n` bits remain, fails with `EndOfStream` and leaves the cursor where it was.
    pub fn read_signed(&mut self, n: u32) -> (r: Result<i32, Error>)
        requires
            old(self).wf(),
            1 <= n <= 32,
        ensures
            final(self).wf(),
            final(self)@.bytes == old(self)@.bytes,
            old(self)@.has_bits(n as nat) ==> r == Ok::<i32, Error>(
                signed_bits_value(old(self)@.bytes, old(self)@.pos as int, n as nat) as i32)
                && final(self)@.pos == old(self)@.pos + n,
            !old(self)@.has_bits(n as nat) ==> r == Err::<i32, Error>(Error::EndOfStream)
                && final(self)@ == old(self)@,
    {
        let ghost start = self@;
        let u = self.read_unsigned(n)?;
        let ghost v = bits_value(start.bytes, start.pos as int, n as nat);
        proof {
            lemma_pow2_unfold(n as nat);
            if n < 32 {
                vstd::arithmetic::power2::lemma_pow2_strictly_increases(n as nat, 32);
            }
            lemma2_to64();
        }
        let half: u64 = 1u64 << (n - 1);
        assert(half == pow2((n - 1) as nat)) by {
            vstd::bits::lemma_u64_shl_is_mul(1, (n - 1) as u64);
            vstd::arithmetic::power2::lemma_pow2((n - 1) as nat);
            vstd::arithmetic::power::lemma_pow1(2);
        }
        if (u as u64) >= half {
            Ok(((u as u64) as i64 - 2 * (half as i64)) as i32)
        } else {
            Ok(u as i32)
        }
    }

    /// Whether at least `n` more bits can be read.
    pub fn has_bits(&self, n: u32) -> (r: bool)
        requires
            self.wf(),
            n <= 64,
        ensures
            r == self@.has_bits(n as nat),
    {
        let rest: usize = self.data.len() - self.byte_pos;
        if rest >= 9 {
            true
        } else {
            (rest as u32) * 8 - (self.bit_pos as u32) >= n
        }
    }
}

} // verus!
