//! A cursor over a byte buffer that reads big-endian bit fields.
use vstd::prelude::*;
use vstd::arithmetic::power2::pow2;

verus! {

/// Bit `i` of `data`, counting from the most significant bit of the first byte.
pub open spec fn bit_at(data: Seq<u8>, i: int) -> nat {
    ((data[i / 8] >> ((7 - i % 8) as u8)) & 1u8) as nat
}

/// The unsigned value of the `n` bits of `data` that start at bit `pos`.
pub open spec fn bits_value(data: Seq<u8>, pos: int, n: nat) -> nat
    decreases n,
{
    if n == 0 {
        0
    } else {
        2 * bits_value(data, pos, (n - 1) as nat) + bit_at(data, pos + n - 1)
    }
}

/// The two's-complement value of the `n` bits of `data` that start at bit `pos`.
pub open spec fn signed_value(data: Seq<u8>, pos: int, n: nat) -> int {
    let v = bits_value(data, pos, n);
    if n > 0 && v >= pow2((n - 1) as nat) {
        v - pow2(n)
    } else {
        v as int
    }
}

fn pow2_u64(n: u32) -> (r: u64)
    requires
        n <= 32,
    ensures
        r == pow2(n as nat),
{
    let mut r: u64 = 1;
    let mut k: u32 = 0;
    proof {
        vstd::arithmetic::power2::lemma2_to64();
    }
    while k < n
        invariant
            k <= n <= 32,
            r == pow2(k as nat),
        decreases n - k,
    {
        proof {
            vstd::arithmetic::power2::lemma_pow2_unfold((k + 1) as nat);
            vstd::arithmetic::power2::lemma_pow2_strictly_increases(k as nat, 32);
            vstd::arithmetic::power2::lemma2_to64();
        }
        r = r * 2;
        k = k + 1;
    }
    r
}

/// Reading past the end of the buffer.
#[derive(Debug, Clone, Copy, PartialEq, Eq, Structural)]
pub enum ReadError {
    OutOfData,
}

/// A byte buffer with a cursor counted in bits.
pub struct BitReader {
    pub data: Vec<u8>,
    pub pos: usize,
}

pub proof fn lemma_bit_le_one(data: Seq<u8>, i: int)
    requires
        0 <= i < data.len() * 8,
    ensures
        bit_at(data, i) <= 1,
{
    let b = data[i / 8];
    let s = (7 - i % 8) as u8;
    assert((b >> s) & 1u8 <= 1u8) by (bit_vector);
}

pub proof fn lemma_bits_bound(data: Seq<u8>, pos: int, n: nat)
    requires
        0 <= pos,
        pos + n <= data.len() * 8,
    ensures
        bits_value(data, pos, n) < pow2(n),
    decreases n,
{
    if n == 0 {
        vstd::arithmetic::power2::lemma_pow2_pos(0);
    } else {
        lemma_bits_bound(data, pos, (n - 1) as nat);
        lemma_bit_le_one(data, pos + n - 1);
        vstd::arithmetic::power2::lemma_pow2_unfold(n);
    }
}

impl BitReader {
    pub open spec fn wf(&self) -> bool {
        self.pos <= self.data@.len() * 8
    }

    /// Bits that are left to read.
    pub open spec fn remaining(&self) -> int {
        self.data@.len() * 8 - self.pos
    }

    pub fn new(data: Vec<u8>) -> (r: BitReader)
        requires
            data@.len() * 8 <= usize::MAX,
        ensures
            r.wf(),
            r.data@ == data@,
            r.pos == 0,
    {
        BitReader { data, pos: 0 }
    }

    /// Whole bytes left after the cursor.
    pub fn remaining_bytes(&self) -> (r: usize)
        requires
            self.wf(),
            self.data@.len() * 8 <= usize::MAX,
        ensures
            r == self.remaining() / 8,
    {
        (self.data.len() * 8 - self.pos) / 8
    }

    pub fn is_byte_aligned(&self) -> (r: bool)
        ensures
            r == (self.pos % 8 == 0),
    {
        self.pos % 8 == 0
    }

    /// Reads an `n`-bit unsigned field, most significant bit first.
    pub fn read_bits(&mut self, n: u32) -> (r: Result<u64, ReadError>)
        requires
            old(self).wf(),
            old(self).data@.len() * 8 <= usize::MAX,
            n <= 32,
        ensures
            final(self).wf(),
            final(self).data@ == old(self).data@,
            old(self).remaining() >= n ==> r == Ok::<u64, ReadError>(
                bits_value(old(self).data@, old(self).pos as int, n as nat) as u64,
            ) && final(self).pos == old(self).pos + n,
            old(self).remaining() < n ==> r == Err::<u64, ReadError>(ReadError::OutOfData)
                && final(self).pos == old(self).pos,
    {
        if self.data.len() * 8 - self.pos < n as usize {
            return Err(ReadError::OutOfData);
        }
        let start = self.pos;
        let mut acc: u64 = 0;
        let mut k: u32 = 0;
        proof {
            vstd::arithmetic::power2::lemma2_to64();
        }
        while k < n
            invariant
                k <= n <= 32,
                self.data@ == old(self).data@,
                self.pos == start + k,
                start == old(self).pos,
                start + n <= self.data@.len() * 8,
                self.data@.len() * 8 <= usize::MAX,
                acc == bits_value(self.data@, start as int, k as nat),
                acc < pow2(k as nat),
            decreases n - k,
        {
            let i = self.pos;
            let byte = self.data[i / 8];
            let bit = (byte >> ((7 - i % 8) as u8)) & 1u8;
            proof {
                lemma_bit_le_one(self.data@, i as int);
                vstd::arithmetic::power2::lemma_pow2_unfold((k + 1) as nat);
                vstd::arithmetic::power2::lemma_pow2_strictly_increases(k as nat, 32);
                vstd::arithmetic::power2::lemma2_to64();
                assert(bits_value(self.data@, start as int, (k + 1) as nat) == 2 * acc + bit_at(
                    self.data@,
                    i as int,
                ));
            }
            acc = acc * 2 + bit as u64;
            self.pos = self.pos + 1;
            k = k + 1;
        }
        Ok(acc)
    }

    /// Reads one byte-wide field.
    pub fn read_u8(&mut self) -> (r: Result<u8, ReadError>)
        requires
            old(self).wf(),
            old(self).data@.len() * 8 <= usize::MAX,
        ensures
            final(self).wf(),
            final(self).data@ == old(self).data@,
            old(self).remaining() >= 8 ==> r == Ok::<u8, ReadError>(
                bits_value(old(self).data@, old(self).pos as int, 8) as u8,
            ) && final(self).pos == old(self).pos + 8,
            old(self).remaining() < 8 ==> r == Err::<u8, ReadError>(ReadError::OutOfData)
                && final(self).pos == old(self).pos,
    {
        let v = self.read_bits(8)?;
        proof {
            lemma_bits_bound(old(self).data@, old(self).pos as int, 8);
            vstd::arithmetic::power2::lemma2_to64();
        }
        Ok(v as u8)
    }

    /// Reads one 16-bit field.
    pub fn read_u16(&mut self) -> (r: Result<u16, ReadError>)
        requires
            old(self).wf(),
            old(self).data@.len() * 8 <= usize::MAX,
        ensures
            final(self).wf(),
            final(self).data@ == old(self).data@,
            old(self).remaining() >= 16 ==> r == Ok::<u16, ReadError>(
                bits_value(old(self).data@, old(self).pos as int, 16) as u16,
            ) && final(self).pos == old(self).pos + 16,
            old(self).remaining() < 16 ==> r == Err::<u16, ReadError>(ReadError::OutOfData)
                && final(self).pos == old(self).pos,
    {
        let v = self.read_bits(16)?;
        proof {
            lemma_bits_bound(old(self).data@, old(self).pos as int, 16);
            vstd::arithmetic::power2::lemma2_to64();
        }
        Ok(v as u16)
    }

    /// Reads an `n`-bit two's-complement field.
    pub fn read_signed(&mut self, n: u32) -> (r: Result<i64, ReadError>)
        requires
            old(self).wf(),
            old(self).data@.len() * 8 <= usize::MAX,
            1 <= n <= 32,
        ensures
            final(self).wf(),
            final(self).data@ == old(self).data@,
            old(self).remaining() >= n ==> r == Ok::<i64, ReadError>(
                signed_value(old(self).data@, old(self).pos as int, n as nat) as i64,
            ) && final(self).pos == old(self).pos + n,
            old(self).remaining() < n ==> r == Err::<i64, ReadError>(ReadError::OutOfData)
                && final(self).pos == old(self).pos,
    {
        let v = self.read_bits(n)?;
        proof {
            lemma_bits_bound(old(self).data@, old(self).pos as int, n as nat);
            vstd::arithmetic::power2::lemma_pow2_unfold(n as nat);
            vstd::arithmetic::power2::lemma_pow2_strictly_increases(n as nat, 33);
            vstd::arithmetic::power2::lemma_pow2_strictly_increases((n - 1) as nat, n as nat);
            vstd::arithmetic::power2::lemma2_to64();
            vstd::arithmetic::power2::lemma2_to64_rest();
        }
        let half = pow2_u64(n - 1);
        let full = pow2_u64(n);
        if v >= half {
            Ok(v as i64 - full as i64)
        } else {
            Ok(v as i64)
        }
    }

    /// Reads `len` whole bytes from a byte-aligned cursor.
    pub fn read_bytes(&mut self, len: usize) -> (r: Result<Vec<u8>, ReadError>)
        requires
            old(self).wf(),
            old(self).data@.len() * 8 <= usize::MAX,
            old(self).pos % 8 == 0,
        ensures
            final(self).wf(),
            final(self).data@ == old(self).data@,
            old(self).remaining() >= 8 * len ==> (r matches Ok(v) && v@ == old(
                self,
            ).data@.subrange((old(self).pos / 8) as int, old(self).pos / 8 + len)) && final(self).pos
                == old(self).pos + 8 * len,
            old(self).remaining() < 8 * len ==> r == Err::<Vec<u8>, ReadError>(ReadError::OutOfData)
                && final(self).pos == old(self).pos,
    {
        let start = self.pos / 8;
        if self.data.len() - start < len {
            return Err(ReadError::OutOfData);
        }
        let mut out: Vec<u8> = Vec::new();
        let mut i: usize = 0;
        while i < len
            invariant
                start + len <= self.data@.len(),
                self.data@.len() * 8 <= usize::MAX,
                self.data@ == old(self).data@,
                self.pos == old(self).pos,
                start == old(self).pos / 8,
                i <= len,
                out@ == self.data@.subrange(start as int, start + i),
            decreases len - i,
        {
            out.push(self.data[start + i]);
            assert(out@ =~= self.data@.subrange(start as int, start + i + 1));
            i = i + 1;
        }
        self.pos = self.pos + 8 * len;
        Ok(out)
    }
}

} // verus!
