//! Reading a byte string bit by bit, most significant bit first.
use vstd::prelude::*;
use vstd::arithmetic::power2::{lemma2_to64, lemma_pow2_strictly_increases, lemma_pow2_unfold, pow2};
use crate::error::Error;

verus! {

/// Bit `i` of a byte string, most significant bit of each byte first.
pub open spec fn bit_at(data: Seq<u8>, i: int) -> nat {
    ((data[i / 8] >> (7 - i % 8)) & 1) as nat
}

/// The `n` bits from bit `pos` on, as an unsigned number.
pub open spec fn bits_value(data: Seq<u8>, pos: int, n: nat) -> nat
    decreases n,
{
    if n == 0 {
        0
    } else {
        2 * bits_value(data, pos, (n - 1) as nat) + bit_at(data, pos + n - 1)
    }
}

/// Reading `n` bits at `pos`: their value and the position behind them, or the
/// end of the data.
pub open spec fn read_bits(data: Seq<u8>, pos: int, n: nat) -> Result<(nat, int), Error> {
    if pos + n <= 8 * data.len() {
        Ok((bits_value(data, pos, n), pos + n))
    } else {
        Err(Error::UnexpectedEof)
    }
}

pub proof fn lemma_bit_at_is_a_bit(data: Seq<u8>, i: int)
    ensures
        bit_at(data, i) <= 1,
{
    let b = data[i / 8];
    let s = 7 - i % 8;
    let t = b >> s;
    assert(t & 1 <= 1) by (bit_vector);
}

pub proof fn lemma_bits_value_bound(data: Seq<u8>, pos: int, n: nat)
    ensures
        bits_value(data, pos, n) < pow2(n),
    decreases n,
{
    if n == 0 {
        lemma2_to64();
    } else {
        lemma_bits_value_bound(data, pos, (n - 1) as nat);
        lemma_bit_at_is_a_bit(data, pos + n - 1);
        lemma_pow2_unfold(n);
    }
}

/// `n` bits with `n` at most 32 fit a `u32`.
pub proof fn lemma_bits_value_fits(data: Seq<u8>, pos: int, n: nat)
    requires
        n <= 32,
    ensures
        bits_value(data, pos, n) < pow2(n) <= 0x1_0000_0000,
{
    lemma_bits_value_bound(data, pos, n);
    lemma2_to64();
    if n < 32 {
        lemma_pow2_strictly_increases(n, 32);
    }
}

/// A reader over `data`, standing at bit `pos`.
pub struct BitReader<'a> {
    pub data: &'a [u8],
    pub pos: usize,
}

impl<'a> BitReader<'a> {
    /// The reader stands inside its data, whose bits can be counted.
    pub open spec fn wf(&self) -> bool {
        self.pos <= 8 * self.data@.len() <= usize::MAX
    }

    /// A reader at the first bit.
    pub fn new(data: &'a [u8]) -> (r: Self)
        requires
            8 * data@.len() <= usize::MAX,
        ensures
            r.wf(),
            r.data@ == data@,
            r.pos == 0,
    {
        BitReader { data, pos: 0 }
    }

    /// How many bits are still unread.
    pub fn bits_left(&self) -> (n: usize)
        requires
            self.wf(),
        ensures
            n == 8 * self.data@.len() - self.pos,
    {
        8 * self.data.len() - self.pos
    }

    /// The next `n` bits without consuming them.
    pub fn peek(&self, n: u32) -> (v: u32)
        requires
            self.wf(),
            n <= 32,
            self.pos + n <= 8 * self.data@.len(),
        ensures
            v == bits_value(self.data@, self.pos as int, n as nat),
    {
        let mut v: u64 = 0;
        for k in 0..n
            invariant
                self.wf(),
                n <= 32,
                self.pos + n <= 8 * self.data@.len(),
                v == bits_value(self.data@, self.pos as int, k as nat),
        {
            proof {
                lemma_bits_value_fits(self.data@, self.pos as int, k as nat);
            }
            let at: usize = self.pos + k as usize;
            let bit: u8 = (self.data[at / 8] >> (7 - at % 8)) & 1;
            v = 2 * v + bit as u64;
        }
        proof {
            lemma_bits_value_fits(self.data@, self.pos as int, n as nat);
        }
        v as u32
    }

    /// Reads `n` bits. At the end of the data nothing is consumed.
    pub fn try_get(&mut self, n: u32) -> (r: Result<u32, Error>)
        requires
            old(self).wf(),
            n <= 32,
        ensures
            final(self).wf(),
            final(self).data == old(self).data,
            match read_bits(old(self).data@, old(self).pos as int, n as nat) {
                Ok((v, p)) => r == Ok::<u32, Error>(v as u32) && v <= u32::MAX && final(self).pos
                    == p,
                Err(e) => r == Err::<u32, Error>(e) && final(self).pos == old(self).pos,
            },
    {
        if n as usize > 8 * self.data.len() - self.pos {
            return Err(Error::UnexpectedEof);
        }
        let v: u32 = self.peek(n);
        self.pos = self.pos + n as usize;
        Ok(v)
    }

    /// Reads one bit as a flag.
    pub fn try_flag(&mut self) -> (r: Result<bool, Error>)
        requires
            old(self).wf(),
        ensures
            final(self).wf(),
            final(self).data == old(self).data,
            old(self).pos < 8 * old(self).data@.len() ==> r == Ok::<bool, Error>(
                bit_at(old(self).data@, old(self).pos as int) == 1,
            ) && final(self).pos == old(self).pos + 1,
            old(self).pos >= 8 * old(self).data@.len() ==> r == Err::<bool, Error>(
                Error::UnexpectedEof,
            ) && final(self).pos == old(self).pos,
    {
        proof {
            reveal_with_fuel(bits_value, 2);
            assert(bits_value(self.data@, self.pos as int, 1) == bit_at(
                self.data@,
                self.pos as int,
            ));
        }
        let v: u32 = self.try_get(1)?;
        Ok(v == 1)
    }

    /// Skips `n` bits, stopping at the end of the data.
    pub fn skip(&mut self, n: usize)
        requires
            old(self).wf(),
        ensures
            final(self).wf(),
            final(self).data == old(self).data,
            final(self).pos == (if old(self).pos + n <= 8 * old(self).data@.len() {
                old(self).pos + n
            } else {
                8 * old(self).data@.len() as int
            }),
    {
        let left: usize = self.bits_left();
        if n <= left {
            self.pos = self.pos + n;
        } else {
            self.pos = self.pos + left;
        }
    }
}

/// Whether anything but the trailing stop bit and its padding is left: more
/// than eight bits always are data, and at most eight are data unless they are
/// one set bit followed by zeros.
pub open spec fn more_data(data: Seq<u8>, pos: int) -> bool {
    let left = 8 * data.len() - pos;
    left > 8 || (left > 0 && bits_value(data, pos, left as nat) != pow2((left - 1) as nat))
}

pub fn more_rbsp_data(r: &BitReader) -> (more: bool)
    requires
        r.wf(),
    ensures
        more == more_data(r.data@, r.pos as int),
{
    let left: usize = r.bits_left();
    if left == 0 {
        return false;
    }
    if left > 8 {
        return true;
    }
    let n: u32 = left as u32;
    let w: u32 = r.peek(n);
    proof {
        lemma2_to64();
        lemma_pow2_le(n as nat - 1);
        vstd::bits::lemma_u32_shl_is_mul(1, (n - 1) as u32);
    }
    w != 1u32 << (n - 1)
}

proof fn lemma_pow2_le(n: int)
    requires
        0 <= n <= 31,
    ensures
        pow2(n as nat) <= u32::MAX,
{
    lemma2_to64();
    if n < 31 {
        lemma_pow2_strictly_increases(n as nat, 31);
    }
}

/// Reading on after a read is one longer read: the values concatenate.
pub proof fn law_reads_concatenate(data: Seq<u8>, pos: int, m: nat, n: nat)
    ensures
        bits_value(data, pos, m + n) == bits_value(data, pos, m) * pow2(n) + bits_value(
            data,
            pos + m,
            n,
        ),
    decreases n,
{
    lemma2_to64();
    if n > 0 {
        law_reads_concatenate(data, pos, m, (n - 1) as nat);
        lemma_pow2_unfold(n);
        let a = bits_value(data, pos, m);
        let p = pow2((n - 1) as nat);
        assert(2 * (a * p) == a * (2 * p)) by (nonlinear_arith);
        assert((m + n - 1) as nat == m + (n - 1) as nat);
        assert(pos + (m + n) - 1 == pos + m + n - 1);
    } else {
        assert(bits_value(data, pos, m) * 1 == bits_value(data, pos, m));
    }
}

} // verus!
