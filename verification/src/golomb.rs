//! Exp-Golomb codes: unsigned, signed, truncated and the coded block pattern
//! mapping, each bounded by the range its syntax element allows.
use vstd::prelude::*;
use vstd::arithmetic::power2::{lemma2_to64, lemma_pow2_strictly_increases, pow2};
use crate::bits::{bit_at, lemma_bits_value_fits, read_bits, BitReader};
use crate::error::{Error, Reason};

verus! {

/// The number of leading zero bits from `pos + k` on, added to `k`: at most 32
/// are allowed.
pub open spec fn leading_zeros(data: Seq<u8>, pos: int, k: int) -> Result<int, Error>
    decreases 33 - k,
{
    if k > 32 {
        Err(Error::InvalidData(Reason::GolombTooLong))
    } else if pos + k >= 8 * data.len() {
        Err(Error::UnexpectedEof)
    } else if bit_at(data, pos + k) == 1 {
        Ok(k)
    } else {
        leading_zeros(data, pos, k + 1)
    }
}

/// An unsigned Exp-Golomb code no larger than `max`: `k` zeros, a one, and `k`
/// bits that are added to `2^k - 1`.
pub open spec fn ue(data: Seq<u8>, pos: int, max: int) -> Result<(int, int), Error> {
    match leading_zeros(data, pos, 0) {
        Err(e) => Err(e),
        Ok(k) => match read_bits(data, pos + k + 1, k as nat) {
            Err(e) => Err(e),
            Ok((suffix, end)) => {
                let value = pow2(k as nat) - 1 + suffix;
                if value > max {
                    Err(Error::InvalidData(Reason::ValueOutOfRange))
                } else {
                    Ok((value, end))
                }
            },
        },
    }
}

/// The signed value of an unsigned code number: 0, 1, -1, 2, -2 and so on.
pub open spec fn signed_of(n: int) -> int {
    if n % 2 == 0 {
        -(n / 2)
    } else {
        (n + 1) / 2
    }
}

/// A signed Exp-Golomb code in `min..=max`.
pub open spec fn se(data: Seq<u8>, pos: int, min: int, max: int) -> Result<(int, int), Error> {
    match ue(data, pos, u32::MAX as int) {
        Err(e) => Err(e),
        Ok((n, end)) => if min <= signed_of(n) <= max {
            Ok((signed_of(n), end))
        } else {
            Err(Error::InvalidData(Reason::ValueOutOfRange))
        },
    }
}

/// A truncated code: one inverted bit where only 0 and 1 are possible, an
/// unsigned code otherwise.
pub open spec fn te(data: Seq<u8>, pos: int, max: int) -> Result<(int, int), Error> {
    if max > 1 {
        ue(data, pos, max)
    } else {
        match read_bits(data, pos, 1) {
            Err(e) => Err(e),
            Ok((b, end)) => Ok((1 - b, end)),
        }
    }
}

/// The coded block pattern of each code number for intra macroblocks that
/// carry one.
pub const INTRA_CBP: [u8; 48] = [
    47, 31, 15, 0, 23, 27, 29, 30, 7, 11, 13, 14, 39, 43, 45, 46, 16, 3, 5, 10, 12, 19, 21, 26, 28,
    35, 37, 42, 44, 1, 2, 4, 8, 17, 18, 20, 24, 6, 9, 22, 25, 32, 33, 34, 36, 40, 38, 41,
];

/// The coded block pattern of each code number for inter macroblocks.
pub const INTER_CBP: [u8; 48] = [
    0, 16, 1, 2, 4, 8, 32, 3, 5, 10, 12, 15, 47, 7, 11, 13, 14, 6, 9, 31, 35, 37, 42, 44, 33, 34,
    36, 40, 39, 43, 45, 46, 17, 18, 20, 24, 19, 21, 26, 28, 23, 27, 29, 30, 22, 25, 38, 41,
];

/// A coded block pattern: a code number below 48 through the table of the
/// prediction kind.
pub open spec fn me(data: Seq<u8>, pos: int, intra: bool) -> Result<(int, int), Error> {
    match ue(data, pos, 47) {
        Err(e) => Err(e),
        Ok((n, end)) => Ok(
            (
                if intra {
                    INTRA_CBP[n] as int
                } else {
                    INTER_CBP[n] as int
                },
                end,
            ),
        ),
    }
}

/// A read that either follows `spec` exactly or fails as it does.
pub open spec fn follows<T>(
    before: BitReader,
    after: BitReader,
    r: Result<T, Error>,
    spec: Result<(int, int), Error>,
    value: spec_fn(T) -> int,
) -> bool {
    &&& after.wf()
    &&& after.data == before.data
    &&& match spec {
        Ok((v, end)) => r matches Ok(x) && value(x) == v && after.pos == end,
        Err(e) => r == Err::<T, Error>(e),
    }
}

impl<'a> BitReader<'a> {
    /// Reads an unsigned Exp-Golomb code no larger than `max`.
    pub fn ue_v(&mut self, max: u32) -> (r: Result<u32, Error>)
        requires
            old(self).wf(),
        ensures
            follows(
                *old(self),
                *final(self),
                r,
                ue(old(self).data@, old(self).pos as int, max as int),
                |x: u32| x as int,
            ),
    {
        let ghost start = self.pos;
        let mut k: u32 = 0;
        loop
            invariant_except_break
                self.wf(),
                self.data == old(self).data,
                start == old(self).pos,
                k <= 33,
                self.pos == start + k,
                leading_zeros(self.data@, start as int, 0) == leading_zeros(
                    self.data@,
                    start as int,
                    k as int,
                ),
            ensures
                k <= 32,
                self.wf(),
                self.data == old(self).data,
                start == old(self).pos,
                self.pos == start + k + 1,
                leading_zeros(self.data@, start as int, 0) == Ok::<int, Error>(k as int),
            decreases 33 - k,
        {
            if k > 32 {
                return Err(Error::InvalidData(Reason::GolombTooLong));
            }
            let one: bool = self.try_flag()?;
            if one {
                break;
            }
            k = k + 1;
        }
        proof {
            lemma_bits_value_fits(self.data@, self.pos as int, k as nat);
        }
        let suffix: u32 = self.try_get(k)?;
        let base: u64 = 1u64 << k;
        proof {
            lemma2_to64();
            if k < 32 {
                lemma_pow2_strictly_increases(k as nat, 32);
            }
            vstd::bits::lemma_u64_shl_is_mul(1, k as u64);
        }
        let value: u64 = base - 1 + suffix as u64;
        if value > max as u64 {
            return Err(Error::InvalidData(Reason::ValueOutOfRange));
        }
        Ok(value as u32)
    }

    /// Reads a signed Exp-Golomb code in `min..=max`.
    pub fn se_v(&mut self, min: i32, max: i32) -> (r: Result<i32, Error>)
        requires
            old(self).wf(),
        ensures
            follows(
                *old(self),
                *final(self),
                r,
                se(old(self).data@, old(self).pos as int, min as int, max as int),
                |x: i32| x as int,
            ),
    {
        let n: u32 = self.ue_v(u32::MAX)?;
        let v: i64 = se_value(n);
        if v < min as i64 || v > max as i64 {
            return Err(Error::InvalidData(Reason::ValueOutOfRange));
        }
        Ok(v as i32)
    }

    /// Reads a truncated Exp-Golomb code no larger than `max`.
    pub fn te_v(&mut self, max: u32) -> (r: Result<u32, Error>)
        requires
            old(self).wf(),
        ensures
            follows(
                *old(self),
                *final(self),
                r,
                te(old(self).data@, old(self).pos as int, max as int),
                |x: u32| x as int,
            ),
    {
        if max > 1 {
            return self.ue_v(max);
        }
        proof {
            lemma_bits_value_fits(self.data@, self.pos as int, 1);
            lemma2_to64();
        }
        let b: u32 = self.try_get(1)?;
        Ok(1 - b)
    }

    /// Reads a coded block pattern: luma in its low four bits, chroma above.
    pub fn me_v(&mut self, intra: bool) -> (r: Result<u8, Error>)
        requires
            old(self).wf(),
        ensures
            follows(
                *old(self),
                *final(self),
                r,
                me(old(self).data@, old(self).pos as int, intra),
                |x: u8| x as int,
            ),
    {
        let n: u32 = self.ue_v(47)?;
        if intra {
            Ok(INTRA_CBP[n as usize])
        } else {
            Ok(INTER_CBP[n as usize])
        }
    }
}

/// The signed value of an unsigned code number.
pub fn se_value(n: u32) -> (v: i64)
    ensures
        v == signed_of(n as int),
{
    if n % 2 == 0 {
        -((n / 2) as i64)
    } else {
        (n / 2) as i64 + 1
    }
}

/// The signed mapping names every integer exactly once.
pub proof fn law_signed_mapping_is_a_bijection(v: int, n: int, m: int)
    requires
        n >= 0,
        m >= 0,
    ensures
        signed_of(code_number_of(v)) == v,
        code_number_of(v) >= 0,
        signed_of(n) == signed_of(m) ==> n == m,
{
}

/// The code number that names a signed value.
pub open spec fn code_number_of(v: int) -> int {
    if v > 0 {
        2 * v - 1
    } else {
        -2 * v
    }
}

} // verus!
