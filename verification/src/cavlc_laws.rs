//! Variable-length codes: reading gives back what was written.
use vstd::prelude::*;
use vstd::arithmetic::power2::{lemma2_to64, lemma_pow2_pos, lemma_pow2_unfold, pow2};
use crate::bits::{bit_at, bits_value, law_reads_concatenate, more_data};
use crate::cavlc::{
    initial_suffix_length, level_at, level_prefix, levels_from, next_suffix_length, signs_from,
    CavlcBlock,
};
use crate::error::Error;
use crate::golomb::{leading_zeros, se, te, ue};
use crate::grids::nc_spec;
use crate::mb_residual::{forward, scan_position};
use crate::residual_laws::{places, values};

verus! {

// ----------------------------------------------------------------------- bits
/// A byte is read highest bit first.
pub proof fn law_bytes_are_read_highest_bit_first(data: Seq<u8>, i: int)
    requires
        0 <= i < data.len(),
    ensures
        bits_value(data, 8 * i, 8) == data[i],
{
    reveal_with_fuel(bits_value, 9);
    let b = data[i];
    assert forall|k: int| 0 <= k < 8 implies #[trigger] bit_at(data, 8 * i + k) == ((b >> ((7
        - k) as u8)) & 1u8) by {
        assert((8 * i + k) / 8 == i && (8 * i + k) % 8 == k);
    }
    assert(bit_at(data, 8 * i + 0) == ((b >> 7u8) & 1u8));
    assert(bit_at(data, 8 * i + 1) == ((b >> 6u8) & 1u8));
    assert(bit_at(data, 8 * i + 2) == ((b >> 5u8) & 1u8));
    assert(bit_at(data, 8 * i + 3) == ((b >> 4u8) & 1u8));
    assert(bit_at(data, 8 * i + 4) == ((b >> 3u8) & 1u8));
    assert(bit_at(data, 8 * i + 5) == ((b >> 2u8) & 1u8));
    assert(bit_at(data, 8 * i + 6) == ((b >> 1u8) & 1u8));
    assert(bit_at(data, 8 * i + 7) == ((b >> 0u8) & 1u8));
    assert(b == 128 * ((b >> 7u8) & 1u8) + 64 * ((b >> 6u8) & 1u8) + 32 * ((b >> 5u8) & 1u8) + 16 * ((b
        >> 4u8) & 1u8) + 8 * ((b >> 3u8) & 1u8) + 4 * ((b >> 2u8) & 1u8) + 2 * ((b >> 1u8) & 1u8)
        + ((b >> 0u8) & 1u8)) by (bit_vector);
}

/// The bits from `pos` to the end are a one and nothing but zeros, or there are
/// none at all.
pub open spec fn only_a_stop_bit(data: Seq<u8>, pos: int) -> bool {
    pos == 8 * data.len() || (bit_at(data, pos) == 1 && forall|i: int|
        pos < i < 8 * data.len() ==> #[trigger] bit_at(data, i) == 0)
}

proof fn lemma_zeros_are_worth_nothing(data: Seq<u8>, pos: int, n: nat)
    ensures
        bits_value(data, pos, n) == 0 <==> forall|i: int|
            pos <= i < pos + n ==> #[trigger] bit_at(data, i) == 0,
        bits_value(data, pos, n) < pow2(n),
    decreases n,
{
    lemma2_to64();
    if n > 0 {
        lemma_zeros_are_worth_nothing(data, pos, (n - 1) as nat);
        crate::bits::lemma_bit_at_is_a_bit(data, pos + n - 1);
        lemma_pow2_unfold(n);
        assert(bit_at(data, pos + n - 1) == 0 || bits_value(data, pos, n) > 0);
    }
}

/// In the last byte, there is more data exactly as long as something other than
/// the stop bit and its padding is left.
pub proof fn law_more_data_until_the_stop_bit(data: Seq<u8>, pos: int)
    requires
        0 <= pos <= 8 * data.len(),
    ensures
        8 * data.len() - pos <= 8 ==> more_data(data, pos) == !only_a_stop_bit(data, pos),
        8 * data.len() - pos > 8 ==> more_data(data, pos),
{
    let left = 8 * data.len() - pos;
    if 0 < left <= 8 {
        let n = (left - 1) as nat;
        law_reads_concatenate(data, pos, 1, n);
        assert(1 + n == left as nat);
        reveal_with_fuel(bits_value, 2);
        lemma_zeros_are_worth_nothing(data, pos + 1, n);
        crate::bits::lemma_bit_at_is_a_bit(data, pos);
        let b = bit_at(data, pos);
        assert(bits_value(data, pos, 1) == b);
        lemma_pow2_pos(n);
        assert(b == 0 ==> b * pow2(n) == 0) by (nonlinear_arith);
        assert(b == 1 ==> b * pow2(n) == pow2(n)) by (nonlinear_arith);
        assert(pos + left == 8 * data.len());
    }
}

// --------------------------------------------------------------- Exp-Golomb
/// `n` zeros stand at a position.
pub open spec fn zeros_at(data: Seq<u8>, pos: int, n: int) -> bool {
    forall|k: int| pos <= k < pos + n ==> #[trigger] bit_at(data, k) == 0
}

/// A number is written as an Exp-Golomb code of `2 n + 1` bits: one more than the
/// number, in binary, behind as many zeros as it has further digits.
pub open spec fn written(data: Seq<u8>, pos: int, n: int, v: int) -> bool {
    &&& 0 <= n <= 32
    &&& 0 <= pos
    &&& pos + 2 * n + 1 <= 8 * data.len()
    &&& zeros_at(data, pos, n)
    &&& bit_at(data, pos + n) == 1
    &&& bits_value(data, pos + n, (n + 1) as nat) == v + 1
}

proof fn lemma_leading_zeros(data: Seq<u8>, pos: int, n: int, k: int)
    requires
        0 <= k <= n <= 32,
        pos + n < 8 * data.len(),
        zeros_at(data, pos, n),
        bit_at(data, pos + n) == 1,
    ensures
        leading_zeros(data, pos, k) == Ok::<int, Error>(n),
    decreases n - k,
{
    if k < n {
        assert(bit_at(data, pos + k) == 0);
        lemma_leading_zeros(data, pos, n, k + 1);
    }
}

/// Unsigned numbers are read as they are written, and refused beyond the limit.
pub proof fn law_unsigned_numbers_round_trip(data: Seq<u8>, pos: int, n: int, v: int, max: int)
    requires
        written(data, pos, n, v),
    ensures
        v <= max ==> ue(data, pos, max) == Ok::<(int, int), Error>((v, pos + 2 * n + 1)),
        v > max ==> ue(data, pos, max) is Err,
{
    lemma_leading_zeros(data, pos, n, 0);
    law_reads_concatenate(data, pos + n, 1, n as nat);
    assert(1 + n as nat == (n + 1) as nat);
    reveal_with_fuel(bits_value, 2);
    assert(bits_value(data, pos + n, 1) == 1);
    assert(1 * pow2(n as nat) == pow2(n as nat));
}

/// Signed numbers are written in the order 0, 1, -1, 2, -2 and so on.
pub proof fn law_signed_numbers_round_trip(
    data: Seq<u8>,
    pos: int,
    n: int,
    v: int,
    min: int,
    max: int,
)
    requires
        min <= v <= max,
        -0x7fff_ffff <= v <= 0x7fff_ffff,
        written(
            data,
            pos,
            n,
            if v > 0 {
                2 * v - 1
            } else {
                -2 * v
            },
        ),
    ensures
        se(data, pos, min, max) == Ok::<(int, int), Error>((v, pos + 2 * n + 1)),
{
    let u = if v > 0 {
        2 * v - 1
    } else {
        -2 * v
    };
    law_unsigned_numbers_round_trip(data, pos, n, u, u32::MAX as int);
}

/// Where only 0 and 1 are possible a set bit means 0; otherwise a number is
/// written as any other.
pub proof fn law_truncated_numbers_round_trip(data: Seq<u8>, pos: int, n: int, v: int, max: int)
    requires
        0 <= pos < 8 * data.len(),
    ensures
        max <= 1 ==> te(data, pos, max) == Ok::<(int, int), Error>(
            (
                if bit_at(data, pos) == 1 {
                    0int
                } else {
                    1int
                },
                pos + 1,
            ),
        ),
        1 < max && v <= max && written(data, pos, n, v) ==> te(data, pos, max) == Ok::<
            (int, int),
            Error,
        >((v, pos + 2 * n + 1)),
{
    reveal_with_fuel(bits_value, 2);
    crate::bits::lemma_bit_at_is_a_bit(data, pos);
    if written(data, pos, n, v) {
        law_unsigned_numbers_round_trip(data, pos, n, v, max);
    }
}

// --------------------------------------------------------------------- counts
/// The predicted count lies between those of the neighbours that are known,
/// nearer to neither by more than a half: doubled, it is their sum, or one more.
pub proof fn law_predicted_count_is_the_mean(left: Option<u8>, above: Option<u8>)
    ensures
        nc_spec(left, above) == nc_spec(above, left),
        left is None && above is None ==> nc_spec(left, above) == 0,
        left is None ==> (above matches Some(b) ==> nc_spec(left, above) == b),
        left matches Some(a) ==> (above matches Some(b) ==> (a + b) % 2 == 0 && 2 * nc_spec(
            left,
            above,
        ) == a + b || (a + b) % 2 == 1 && 2 * nc_spec(left, above) == a + b + 1),
{
}

// --------------------------------------------------------------------- levels
/// The suffix grows by one bit behind a level of more than 3, 6, 12, 24 or 48, at
/// lengths 1 to 5, and never beyond six. It starts with length 0, which only the
/// first level has, or with 1.
pub proof fn law_suffix_grows_at_its_threshold(s: int, level: int)
    requires
        0 <= s <= 6,
    ensures
        ({
            let big = |limit: int| level > limit || level < -limit;
            let next = next_suffix_length(s, level);
            &&& s == 0 || s == 1 ==> next == (if big(3) {
                2int
            } else {
                1int
            })
            &&& s == 2 ==> next == (if big(6) {
                3int
            } else {
                2int
            })
            &&& s == 3 ==> next == (if big(12) {
                4int
            } else {
                3int
            })
            &&& s == 4 ==> next == (if big(24) {
                5int
            } else {
                4int
            })
            &&& s == 5 ==> next == (if big(48) {
                6int
            } else {
                5int
            })
            &&& s == 6 ==> next == 6
        }),
{
    lemma2_to64();
}

/// The suffix lengths behind a level, written out.
pub open spec fn grown(s: int, level: int) -> int {
    let m = if level < 0 {
        -level
    } else {
        level
    };
    if s <= 1 {
        if m > 3 {
            2
        } else {
            1
        }
    } else if s == 2 && m > 6 {
        3
    } else if s == 3 && m > 12 {
        4
    } else if s == 4 && m > 24 {
        5
    } else if s == 5 && m > 48 {
        6
    } else {
        s
    }
}

/// How many codes share a prefix at each suffix length.
pub open spec fn step(s: int) -> int {
    if s == 0 {
        1
    } else if s == 1 {
        2
    } else if s == 2 {
        4
    } else if s == 3 {
        8
    } else if s == 4 {
        16
    } else if s == 5 {
        32
    } else {
        64
    }
}

/// The code of a level in the order 1, -1, 2, -2 and so on. Where the first coded
/// level cannot be a one, because there are fewer than three trailing ones, the
/// codes begin with 2.
pub open spec fn level_number(level: int, no_ones: bool) -> int {
    (if level > 0 {
        2 * level - 2
    } else {
        -2 * level - 1
    }) - (if no_ones {
        2int
    } else {
        0
    })
}

/// A level as it is written: a prefix of zeros, a one, and a suffix. Small codes
/// fill prefixes 0 to 14; at length 0, prefix 14 has a suffix of four bits. Prefix
/// 15 has twelve bits, and each further one a bit more, for what is beyond.
pub open spec fn level_parts(code: int, s: int, beyond: int) -> (int, int, int) {
    let small = if s == 0 {
        30
    } else {
        15 * step(s)
    };
    if s == 0 && code < 14 {
        (code, 0, 0)
    } else if s == 0 && code < 30 {
        (14, code - 14, 4)
    } else if s > 0 && code < 15 * step(s) {
        (code / step(s), code % step(s), s)
    } else if beyond == 0 {
        (15, code - small, 12)
    } else {
        (15 + beyond, code - small - pow2((12 + beyond) as nat) + 4096, 12 + beyond)
    }
}

/// The `beyond` of a level is right for its code.
pub open spec fn fits_prefix(code: int, s: int, beyond: int) -> bool {
    let small = if s == 0 {
        30
    } else {
        15 * step(s)
    };
    code < small || {
        &&& 0 <= beyond <= 15
        &&& pow2((12 + beyond) as nat) - 4096 <= code - small < 2 * pow2((12 + beyond) as nat) - 4096
    }
}

/// A level is written at a position and ends at another.
pub open spec fn level_written(
    data: Seq<u8>,
    pos: int,
    end: int,
    level: int,
    s: int,
    no_ones: bool,
    beyond: int,
) -> bool {
    let code = level_number(level, no_ones);
    let (prefix, suffix, len) = level_parts(code, s, beyond);
    &&& level != 0
    &&& 0 <= code
    &&& fits_prefix(code, s, beyond)
    &&& 0 <= pos
    &&& end == pos + prefix + 1 + len
    &&& end <= 8 * data.len()
    &&& zeros_at(data, pos, prefix)
    &&& bit_at(data, pos + prefix) == 1
    &&& bits_value(data, pos + prefix + 1, len as nat) == suffix
}

proof fn lemma_level_prefix(data: Seq<u8>, pos: int, n: int, k: int)
    requires
        0 <= k <= n <= 30,
        pos + n < 8 * data.len(),
        zeros_at(data, pos, n),
        bit_at(data, pos + n) == 1,
    ensures
        level_prefix(data, pos, k) == Ok::<int, Error>(n),
    decreases n - k,
{
    if k < n {
        assert(bit_at(data, pos + k) == 0);
        lemma_level_prefix(data, pos, n, k + 1);
    }
}

/// Levels are read as they are written, and the suffix length adapts.
#[verifier::rlimit(40)]
pub proof fn law_level_round_trips(
    data: Seq<u8>,
    pos: int,
    end: int,
    level: int,
    s: int,
    first: bool,
    trailing_ones: int,
    beyond: int,
)
    requires
        0 <= s <= 6,
        0 <= trailing_ones <= 3,
        level_written(data, pos, end, level, s, first && trailing_ones < 3, beyond),
    ensures
        level_at(data, pos, s, first, trailing_ones) == Ok::<(int, int, int), Error>(
            (level, grown(s, level), end),
        ),
{
    lemma2_to64();
    law_suffix_grows_at_its_threshold(s, level);
    let code = level_number(level, first && trailing_ones < 3);
    let (prefix, suffix, len) = level_parts(code, s, beyond);
    assert(pow2(s as nat) == step(s));
    if s > 0 && code < 15 * step(s) {
        let u = step(s);
        assert(code == u * (code / u) + code % u && 0 <= code / u < 15) by (nonlinear_arith)
            requires
                0 <= code < 15 * u,
                u > 0,
        ;
        assert(prefix * pow2(s as nat) == u * (code / u)) by (nonlinear_arith)
            requires
                prefix == code / u,
                pow2(s as nat) == u,
        ;
    } else if beyond > 0 && !(s == 0 && code < 30) {
        assert((prefix - 3) as nat == (12 + beyond) as nat);
        assert(15 * pow2(s as nat) == 15 * step(s));
    }
    lemma_level_prefix(data, pos, prefix, 0);
}

/// A list of levels is written from level `i` on: level `j` at `at[j]` with
/// suffix length `lengths[j]`.
pub open spec fn levels_written(
    data: Seq<u8>,
    levels: Seq<i32>,
    at: Seq<int>,
    lengths: Seq<int>,
    beyond: Seq<int>,
    trailing_ones: int,
) -> bool {
    let n = levels.len();
    &&& at.len() == n + 1 && lengths.len() == n + 1 && beyond.len() == n
    &&& forall|j: int|
        trailing_ones <= j < n ==> level_written(
            data,
            #[trigger] at[j],
            at[j + 1],
            levels[j] as int,
            lengths[j],
            j == trailing_ones && trailing_ones < 3,
            beyond[j],
        ) && lengths[j + 1] == grown(lengths[j], levels[j] as int)
}

proof fn lemma_levels_from(
    data: Seq<u8>,
    levels: Seq<i32>,
    at: Seq<int>,
    lengths: Seq<int>,
    beyond: Seq<int>,
    t1: int,
    i: int,
)
    requires
        levels_written(data, levels, at, lengths, beyond, t1),
        0 <= t1 <= 3,
        t1 <= i <= levels.len(),
        0 <= lengths[i] <= 6,
    ensures
        levels_from(data, at[i], lengths[i], i, t1, levels.len() as int, levels.take(i)) == Ok::<
            (Seq<i32>, int),
            Error,
        >((levels, at[levels.len() as int])),
    decreases levels.len() - i,
{
    if i < levels.len() {
        assert(level_written(
            data,
            at[i],
            at[i + 1],
            levels[i] as int,
            lengths[i],
            i == t1 && t1 < 3,
            beyond[i],
        ));
        law_level_round_trips(
            data,
            at[i],
            at[i + 1],
            levels[i] as int,
            lengths[i],
            i == t1,
            t1,
            beyond[i],
        );
        assert(levels.take(i).push(levels[i]) =~= levels.take(i + 1));
        lemma_levels_from(data, levels, at, lengths, beyond, t1, i + 1);
    } else {
        assert(levels.take(i) =~= levels);
    }
}

/// The levels of a block are read as they are written: behind the trailing ones,
/// with a suffix of one bit to begin with where there are more than ten
/// coefficients and fewer than three trailing ones, and of none otherwise.
pub proof fn law_levels_round_trip(
    data: Seq<u8>,
    levels: Seq<i32>,
    at: Seq<int>,
    lengths: Seq<int>,
    beyond: Seq<int>,
    trailing_ones: u8,
)
    requires
        levels_written(data, levels, at, lengths, beyond, trailing_ones as int),
        trailing_ones <= 3,
        trailing_ones <= levels.len() <= 16,
        lengths[trailing_ones as int] == (if levels.len() > 10 && trailing_ones < 3 {
            1int
        } else {
            0int
        }),
    ensures
        levels_from(
            data,
            at[trailing_ones as int],
            initial_suffix_length(levels.len() as u8, trailing_ones),
            trailing_ones as int,
            trailing_ones as int,
            levels.len() as int,
            levels.take(trailing_ones as int),
        ) == Ok::<(Seq<i32>, int), Error>((levels, at[levels.len() as int])),
{
    lemma_levels_from(
        data,
        levels,
        at,
        lengths,
        beyond,
        trailing_ones as int,
        trailing_ones as int,
    );
}

/// Trailing ones are read sign by sign: a set bit is a minus.
pub proof fn law_signs_round_trip(data: Seq<u8>, pos: int, i: int, n: int, acc: Seq<i32>)
    requires
        0 <= i <= n,
        acc.len() == i,
        0 <= pos,
        pos + (n - i) <= 8 * data.len(),
    ensures
        signs_from(data, pos, i, n, acc) matches Ok((levels, end)) && {
            &&& end == pos + (n - i)
            &&& levels.len() == n
            &&& forall|k: int| 0 <= k < i ==> #[trigger] levels[k] == acc[k]
            &&& forall|k: int|
                i <= k < n ==> #[trigger] levels[k] == (if bit_at(data, pos + k - i) == 1 {
                    -1i32
                } else {
                    1i32
                })
        },
    decreases n - i,
{
    if i < n {
        let level: i32 = if bit_at(data, pos) == 1 {
            -1i32
        } else {
            1i32
        };
        law_signs_round_trip(data, pos + 1, i + 1, n, acc.push(level));
        let levels = signs_from(data, pos, i, n, acc)->Ok_0.0;
        assert forall|k: int| i <= k < n implies #[trigger] levels[k] == (if bit_at(
            data,
            pos + k - i,
        ) == 1 {
            -1i32
        } else {
            1i32
        }) by {
            if k == i {
                assert(levels[k] == acc.push(level)[k]);
            } else {
                assert(pos + 1 + k - (i + 1) == pos + k - i);
            }
        }
        assert forall|k: int| 0 <= k < i implies #[trigger] levels[k] == acc[k] by {
            assert(levels[k] == acc.push(level)[k]);
        }
    }
}

// ------------------------------------------------------------------- placement
/// The levels of a block, highest frequency first, and the zeros in front of
/// each, are those of a list of coefficients.
pub open spec fn describes(b: CavlcBlock, c: Seq<i32>) -> bool {
    let n = b.total_coeff as int;
    let (at, v) = (places(c, c.len() as int), values(c, c.len() as int));
    &&& b.levels.len() == n
    &&& b.runs.len() == n
    &&& at.len() == n
    &&& forall|i: int| 0 <= i < n ==> #[trigger] b.levels[i] == v[n - 1 - i]
    &&& forall|i: int|
        0 <= i < n ==> #[trigger] b.runs[i] == at[n - 1 - i] - (if i == n - 1 {
            0
        } else {
            at[n - 2 - i] + 1
        })
}

proof fn lemma_scan(b: CavlcBlock, c: Seq<i32>, i: int)
    requires
        describes(b, c),
        0 <= i < b.total_coeff,
    ensures
        scan_position(b, i) == places(c, c.len() as int)[b.total_coeff - 1 - i],
    decreases b.total_coeff - i,
{
    reveal_with_fuel(scan_position, 2);
    if i + 1 < b.total_coeff {
        lemma_scan(b, c, i + 1);
    }
}

/// Turning a block round puts every coefficient back where it came from.
pub proof fn law_turning_round_restores_places(b: CavlcBlock, c: Seq<i32>)
    requires
        describes(b, c),
        values(c, c.len() as int).len() == b.total_coeff,
    ensures
        forward(b).positions == places(c, c.len() as int),
        forward(b).levels == values(c, c.len() as int),
{
    let n = b.total_coeff as int;
    assert forall|k: int| 0 <= k < n implies #[trigger] forward(b).positions[k] == places(
        c,
        c.len() as int,
    )[k] by {
        lemma_scan(b, c, n - 1 - k);
    }
    assert forall|k: int| 0 <= k < n implies #[trigger] forward(b).levels[k] == values(
        c,
        c.len() as int,
    )[k] by {
        assert(b.levels[n - 1 - k] == values(c, c.len() as int)[k]);
    }
    assert(forward(b).positions =~= places(c, c.len() as int));
    assert(forward(b).levels =~= values(c, c.len() as int));
}

} // verus!
