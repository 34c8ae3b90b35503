//! Context-adaptive variable-length decoding of one residual block.
//!
//! [`residual_block_cavlc`] is given the neighbour-derived `nC` and the size of
//! the block, and returns its non-zero levels with the zero run in front of
//! each, highest frequency first. It knows nothing of macroblocks.
use vstd::prelude::*;
use vstd::arithmetic::power2::{lemma2_to64, lemma_pow2_strictly_increases, pow2};
use crate::bits::{bit_at, bits_value, lemma_bits_value_fits, read_bits, BitReader};
use crate::budget::Budget;
use crate::cavlc_tables::{
    COEFF_TOKEN_CHROMA_DC_420, COEFF_TOKEN_CHROMA_DC_422, COEFF_TOKEN_NC0, COEFF_TOKEN_NC2,
    COEFF_TOKEN_NC4, RUN_BEFORE, TOTAL_ZEROS_4X4, TOTAL_ZEROS_CHROMA_DC_420,
    TOTAL_ZEROS_CHROMA_DC_422,
};
use crate::error::{Error, Reason};

verus! {

/// Which `total_zeros` table family a block uses.
#[derive(Debug, Clone, Copy, PartialEq, Eq, Structural)]
pub enum BlockKind {
    /// Any four-by-four residual block: 15 or 16 coefficients.
    Block4x4,
    /// The DC of 4:2:0 chroma: 4 coefficients, selected by `nC == -1`.
    ChromaDc420,
    /// The DC of 4:2:2 chroma: 8 coefficients, selected by `nC == -2`.
    ChromaDc422,
}

/// A decoded residual block, highest frequency first.
#[derive(Debug, Clone, PartialEq, Eq)]
pub struct CavlcResidual {
    /// How many levels are not zero.
    pub total_coeff: u8,
    /// How many of those lead as plain ones.
    pub trailing_ones: u8,
    /// The non-zero levels with their signs.
    pub levels: Vec<i32>,
    /// For each level, the zeros directly in front of it in scan order.
    pub runs: Vec<u8>,
}

/// The mathematical content of a [`CavlcResidual`].
#[verifier::ext_equal]
pub struct CavlcBlock {
    pub total_coeff: u8,
    pub trailing_ones: u8,
    pub levels: Seq<i32>,
    pub runs: Seq<u8>,
}

impl View for CavlcResidual {
    type V = CavlcBlock;

    open spec fn view(&self) -> CavlcBlock {
        CavlcBlock {
            total_coeff: self.total_coeff,
            trailing_ones: self.trailing_ones,
            levels: self.levels@,
            runs: self.runs@,
        }
    }
}

impl Default for CavlcResidual {
    fn default() -> (r: Self)
        ensures
            r@ == empty_block(0, 0),
    {
        CavlcResidual { total_coeff: 0, trailing_ones: 0, levels: Vec::new(), runs: Vec::new() }
    }
}

/// A block whose counts are known and whose levels are not read yet.
pub open spec fn empty_block(total_coeff: u8, trailing_ones: u8) -> CavlcBlock {
    CavlcBlock {
        total_coeff,
        trailing_ones,
        levels: Seq::<i32>::empty(),
        runs: Seq::<u8>::empty(),
    }
}

/// Which entries of a code table take part in a lookup.
#[derive(Clone, Copy)]
pub enum Filter {
    /// Those whose first value is the row.
    Row(u8),
    /// Those whose second value is neither of two.
    Without(u8, u8),
}

/// Whether an entry takes part.
pub open spec fn admits(filter: Filter, e: (u8, u8, u8, u16)) -> bool {
    match filter {
        Filter::Row(k) => e.0 == k,
        Filter::Without(a, b) => e.1 != a && e.1 != b,
    }
}

/// The values of the first entry, from index `i` on, that takes part and has
/// exactly this code.
pub open spec fn entry_with_code(
    table: Seq<(u8, u8, u8, u16)>,
    filter: Filter,
    len: int,
    code: int,
    i: int,
) -> Option<(u8, u8)>
    decreases table.len() - i,
{
    if i < 0 || i >= table.len() {
        None
    } else if admits(filter, table[i]) && table[i].2 == len && table[i].3 == code {
        Some((table[i].0, table[i].1))
    } else {
        entry_with_code(table, filter, len, code, i + 1)
    }
}

/// The entry whose code is the shortest that the bits at `pos` begin with,
/// among those longer than `len` bits, and the position behind it.
pub open spec fn prefix_match(
    table: Seq<(u8, u8, u8, u16)>,
    filter: Filter,
    data: Seq<u8>,
    pos: int,
    len: nat,
) -> Option<((u8, u8), int)>
    decreases 16 - len,
{
    if len >= 16 || pos + len >= 8 * data.len() {
        None
    } else {
        match entry_with_code(
            table,
            filter,
            len + 1int,
            bits_value(data, pos, len + 1) as int,
            0,
        ) {
            Some(v) => Some((v, pos + len + 1)),
            None => prefix_match(table, filter, data, pos, len + 1),
        }
    }
}

fn admitted(filter: Filter, e: (u8, u8, u8, u16)) -> (r: bool)
    ensures
        r == admits(filter, e),
{
    match filter {
        Filter::Row(k) => e.0 == k,
        Filter::Without(a, b) => e.1 != a && e.1 != b,
    }
}

fn find_entry(table: &[(u8, u8, u8, u16)], filter: Filter, len: u32, code: u32) -> (r: Option<
    (u8, u8),
>)
    ensures
        r == entry_with_code(table@, filter, len as int, code as int, 0),
{
    for i in 0..table.len()
        invariant
            entry_with_code(table@, filter, len as int, code as int, 0) == entry_with_code(
                table@,
                filter,
                len as int,
                code as int,
                i as int,
            ),
    {
        let e: (u8, u8, u8, u16) = table[i];
        if admitted(filter, e) && e.2 as u32 == len && e.3 as u32 == code {
            return Some((e.0, e.1));
        }
    }
    None
}

/// Reads one code of a table, bit by bit. Data that runs out, and sixteen bits
/// without a match, give nothing.
pub fn decode_prefix_free(r: &mut BitReader, table: &[(u8, u8, u8, u16)], filter: Filter) -> (v:
    Option<(u8, u8)>)
    requires
        old(r).wf(),
    ensures
        final(r).wf(),
        final(r).data == old(r).data,
        match prefix_match(table@, filter, old(r).data@, old(r).pos as int, 0) {
            Some((e, end)) => v == Some(e) && final(r).pos == end,
            None => v is None,
        },
{
    let ghost start = r.pos as int;
    let mut code: u32 = 0;
    for len in 0..16u32
        invariant
            r.wf(),
            r.data == old(r).data,
            start == old(r).pos,
            r.pos == start + len,
            code == bits_value(r.data@, start, len as nat),
            prefix_match(table@, filter, r.data@, start, 0) == prefix_match(
                table@,
                filter,
                r.data@,
                start,
                len as nat,
            ),
    {
        proof {
            lemma_bits_value_fits(r.data@, start, len as nat);
            lemma_bits_value_fits(r.data@, start, (len + 1) as nat);
            lemma2_to64();
            if len < 16 {
                lemma_pow2_strictly_increases(len as nat, 16);
            }
            crate::bits::lemma_bit_at_is_a_bit(r.data@, start + len);
        }
        match r.try_flag() {
            Err(_) => {
                return None;
            },
            Ok(bit) => {
                code = 2 * code + if bit {
                    1
                } else {
                    0
                };
            },
        }
        let found: Option<(u8, u8)> = find_entry(table, filter, len + 1, code);
        if found.is_some() {
            return found;
        }
    }
    None
}

/// `coeff_token`: trailing ones and total coefficients. Coefficient counts
/// whose codes are not confirmed in their table are never matched, and a
/// fixed-length code that names more trailing ones than coefficients is none.
pub open spec fn coeff_token(data: Seq<u8>, pos: int, nc: int) -> Result<((u8, u8), int), Error> {
    if nc >= 8 {
        match read_bits(data, pos, 6) {
            Err(e) => Err(e),
            Ok((code, end)) => if plausible(fixed_token(code as int)) {
                Ok((fixed_token(code as int), end))
            } else {
                Err(Error::InvalidData(Reason::FixedTokenCode))
            },
        }
    } else if nc < -2 {
        Err(Error::InvalidData(Reason::NcRange))
    } else {
        match prefix_match(token_table(nc), token_filter(nc), data, pos, 0) {
            Some((v, end)) => Ok((v, end)),
            None => Err(Error::Unsupported(Reason::CoeffTokenCode)),
        }
    }
}

/// Trailing ones and total coefficients of a six-bit code.
pub open spec fn fixed_token(code: int) -> (u8, u8) {
    if code == 3 {
        (0, 0)
    } else {
        ((code % 4) as u8, (code / 4 + 1) as u8)
    }
}

pub open spec fn token_table(nc: int) -> Seq<(u8, u8, u8, u16)> {
    if nc == -1 {
        COEFF_TOKEN_CHROMA_DC_420@
    } else if nc == -2 {
        COEFF_TOKEN_CHROMA_DC_422@
    } else if nc < 2 {
        COEFF_TOKEN_NC0@
    } else if nc < 4 {
        COEFF_TOKEN_NC2@
    } else {
        COEFF_TOKEN_NC4@
    }
}

pub open spec fn token_filter(nc: int) -> Filter {
    if nc == -1 {
        Filter::Without(3, 4)
    } else if nc < 2 {
        Filter::Without(255, 255)
    } else if nc < 4 {
        Filter::Without(14, 15)
    } else {
        Filter::Without(13, 16)
    }
}

/// A possible token: its trailing ones, three at most, are among its
/// coefficients.
pub open spec fn plausible(v: (u8, u8)) -> bool {
    v.0 <= 3 && v.0 <= v.1 && v.1 <= 16
}

proof fn lemma_entry_comes_from_table(
    table: Seq<(u8, u8, u8, u16)>,
    filter: Filter,
    len: int,
    code: int,
    i: int,
)
    requires
        0 <= i,
    ensures
        entry_with_code(table, filter, len, code, i) matches Some(v) ==> exists|k: int|
            i <= k < table.len() && v == (table[k].0, table[k].1) && admits(filter, #[trigger] table[k]),
    decreases table.len() - i,
{
    if i < table.len() {
        lemma_entry_comes_from_table(table, filter, len, code, i + 1);
    }
}

proof fn lemma_match_comes_from_table(
    table: Seq<(u8, u8, u8, u16)>,
    filter: Filter,
    data: Seq<u8>,
    pos: int,
    len: nat,
)
    ensures
        prefix_match(table, filter, data, pos, len) matches Some((v, end)) ==> pos + len < end
            <= pos + 16 && end <= 8 * data.len() && exists|k: int|
            0 <= k < table.len() && v == (table[k].0, table[k].1) && admits(filter, #[trigger] table[k]),
    decreases 16 - len,
{
    if len < 16 && pos + len < 8 * data.len() {
        lemma_entry_comes_from_table(
            table,
            filter,
            len + 1int,
            bits_value(data, pos, len + 1) as int,
            0,
        );
        lemma_match_comes_from_table(table, filter, data, pos, len + 1);
    }
}

/// A decoded token never names more trailing ones than coefficients, nor more
/// than sixteen coefficients.
pub proof fn law_coeff_token_is_plausible(data: Seq<u8>, pos: int, nc: int)
    ensures
        coeff_token(data, pos, nc) matches Ok((v, end)) ==> v.0 <= 3 && v.0 <= v.1 <= 16 && pos < end
            <= 8 * data.len(),
{
    if nc >= 8 {
        lemma_bits_value_fits(data, pos, 6);
        lemma2_to64();
    } else if nc >= -2 {
        lemma_match_comes_from_table(token_table(nc), token_filter(nc), data, pos, 0);
        assert forall|k: int| 0 <= k < token_table(nc).len() implies plausible(
            (token_table(nc)[k].0, #[trigger] token_table(nc)[k].1),
        ) by {}
    }
}

/// Reads a `coeff_token`.
pub fn decode_coeff_token(r: &mut BitReader, nc: i32) -> (v: Result<(u8, u8), Error>)
    requires
        old(r).wf(),
    ensures
        final(r).wf(),
        final(r).data == old(r).data,
        match coeff_token(old(r).data@, old(r).pos as int, nc as int) {
            Ok((t, end)) => v == Ok::<(u8, u8), Error>(t) && final(r).pos == end,
            Err(e) => v == Err::<(u8, u8), Error>(e),
        },
{
    if nc >= 8 {
        proof {
            lemma_bits_value_fits(r.data@, r.pos as int, 6);
            lemma2_to64();
        }
        let code: u32 = r.try_get(6)?;
        if code == 0b00_0011 {
            return Ok((0, 0));
        }
        if code % 4 > code / 4 + 1 {
            return Err(Error::InvalidData(Reason::FixedTokenCode));
        }
        return Ok(((code % 4) as u8, (code / 4 + 1) as u8));
    }
    if nc < -2 {
        return Err(Error::InvalidData(Reason::NcRange));
    }
    let found: Option<(u8, u8)> = if nc == -1 {
        decode_prefix_free(r, COEFF_TOKEN_CHROMA_DC_420.as_slice(), Filter::Without(3, 4))
    } else if nc == -2 {
        decode_prefix_free(r, COEFF_TOKEN_CHROMA_DC_422.as_slice(), Filter::Without(255, 255))
    } else if nc < 2 {
        decode_prefix_free(r, COEFF_TOKEN_NC0.as_slice(), Filter::Without(255, 255))
    } else if nc < 4 {
        decode_prefix_free(r, COEFF_TOKEN_NC2.as_slice(), Filter::Without(14, 15))
    } else {
        decode_prefix_free(r, COEFF_TOKEN_NC4.as_slice(), Filter::Without(13, 16))
    };
    match found {
        Some(v) => Ok(v),
        None => Err(Error::Unsupported(Reason::CoeffTokenCode)),
    }
}

pub open spec fn zeros_table(kind: BlockKind) -> Seq<(u8, u8, u8, u16)> {
    match kind {
        BlockKind::Block4x4 => TOTAL_ZEROS_4X4@,
        BlockKind::ChromaDc420 => TOTAL_ZEROS_CHROMA_DC_420@,
        BlockKind::ChromaDc422 => TOTAL_ZEROS_CHROMA_DC_422@,
    }
}

/// The coefficient counts whose `total_zeros` row is not confirmed.
pub open spec fn zeros_unconfirmed(kind: BlockKind, total_coeff: u8) -> bool {
    match kind {
        BlockKind::Block4x4 => total_coeff == 3 || 8 <= total_coeff <= 13,
        BlockKind::ChromaDc420 => false,
        BlockKind::ChromaDc422 => total_coeff == 2 || total_coeff == 3,
    }
}

/// The number of `total_zeros` rows.
pub open spec fn zeros_rows(kind: BlockKind) -> int {
    match kind {
        BlockKind::Block4x4 => 15,
        BlockKind::ChromaDc420 => 3,
        BlockKind::ChromaDc422 => 7,
    }
}

/// `total_zeros`: the zeros in front of the last coefficient.
pub open spec fn total_zeros(data: Seq<u8>, pos: int, kind: BlockKind, total_coeff: u8) -> Result<
    (u8, int),
    Error,
> {
    if zeros_unconfirmed(kind, total_coeff) {
        Err(Error::Unsupported(Reason::TotalZerosUnconfirmed))
    } else if total_coeff > zeros_rows(kind) {
        Err(Error::InvalidData(Reason::TotalZerosRange))
    } else {
        match prefix_match(zeros_table(kind), Filter::Row(total_coeff), data, pos, 0) {
            Some((v, end)) => Ok((v.1, end)),
            None => Err(Error::InvalidData(Reason::TotalZerosCode)),
        }
    }
}

pub fn decode_total_zeros(r: &mut BitReader, kind: BlockKind, total_coeff: u8) -> (v: Result<
    u8,
    Error,
>)
    requires
        old(r).wf(),
        total_coeff > 0,
    ensures
        final(r).wf(),
        final(r).data == old(r).data,
        match total_zeros(old(r).data@, old(r).pos as int, kind, total_coeff) {
            Ok((z, end)) => v == Ok::<u8, Error>(z) && final(r).pos == end,
            Err(e) => v == Err::<u8, Error>(e),
        },
{
    let (unconfirmed, rows): (bool, u8) = match kind {
        BlockKind::Block4x4 => (total_coeff == 3 || (8 <= total_coeff && total_coeff <= 13), 15),
        BlockKind::ChromaDc420 => (false, 3),
        BlockKind::ChromaDc422 => (total_coeff == 2 || total_coeff == 3, 7),
    };
    if unconfirmed {
        return Err(Error::Unsupported(Reason::TotalZerosUnconfirmed));
    }
    if total_coeff > rows {
        return Err(Error::InvalidData(Reason::TotalZerosRange));
    }
    let found: Option<(u8, u8)> = match kind {
        BlockKind::Block4x4 => decode_prefix_free(
            r,
            TOTAL_ZEROS_4X4.as_slice(),
            Filter::Row(total_coeff),
        ),
        BlockKind::ChromaDc420 => decode_prefix_free(
            r,
            TOTAL_ZEROS_CHROMA_DC_420.as_slice(),
            Filter::Row(total_coeff),
        ),
        BlockKind::ChromaDc422 => decode_prefix_free(
            r,
            TOTAL_ZEROS_CHROMA_DC_422.as_slice(),
            Filter::Row(total_coeff),
        ),
    };
    match found {
        Some(v) => Ok(v.1),
        None => Err(Error::InvalidData(Reason::TotalZerosCode)),
    }
}

/// `run_before`: the zeros in front of one coefficient.
pub open spec fn run_before(data: Seq<u8>, pos: int, zeros_left: u8) -> Result<(u8, int), Error> {
    match prefix_match(
        RUN_BEFORE@,
        Filter::Row(
            if zeros_left > 7 {
                7
            } else {
                zeros_left
            },
        ),
        data,
        pos,
        0,
    ) {
        Some((v, end)) => Ok((v.1, end)),
        None => Err(Error::InvalidData(Reason::RunBeforeCode)),
    }
}

pub fn decode_run_before(r: &mut BitReader, zeros_left: u8) -> (v: Result<u8, Error>)
    requires
        old(r).wf(),
        zeros_left > 0,
    ensures
        final(r).wf(),
        final(r).data == old(r).data,
        match run_before(old(r).data@, old(r).pos as int, zeros_left) {
            Ok((z, end)) => v == Ok::<u8, Error>(z) && final(r).pos == end,
            Err(e) => v == Err::<u8, Error>(e),
        },
{
    let row: u8 = if zeros_left > 7 {
        7
    } else {
        zeros_left
    };
    match decode_prefix_free(r, RUN_BEFORE.as_slice(), Filter::Row(row)) {
        Some(v) => Ok(v.1),
        None => Err(Error::InvalidData(Reason::RunBeforeCode)),
    }
}

/// The unary level prefix from `pos + k` on, added to `k`: at most 30.
pub open spec fn level_prefix(data: Seq<u8>, pos: int, k: int) -> Result<int, Error>
    decreases 31 - k,
{
    if k > 30 {
        Err(Error::InvalidData(Reason::LevelPrefix))
    } else if pos + k >= 8 * data.len() {
        Err(Error::UnexpectedEof)
    } else if bit_at(data, pos + k) == 1 {
        Ok(k)
    } else {
        level_prefix(data, pos, k + 1)
    }
}

/// How many suffix bits follow a prefix.
pub open spec fn level_suffix_size(prefix: int, suffix_length: int) -> int {
    if prefix == 14 && suffix_length == 0 {
        4
    } else if prefix >= 15 {
        prefix - 3
    } else {
        suffix_length
    }
}

/// The code number of a level from its prefix and suffix.
pub open spec fn level_code(
    prefix: int,
    suffix: int,
    suffix_length: int,
    is_first: bool,
    trailing_ones: int,
) -> int {
    (if prefix < 15 {
        prefix
    } else {
        15
    }) * pow2(suffix_length as nat) + suffix + (if prefix >= 15 && suffix_length == 0 {
        15int
    } else {
        0
    }) + (if prefix >= 16 {
        pow2((prefix - 3) as nat) - 4096
    } else {
        0
    }) + (if is_first && trailing_ones < 3 {
        2int
    } else {
        0
    })
}

/// The level that a code number names: 1, -1, 2, -2 and so on.
pub open spec fn level_of_code(code: int) -> int {
    if code % 2 == 0 {
        (code + 2) / 2
    } else {
        -((code + 1) / 2)
    }
}

/// How the suffix length adapts to a decoded level.
pub open spec fn next_suffix_length(suffix_length: int, level: int) -> int {
    let s = if suffix_length == 0 {
        1
    } else {
        suffix_length
    };
    let magnitude = if level < 0 {
        -level
    } else {
        level
    };
    if magnitude > 3 * pow2((s - 1) as nat) && s < 6 {
        s + 1
    } else {
        s
    }
}

/// One level, the adapted suffix length and the position behind it.
pub open spec fn level_at(
    data: Seq<u8>,
    pos: int,
    suffix_length: int,
    is_first: bool,
    trailing_ones: int,
) -> Result<(int, int, int), Error> {
    match level_prefix(data, pos, 0) {
        Err(e) => Err(e),
        Ok(prefix) => match read_bits(
            data,
            pos + prefix + 1,
            level_suffix_size(prefix, suffix_length) as nat,
        ) {
            Err(e) => Err(e),
            Ok((suffix, end)) => {
                let level = level_of_code(
                    level_code(prefix, suffix as int, suffix_length, is_first, trailing_ones),
                );
                Ok((level, next_suffix_length(suffix_length, level), end))
            },
        },
    }
}

proof fn lemma_small_pow2(n: nat)
    requires
        n <= 27,
    ensures
        1 <= pow2(n) <= 0x800_0000,
        n >= 13 ==> pow2(n) >= 8192,
        n <= 6 ==> pow2(n) <= 64,
{
    lemma2_to64();
    vstd::arithmetic::power2::lemma_pow2_pos(n);
    if n < 27 {
        lemma_pow2_strictly_increases(n, 27);
    }
    if 13 < n {
        lemma_pow2_strictly_increases(13, n);
    }
    if n < 6 {
        lemma_pow2_strictly_increases(n, 6);
    }
}

fn level_from_parts(
    prefix: u32,
    suffix: u32,
    suffix_length: u32,
    is_first: bool,
    trailing_ones: u8,
) -> (level: i32)
    requires
        prefix <= 30,
        suffix < 0x800_0000,
        suffix_length <= 6,
    ensures
        level == level_of_code(
            level_code(
                prefix as int,
                suffix as int,
                suffix_length as int,
                is_first,
                trailing_ones as int,
            ),
        ),
        -0x1000_0000 <= level <= 0x1000_0000,
{
    let base: u32 = if prefix < 15 {
        prefix
    } else {
        15
    };
    proof {
        lemma_small_pow2(suffix_length as nat);
        vstd::bits::lemma_u32_shl_is_mul(1, suffix_length as u32);
    }
    let unit: u32 = 1u32 << suffix_length;
    proof {
        assert(0 <= base * unit <= 15 * 64) by (nonlinear_arith)
            requires
                0 <= base <= 15,
                0 <= unit <= 64,
        ;
    }
    let mut code: u32 = base * unit + suffix;
    if prefix >= 15 && suffix_length == 0 {
        code = code + 15;
    }
    if prefix >= 16 {
        proof {
            lemma_small_pow2((prefix - 3) as nat);
            vstd::bits::lemma_u32_shl_is_mul(1, (prefix - 3) as u32);
        }
        code = code + ((1u32 << (prefix - 3)) - 4096);
    }
    if is_first && trailing_ones < 3 {
        code = code + 2;
    }
    if code % 2 == 0 {
        ((code + 2) / 2) as i32
    } else {
        -(((code + 1) / 2) as i32)
    }
}

fn adapt_suffix_length(suffix_length: u32, level: i32) -> (next: u32)
    requires
        suffix_length <= 6,
        level > i32::MIN,
    ensures
        next == next_suffix_length(suffix_length as int, level as int),
        next <= 6,
{
    let next: u32 = if suffix_length == 0 {
        1
    } else {
        suffix_length
    };
    proof {
        lemma_small_pow2((next - 1) as nat);
        vstd::bits::lemma_u32_shl_is_mul(1, (next - 1) as u32);
    }
    let magnitude: u32 = if level < 0 {
        (-level) as u32
    } else {
        level as u32
    };
    if magnitude > 3 * (1u32 << (next - 1)) && next < 6 {
        next + 1
    } else {
        next
    }
}

/// Reads one level, adapting the suffix length.
pub fn decode_level(
    r: &mut BitReader,
    suffix_length: &mut u32,
    is_first: bool,
    trailing_ones: u8,
) -> (v: Result<i32, Error>)
    requires
        old(r).wf(),
        *old(suffix_length) <= 6,
    ensures
        final(r).wf(),
        final(r).data == old(r).data,
        *final(suffix_length) <= 6,
        match level_at(
            old(r).data@,
            old(r).pos as int,
            *old(suffix_length) as int,
            is_first,
            trailing_ones as int,
        ) {
            Ok((level, next, end)) => v matches Ok(l) && l == level && *final(suffix_length) == next
                && final(r).pos == end,
            Err(e) => v == Err::<i32, Error>(e),
        },
{
    let ghost start = r.pos as int;
    let sl: u32 = *suffix_length;
    let mut prefix: u32 = 0;
    loop
        invariant_except_break
            r.wf(),
            r.data == old(r).data,
            start == old(r).pos,
            *suffix_length == sl,
            sl <= 6,
            prefix <= 30,
            r.pos == start + prefix,
            level_prefix(r.data@, start, 0) == level_prefix(r.data@, start, prefix as int),
        ensures
            r.wf(),
            r.data == old(r).data,
            prefix <= 30,
            *suffix_length == sl,
            sl <= 6,
            r.pos == start + prefix + 1,
            level_prefix(r.data@, start, 0) == Ok::<int, Error>(prefix as int),
        decreases 31 - prefix,
    {
        let one: bool = r.try_flag()?;
        if one {
            break;
        }
        prefix = prefix + 1;
        if prefix > 30 {
            return Err(Error::InvalidData(Reason::LevelPrefix));
        }
    }
    let size: u32 = if prefix == 14 && sl == 0 {
        4
    } else if prefix >= 15 {
        prefix - 3
    } else {
        sl
    };
    proof {
        lemma_bits_value_fits(r.data@, r.pos as int, size as nat);
        lemma_small_pow2(size as nat);
    }
    let suffix: u32 = r.try_get(size)?;
    let level: i32 = level_from_parts(prefix, suffix, sl, is_first, trailing_ones);
    *suffix_length = adapt_suffix_length(sl, level);
    Ok(level)
}

/// The signs of the trailing ones from the `i`th on.
pub open spec fn signs_from(
    data: Seq<u8>,
    pos: int,
    i: int,
    trailing_ones: int,
    acc: Seq<i32>,
) -> Result<(Seq<i32>, int), Error>
    decreases trailing_ones - i,
{
    if i >= trailing_ones {
        Ok((acc, pos))
    } else if pos >= 8 * data.len() {
        Err(Error::UnexpectedEof)
    } else {
        let level: i32 = if bit_at(data, pos) == 1 {
            -1i32
        } else {
            1i32
        };
        signs_from(data, pos + 1, i + 1, trailing_ones, acc.push(level))
    }
}

/// The magnitude-coded levels from the `i`th coefficient on.
pub open spec fn levels_from(
    data: Seq<u8>,
    pos: int,
    suffix_length: int,
    i: int,
    trailing_ones: int,
    total_coeff: int,
    acc: Seq<i32>,
) -> Result<(Seq<i32>, int), Error>
    decreases total_coeff - i,
{
    if i >= total_coeff {
        Ok((acc, pos))
    } else {
        match level_at(data, pos, suffix_length, i == trailing_ones, trailing_ones) {
            Err(e) => Err(e),
            Ok((level, next, end)) => levels_from(
                data,
                end,
                next,
                i + 1,
                trailing_ones,
                total_coeff,
                acc.push(level as i32),
            ),
        }
    }
}

/// The zero runs from the `i`th coefficient on: none is read once no zeros are
/// left, and the last coefficient takes the rest.
pub open spec fn runs_from(
    data: Seq<u8>,
    pos: int,
    zeros_left: u8,
    i: int,
    total_coeff: int,
    acc: Seq<u8>,
) -> Result<(Seq<u8>, int), Error>
    decreases total_coeff - i,
{
    if i >= total_coeff {
        Ok((acc, pos))
    } else if i == total_coeff - 1 || zeros_left == 0 {
        runs_from(data, pos, 0, i + 1, total_coeff, acc.push(zeros_left))
    } else {
        match run_before(data, pos, zeros_left) {
            Err(e) => Err(e),
            Ok((run, end)) => if run > zeros_left {
                Err(Error::InvalidData(Reason::RunBeforeRange))
            } else {
                runs_from(
                    data,
                    end,
                    (zeros_left - run) as u8,
                    i + 1,
                    total_coeff,
                    acc.push(run),
                )
            },
        }
    }
}

/// The table family that an `nC` selects.
pub open spec fn kind_of_nc(nc: int) -> BlockKind {
    if nc == -1 {
        BlockKind::ChromaDc420
    } else if nc == -2 {
        BlockKind::ChromaDc422
    } else {
        BlockKind::Block4x4
    }
}

/// The suffix length that the first magnitude-coded level starts from.
pub open spec fn initial_suffix_length(total_coeff: u8, trailing_ones: u8) -> int {
    if total_coeff > 10 && trailing_ones < 3 {
        1
    } else {
        0
    }
}

/// The zeros and their runs, once every level is known. A count of zeros for
/// which the block has no room is an out-of-range value: the block is refused.
pub open spec fn residual_zeros(
    data: Seq<u8>,
    pos: int,
    kind: BlockKind,
    max_num_coeff: u8,
    total_coeff: u8,
    trailing_ones: u8,
    levels: Seq<i32>,
) -> Result<(CavlcBlock, int), Error> {
    let zeros = if total_coeff < max_num_coeff {
        total_zeros(data, pos, kind, total_coeff)
    } else {
        Ok((0u8, pos))
    };
    match zeros {
        Err(e) => Err(e),
        Ok((z, p)) => if z > 0 && z + total_coeff > max_num_coeff {
            Err(Error::InvalidData(Reason::TotalZerosExceed))
        } else {
            match runs_from(data, p, z, 0, total_coeff as int, Seq::<u8>::empty()) {
                Err(e) => Err(e),
                Ok((runs, end)) => Ok(
                    (CavlcBlock { total_coeff, trailing_ones, levels, runs }, end),
                ),
            }
        },
    }
}

/// A whole residual block: the token, the signs of the trailing ones, the other
/// levels, and, unless the block is full, the zeros. `room` is what the memory
/// budget still allows for the five bytes of each coefficient.
pub open spec fn residual_block(
    data: Seq<u8>,
    pos: int,
    nc: int,
    max_num_coeff: u8,
    room: int,
) -> Result<(CavlcBlock, int), Error> {
    match coeff_token(data, pos, nc) {
        Err(e) => Err(e),
        Ok(((t1, tc), p0)) => if tc == 0 {
            Ok((empty_block(0, t1), p0))
        } else if 5 * tc > room {
            Err(Error::LimitExceeded)
        } else {
            match signs_from(data, p0, 0, t1 as int, Seq::<i32>::empty()) {
                Err(e) => Err(e),
                Ok((signs, p1)) => match levels_from(
                    data,
                    p1,
                    initial_suffix_length(tc, t1),
                    t1 as int,
                    t1 as int,
                    tc as int,
                    signs,
                ) {
                    Err(e) => Err(e),
                    Ok((levels, p2)) => residual_zeros(
                        data,
                        p2,
                        kind_of_nc(nc),
                        max_num_coeff,
                        tc,
                        t1,
                        levels,
                    ),
                },
            }
        },
    }
}

/// What the memory budget still allows after a block, whether it could be read
/// or not: four bytes for each level are charged first, then one for each run,
/// as soon as the token is known.
pub open spec fn room_after_block(data: Seq<u8>, pos: int, nc: int, room: int) -> int {
    match coeff_token(data, pos, nc) {
        Err(e) => room,
        Ok(((t1, tc), p0)) => if tc == 0 || 4 * tc > room {
            room
        } else if 5 * tc > room {
            room - 4 * tc
        } else {
            room - 5 * tc
        },
    }
}

/// Decodes one residual block.
///
/// The data is invalid where a code stands in no table, where a run exceeds the
/// zeros that are left, and where a derived value is out of range: an `nC`, a
/// level prefix, or a count of zeros that does not fit next to the coefficients
/// in a block of `max_num_coeff`.
#[verifier::loop_isolation(false)]
#[verifier::rlimit(40)]
pub fn residual_block_cavlc(
    r: &mut BitReader,
    nc: i32,
    max_num_coeff: u8,
    budget: &mut Budget,
) -> (v: Result<CavlcResidual, Error>)
    requires
        old(r).wf(),
    ensures
        final(r).wf(),
        final(r).data == old(r).data,
        final(budget).limit == old(budget).limit,
        final(budget).committed >= old(budget).committed,
        final(budget).room() == room_after_block(
            old(r).data@,
            old(r).pos as int,
            nc as int,
            old(budget).room(),
        ),
        match residual_block(
            old(r).data@,
            old(r).pos as int,
            nc as int,
            max_num_coeff,
            old(budget).room(),
        ) {
            Ok((block, end)) => v matches Ok(b) && b@ == block && final(r).pos == end
                && final(budget).committed == old(budget).committed + 5 * block.total_coeff,
            Err(e) => v matches Err(f) && e == f,
        },
{
    let kind: BlockKind = if nc == -1 {
        BlockKind::ChromaDc420
    } else if nc == -2 {
        BlockKind::ChromaDc422
    } else {
        BlockKind::Block4x4
    };
    proof {
        law_coeff_token_is_plausible(r.data@, r.pos as int, nc as int);
    }
    let (trailing_ones, total_coeff) = decode_coeff_token(r, nc)?;
    let mut levels: Vec<i32> = Vec::new();
    let mut runs: Vec<u8> = Vec::new();
    if total_coeff == 0 {
        return Ok(CavlcResidual { total_coeff, trailing_ones, levels, runs });
    }
    budget.charge(4 * total_coeff as u64)?;
    budget.charge(total_coeff as u64)?;
    let ghost p0 = r.pos as int;
    for i in 0..trailing_ones
        invariant
            r.wf(),
            r.data == old(r).data,
            signs_from(r.data@, p0, 0, trailing_ones as int, Seq::<i32>::empty()) == signs_from(
                r.data@,
                r.pos as int,
                i as int,
                trailing_ones as int,
                levels@,
            ),
    {
        let negative: bool = r.try_flag()?;
        levels.push(
            if negative {
                -1
            } else {
                1
            },
        );
    }
    let ghost p1 = r.pos as int;
    let ghost signs = levels@;
    let mut suffix_length: u32 = if total_coeff > 10 && trailing_ones < 3 {
        1
    } else {
        0
    };
    let mut i: u8 = trailing_ones;
    while i < total_coeff
        invariant
            r.wf(),
            r.data == old(r).data,
            suffix_length <= 6,
            levels_from(
                r.data@,
                p1,
                initial_suffix_length(total_coeff, trailing_ones),
                trailing_ones as int,
                trailing_ones as int,
                total_coeff as int,
                signs,
            ) == levels_from(
                r.data@,
                r.pos as int,
                suffix_length as int,
                i as int,
                trailing_ones as int,
                total_coeff as int,
                levels@,
            ),
        decreases total_coeff - i,
    {
        let level: i32 = decode_level(r, &mut suffix_length, i == trailing_ones, trailing_ones)?;
        levels.push(level);
        i = i + 1;
    }
    let total_zeros: u8 = if total_coeff < max_num_coeff {
        let zeros: u8 = decode_total_zeros(r, kind, total_coeff)?;
        if zeros > max_num_coeff - total_coeff {
            return Err(Error::InvalidData(Reason::TotalZerosExceed));
        }
        zeros
    } else {
        0
    };
    let ghost p3 = r.pos as int;
    let mut zeros_left: u8 = total_zeros;
    for k in 0..total_coeff
        invariant
            r.wf(),
            r.data == old(r).data,
            total_coeff > 0,
            runs_from(r.data@, p3, total_zeros, 0, total_coeff as int, Seq::<u8>::empty())
                == runs_from(
                r.data@,
                r.pos as int,
                zeros_left,
                k as int,
                total_coeff as int,
                runs@,
            ),
    {
        let run: u8 = if k == total_coeff - 1 || zeros_left == 0 {
            zeros_left
        } else {
            decode_run_before(r, zeros_left)?
        };
        if run > zeros_left {
            return Err(Error::InvalidData(Reason::RunBeforeRange));
        }
        runs.push(run);
        zeros_left = zeros_left - run;
    }
    Ok(CavlcResidual { total_coeff, trailing_ones, levels, runs })
}

/// The sum of all runs.
pub open spec fn total_run(runs: Seq<u8>) -> int
    decreases runs.len(),
{
    if runs.len() == 0 {
        0
    } else {
        total_run(runs.drop_last()) + runs.last()
    }
}

/// Every coefficient gets a run, and together the runs account for every zero
/// that the block announced.
pub proof fn law_runs_account_for_every_zero(
    data: Seq<u8>,
    pos: int,
    zeros: u8,
    i: int,
    total_coeff: int,
    acc: Seq<u8>,
)
    requires
        0 <= i < total_coeff || (i == total_coeff && zeros == 0),
    ensures
        runs_from(data, pos, zeros, i, total_coeff, acc) matches Ok((runs, end)) ==> {
            &&& runs.len() == acc.len() + total_coeff - i
            &&& total_run(runs) == total_run(acc) + zeros
            &&& pos <= end
            &&& end <= pos || end <= 8 * data.len()
        },
    decreases total_coeff - i,
{
    if i < total_coeff {
        if i == total_coeff - 1 || zeros == 0 {
            law_runs_account_for_every_zero(data, pos, 0, i + 1, total_coeff, acc.push(zeros));
            assert(acc.push(zeros).drop_last() =~= acc);
        } else {
            lemma_match_comes_from_table(
                RUN_BEFORE@,
                Filter::Row(
                    if zeros > 7 {
                        7
                    } else {
                        zeros
                    },
                ),
                data,
                pos,
                0,
            );
            match run_before(data, pos, zeros) {
                Ok((run, end)) => {
                    if run <= zeros {
                        law_runs_account_for_every_zero(
                            data,
                            end,
                            (zeros - run) as u8,
                            i + 1,
                            total_coeff,
                            acc.push(run),
                        );
                        assert(acc.push(run).drop_last() =~= acc);
                    }
                },
                Err(_) => {},
            }
        }
    }
}

/// No level of the sequence is zero.
pub open spec fn all_nonzero(levels: Seq<i32>) -> bool {
    forall|k: int| 0 <= k < levels.len() ==> #[trigger] levels[k] != 0
}

/// The first `n` levels of the sequence are 1 or -1.
pub open spec fn begins_with_ones(levels: Seq<i32>, n: int) -> bool {
    forall|k: int| 0 <= k < n ==> (#[trigger] levels[k] == 1 || levels[k] == -1)
}

proof fn lemma_signs(data: Seq<u8>, pos: int, i: int, trailing_ones: int, acc: Seq<i32>)
    requires
        0 <= i <= trailing_ones,
        acc.len() == i,
        begins_with_ones(acc, i),
        pos <= 8 * data.len(),
    ensures
        signs_from(data, pos, i, trailing_ones, acc) matches Ok((levels, end)) ==> levels.len()
            == trailing_ones && begins_with_ones(levels, trailing_ones) && pos <= end <= 8
            * data.len(),
    decreases trailing_ones - i,
{
    if i < trailing_ones && pos < 8 * data.len() {
        let level: i32 = if bit_at(data, pos) == 1 {
            -1i32
        } else {
            1i32
        };
        lemma_signs(data, pos + 1, i + 1, trailing_ones, acc.push(level));
    }
}

proof fn lemma_level_prefix_bounds(data: Seq<u8>, pos: int, k: int)
    requires
        0 <= k,
    ensures
        level_prefix(data, pos, k) matches Ok(n) ==> k <= n <= 30,
    decreases 31 - k,
{
    if k <= 30 {
        lemma_level_prefix_bounds(data, pos, k + 1);
    }
}

proof fn lemma_level(data: Seq<u8>, pos: int, sl: int, is_first: bool, t1: int)
    requires
        0 <= sl <= 6,
    ensures
        level_at(data, pos, sl, is_first, t1) matches Ok((level, next, end)) ==> {
            &&& level != 0
            &&& i32::MIN < level <= i32::MAX
            &&& 0 <= next <= 6
            &&& pos < end <= 8 * data.len()
        },
{
    lemma_level_prefix_bounds(data, pos, 0);
    if let Ok(prefix) = level_prefix(data, pos, 0) {
        let size = level_suffix_size(prefix, sl) as nat;
        lemma_small_pow2(size);
        lemma_bits_value_fits(data, pos + prefix + 1, size);
        lemma_small_pow2(sl as nat);
        let base = if prefix < 15 {
            prefix
        } else {
            15
        };
        assert(0 <= base * pow2(sl as nat) <= 15 * 64) by (nonlinear_arith)
            requires
                0 <= base <= 15,
                0 <= pow2(sl as nat) <= 64,
        ;
        if prefix >= 16 {
            lemma_small_pow2((prefix - 3) as nat);
        }
    }
}

proof fn lemma_levels(
    data: Seq<u8>,
    pos: int,
    sl: int,
    i: int,
    t1: int,
    tc: int,
    acc: Seq<i32>,
)
    requires
        0 <= sl <= 6,
        acc.len() == i,
        all_nonzero(acc),
        pos <= 8 * data.len(),
    ensures
        levels_from(data, pos, sl, i, t1, tc, acc) matches Ok((levels, end)) ==> {
            &&& levels.len() == (if i < tc {
                tc
            } else {
                i
            })
            &&& acc == levels.take(acc.len() as int)
            &&& all_nonzero(levels)
            &&& pos <= end <= 8 * data.len()
        },
    decreases tc - i,
{
    if i < tc {
        lemma_level(data, pos, sl, i == t1, t1);
        if let Ok((level, next, end)) = level_at(data, pos, sl, i == t1, t1) {
            let more = acc.push(level as i32);
            lemma_levels(data, end, next, i + 1, t1, tc, more);
            if let Ok((levels, _)) = levels_from(data, end, next, i + 1, t1, tc, more) {
                assert(levels.take(acc.len() as int) =~= levels.take(more.len() as int).take(
                    acc.len() as int,
                ));
                assert(more.take(acc.len() as int) =~= acc);
            }
        }
    } else {
        assert(acc.take(acc.len() as int) =~= acc);
    }
}

/// A coefficient count and the zeros in front never exceed a block's sixteen
/// positions.
pub open spec fn zeros_fit(e: (u8, u8, u8, u16)) -> bool {
    e.0 + e.1 <= 16
}

proof fn lemma_zeros_fit(kind: BlockKind, k: int)
    requires
        0 <= k < zeros_table(kind).len(),
    ensures
        zeros_fit(zeros_table(kind)[k]),
{
}

/// A decoded block has a run for each coefficient and a level for each, no
/// level is zero, the trailing ones come first and are 1 or -1, coefficients
/// and zeros together fit the block, and decoding moves forward inside the
/// data.
pub proof fn law_residual_block_shape(
    data: Seq<u8>,
    pos: int,
    nc: int,
    max_num_coeff: u8,
    room: int,
)
    ensures
        residual_block(data, pos, nc, max_num_coeff, room) matches Ok((block, end)) ==> {
            &&& block.total_coeff <= 16
            &&& block.trailing_ones <= 3
            &&& block.trailing_ones <= block.total_coeff
            &&& block.levels.len() == block.runs.len() == block.total_coeff
            &&& all_nonzero(block.levels)
            &&& begins_with_ones(block.levels, block.trailing_ones as int)
            &&& total_run(block.runs) + block.total_coeff <= 16
            &&& block.total_coeff <= max_num_coeff ==> total_run(block.runs) + block.total_coeff
                <= max_num_coeff
            &&& pos < end <= 8 * data.len()
        },
{
    law_coeff_token_is_plausible(data, pos, nc);
    if let Ok(((t1, tc), p0)) = coeff_token(data, pos, nc) {
        if tc > 0 {
            lemma_signs(data, p0, 0, t1 as int, Seq::<i32>::empty());
            if let Ok((signs, p1)) = signs_from(data, p0, 0, t1 as int, Seq::<i32>::empty()) {
                let sl = initial_suffix_length(tc, t1);
                lemma_levels(data, p1, sl, t1 as int, t1 as int, tc as int, signs);
                if let Ok((levels, p2)) = levels_from(
                    data,
                    p1,
                    sl,
                    t1 as int,
                    t1 as int,
                    tc as int,
                    signs,
                ) {
                    assert(begins_with_ones(levels, t1 as int)) by {
                        assert forall|k: int| 0 <= k < t1 implies (#[trigger] levels[k] == 1
                            || levels[k] == -1) by {
                            assert(levels.take(signs.len() as int)[k] == signs[k]);
                        }
                    }
                    let kind = kind_of_nc(nc);
                    lemma_match_comes_from_table(zeros_table(kind), Filter::Row(tc), data, p2, 0);
                    let zeros = if tc < max_num_coeff {
                        total_zeros(data, p2, kind, tc)
                    } else {
                        Ok((0u8, p2))
                    };
                    if let Ok((z, p)) = zeros {
                        assert forall|k: int| 0 <= k < zeros_table(kind).len() implies zeros_fit(
                            #[trigger] zeros_table(kind)[k],
                        ) by {
                            lemma_zeros_fit(kind, k);
                        }
                        law_runs_account_for_every_zero(
                            data,
                            p,
                            z,
                            0,
                            tc as int,
                            Seq::<u8>::empty(),
                        );
                    }
                }
            }
        }
    }
}

/// A block without coefficients is its token and nothing more.
pub proof fn law_empty_block_is_its_token(
    data: Seq<u8>,
    pos: int,
    nc: int,
    max_num_coeff: u8,
    room: int,
)
    ensures
        residual_block(data, pos, nc, max_num_coeff, room) matches Ok((block, end)) ==> (
        block.total_coeff == 0 ==> {
            &&& coeff_token(data, pos, nc) == Ok::<((u8, u8), int), Error>(((0u8, 0u8), end))
            &&& block.levels.len() == 0
            &&& block.runs.len() == 0
        }),
{
    law_residual_block_shape(data, pos, nc, max_num_coeff, room);
}

proof fn lemma_no_zeros_no_runs(data: Seq<u8>, pos: int, i: int, total_coeff: int, acc: Seq<u8>)
    requires
        0 <= i <= total_coeff,
        acc.len() == i,
        forall|k: int| 0 <= k < i ==> #[trigger] acc[k] == 0,
    ensures
        runs_from(data, pos, 0, i, total_coeff, acc) matches Ok((runs, end)) && end == pos && (
        forall|k: int| 0 <= k < runs.len() ==> #[trigger] runs[k] == 0),
    decreases total_coeff - i,
{
    if i < total_coeff {
        lemma_no_zeros_no_runs(data, pos, i + 1, total_coeff, acc.push(0));
    }
}

/// A full block has no zeros, and reading it ends with its last level: no
/// count of zeros and no run is read.
pub proof fn law_full_block_ends_with_its_levels(
    data: Seq<u8>,
    pos: int,
    nc: int,
    max_num_coeff: u8,
    room: int,
)
    ensures
        residual_block(data, pos, nc, max_num_coeff, room) matches Ok((block, end)) ==> (0
            < block.total_coeff == max_num_coeff ==> {
            let (t1, tc) = (block.trailing_ones, block.total_coeff);
            &&& forall|k: int| 0 <= k < block.runs.len() ==> #[trigger] block.runs[k] == 0
            &&& coeff_token(data, pos, nc) matches Ok((_, p0)) && signs_from(
                data,
                p0,
                0,
                t1 as int,
                Seq::<i32>::empty(),
            ) matches Ok((signs, p1)) && levels_from(
                data,
                p1,
                initial_suffix_length(tc, t1),
                t1 as int,
                t1 as int,
                tc as int,
                signs,
            ) == Ok::<(Seq<i32>, int), Error>((block.levels, end))
        }),
{
    if let Ok(((t1, tc), p0)) = coeff_token(data, pos, nc) {
        if let Ok((signs, p1)) = signs_from(data, p0, 0, t1 as int, Seq::<i32>::empty()) {
            let sl = initial_suffix_length(tc, t1);
            if let Ok((levels, p2)) = levels_from(
                data,
                p1,
                sl,
                t1 as int,
                t1 as int,
                tc as int,
                signs,
            ) {
                lemma_no_zeros_no_runs(data, p2, 0, tc as int, Seq::<u8>::empty());
            }
        }
    }
}

} // verus!
