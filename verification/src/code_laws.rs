//! The variable-length codes of runs and of coefficient counts.
use vstd::prelude::*;
use crate::bits::{bits_value, lemma_bit_at_is_a_bit};
use crate::cavlc::{
    admits, coeff_token, entry_with_code, initial_suffix_length, kind_of_nc, prefix_match,
    run_before, runs_from, BlockKind, Filter,
};
use crate::cavlc_tables::{
    COEFF_TOKEN_CHROMA_DC_420, COEFF_TOKEN_NC0, COEFF_TOKEN_NC2, COEFF_TOKEN_NC4, RUN_BEFORE,
    TOTAL_ZEROS_4X4, TOTAL_ZEROS_CHROMA_DC_420,
};
use crate::error::Error;

verus! {

// ----------------------------------------------------------------------- runs
/// The length and the value of the code of a run where at most `zeros` zeros are
/// left, 7 standing for all larger numbers.
pub open spec fn run_code(zeros: int, run: int) -> (int, int) {
    if zeros == 1 {
        (1, 1 - run)
    } else if zeros == 2 {
        if run == 0 {
            (1, 1)
        } else {
            (2, 2 - run)
        }
    } else if zeros == 3 {
        (2, 3 - run)
    } else if zeros == 4 {
        if run <= 2 {
            (2, 3 - run)
        } else {
            (3, 4 - run)
        }
    } else if zeros == 5 {
        if run <= 1 {
            (2, 3 - run)
        } else {
            (3, 5 - run)
        }
    } else if zeros == 6 {
        if run == 0 {
            (2, 3)
        } else {
            (3, seq![0int, 1, 3, 2, 5, 4][run - 1])
        }
    } else if run <= 6 {
        (3, 7 - run)
    } else {
        (run - 3, 1)
    }
}

/// The runs that have a code.
pub open spec fn run_exists(zeros: int, run: int) -> bool {
    1 <= zeros <= 7 && 0 <= run && (zeros < 7 ==> run <= zeros) && run <= 14
}

/// The table of runs holds these codes and no others.
pub proof fn law_run_table_holds_the_codes(j: int)
    requires
        0 <= j < 42,
    ensures
        ({
            let (zeros, run, len, code) = RUN_BEFORE[j];
            run_exists(zeros as int, run as int) && run_code(zeros as int, run as int) == (
                len as int,
                code as int,
            )
        }),
{
}

proof fn lemma_run_is_in_the_table(zeros: int, run: int) -> (j: int)
    requires
        run_exists(zeros, run),
    ensures
        0 <= j < 42,
        RUN_BEFORE[j].0 == zeros,
        RUN_BEFORE[j].1 == run,
{
    let start = if zeros == 1 {
        0int
    } else if zeros == 2 {
        2
    } else if zeros == 3 {
        5
    } else if zeros == 4 {
        9
    } else if zeros == 5 {
        14
    } else if zeros == 6 {
        20
    } else {
        27
    };
    start + run
}

proof fn lemma_entry(
    table: Seq<(u8, u8, u8, u16)>,
    filter: Filter,
    len: int,
    code: int,
    i: int,
)
    requires
        0 <= i <= table.len(),
    ensures
        match entry_with_code(table, filter, len, code, i) {
            Some(v) => exists|j: int|
                i <= j < table.len() && #[trigger] admits(filter, table[j]) && table[j].2 == len
                    && table[j].3 == code && v == (table[j].0, table[j].1),
            None => forall|j: int|
                i <= j < table.len() && #[trigger] admits(filter, table[j]) && table[j].2 == len
                    ==> table[j].3 != code,
        },
    decreases table.len() - i,
{
    if i < table.len() {
        lemma_entry(table, filter, len, code, i + 1);
        assert(admits(filter, table[i]) || !admits(filter, table[i]));
    }
}

proof fn lemma_shorter(data: Seq<u8>, pos: int, l: nat, n: nat)
    requires
        l < n,
    ensures
        2 * bits_value(data, pos, l) <= bits_value(data, pos, n),
    decreases n,
{
    if l < n - 1 {
        lemma_shorter(data, pos, l, (n - 1) as nat);
    }
}

proof fn lemma_match(data: Seq<u8>, pos: int, zeros: int, run: int, l: nat)
    requires
        0 <= pos,
        run_exists(zeros, run),
        l < run_code(zeros, run).0,
        pos + run_code(zeros, run).0 <= 8 * data.len(),
        bits_value(data, pos, run_code(zeros, run).0 as nat) == run_code(zeros, run).1,
    ensures
        prefix_match(RUN_BEFORE@, Filter::Row(zeros as u8), data, pos, l) == Some(
            ((zeros as u8, run as u8), pos + run_code(zeros, run).0),
        ),
    decreases run_code(zeros, run).0 - l,
{
    let (len, code) = run_code(zeros, run);
    let filter = Filter::Row(zeros as u8);
    let v = bits_value(data, pos, l + 1) as int;
    lemma_entry(RUN_BEFORE@, filter, l + 1int, v, 0);
    let found = entry_with_code(RUN_BEFORE@, filter, l + 1int, v, 0);
    if l + 1 == len {
        let j = lemma_run_is_in_the_table(zeros, run);
        law_run_table_holds_the_codes(j);
        assert(admits(filter, RUN_BEFORE@[j]));
        assert(found is Some);
        let k = choose|k: int|
            0 <= k < 42 && #[trigger] admits(filter, RUN_BEFORE@[k]) && RUN_BEFORE@[k].2 == l + 1
                && RUN_BEFORE@[k].3 == v && found == Some((RUN_BEFORE@[k].0, RUN_BEFORE@[k].1));
        law_run_table_holds_the_codes(k);
    } else {
        if found is Some {
            let k = choose|k: int|
                0 <= k < 42 && #[trigger] admits(filter, RUN_BEFORE@[k]) && RUN_BEFORE@[k].2 == l + 1
                    && RUN_BEFORE@[k].3 == v;
            law_run_table_holds_the_codes(k);
            lemma_shorter(data, pos, l + 1, len as nat);
            if zeros < 7 {
                reveal_with_fuel(bits_value, 4);
                lemma_bit_at_is_a_bit(data, pos);
                lemma_bit_at_is_a_bit(data, pos + 1);
                lemma_bit_at_is_a_bit(data, pos + 2);
            }
            assert(false);
        }
        lemma_match(data, pos, zeros, run, l + 1);
    }
}

/// Runs are read as they are written.
pub proof fn law_runs_round_trip(data: Seq<u8>, pos: int, zeros_left: u8, run: int)
    requires
        0 <= pos,
        1 <= zeros_left,
        0 <= run <= zeros_left,
        run <= 14,
        run_written(data, pos, zeros_left as int, run),
    ensures
        run_before(data, pos, zeros_left) == Ok::<(u8, int), Error>(
            (run as u8, pos + run_code(few(zeros_left as int), run).0),
        ),
{
    lemma_match(data, pos, few(zeros_left as int), run, 0);
}

/// At most seven.
pub open spec fn few(zeros: int) -> int {
    if zeros > 7 {
        7
    } else {
        zeros
    }
}

/// A run's code stands at a position.
pub open spec fn run_written(data: Seq<u8>, pos: int, zeros: int, run: int) -> bool {
    let (len, code) = run_code(few(zeros), run);
    pos + len <= 8 * data.len() && bits_value(data, pos, len as nat) == code
}

/// What the runs from the `i`-th on add up to.
pub open spec fn zeros_behind(runs: Seq<u8>, i: int) -> int
    decreases runs.len() - i,
{
    if i >= runs.len() {
        0
    } else {
        runs[i] + zeros_behind(runs, i + 1)
    }
}

/// The runs from the `i`-th on stand at a position: one after another, while zeros
/// are left and but for the last, which takes what is left.
pub open spec fn runs_written(data: Seq<u8>, pos: int, runs: Seq<u8>, i: int) -> bool
    decreases runs.len() - i,
{
    let zeros = zeros_behind(runs, i);
    if i >= runs.len() - 1 || zeros == 0 {
        true
    } else {
        &&& runs[i] <= 14
        &&& run_written(data, pos, zeros, runs[i] as int)
        &&& runs_written(data, pos + run_code(few(zeros), runs[i] as int).0, runs, i + 1)
    }
}

/// The position behind runs that are written.
pub open spec fn behind_runs(pos: int, runs: Seq<u8>, i: int) -> int
    decreases runs.len() - i,
{
    let zeros = zeros_behind(runs, i);
    if i >= runs.len() - 1 || zeros == 0 {
        pos
    } else {
        behind_runs(pos + run_code(few(zeros), runs[i] as int).0, runs, i + 1)
    }
}

proof fn lemma_zeros_behind(runs: Seq<u8>, i: int)
    requires
        0 <= i,
    ensures
        zeros_behind(runs, i) >= 0,
    decreases runs.len() - i,
{
    if i < runs.len() {
        lemma_zeros_behind(runs, i + 1);
    }
}

/// The runs of a block are read as they are written.
pub proof fn law_runs_of_a_block_round_trip(data: Seq<u8>, pos: int, runs: Seq<u8>, i: int)
    requires
        0 <= pos,
        0 <= i <= runs.len(),
        zeros_behind(runs, i) <= 255,
        runs_written(data, pos, runs, i),
    ensures
        runs_from(
            data,
            pos,
            zeros_behind(runs, i) as u8,
            i,
            runs.len() as int,
            runs.take(i),
        ) == Ok::<(Seq<u8>, int), Error>((runs, behind_runs(pos, runs, i))),
    decreases runs.len() - i,
{
    let zeros = zeros_behind(runs, i);
    lemma_zeros_behind(runs, i);
    if i == runs.len() {
        assert(runs.take(i) =~= runs);
    } else {
        lemma_zeros_behind(runs, i + 1);
        assert(runs.take(i).push(runs[i]) =~= runs.take(i + 1));
        if i == runs.len() - 1 {
            assert(zeros_behind(runs, i + 1) == 0);
            law_runs_of_a_block_round_trip(data, pos, runs, i + 1);
        } else if zeros == 0 {
            assert(runs[i] == 0);
            lemma_no_more_runs(data, pos, runs, i + 1);
            law_runs_of_a_block_round_trip(data, pos, runs, i + 1);
        } else {
            law_runs_round_trip(data, pos, zeros as u8, runs[i] as int);
            law_runs_of_a_block_round_trip(
                data,
                pos + run_code(few(zeros), runs[i] as int).0,
                runs,
                i + 1,
            );
        }
    }
}

proof fn lemma_no_more_runs(data: Seq<u8>, pos: int, runs: Seq<u8>, i: int)
    requires
        zeros_behind(runs, i) == 0,
    ensures
        runs_written(data, pos, runs, i),
        behind_runs(pos, runs, i) == pos,
{
}

// --------------------------------------------------------------------- counts
/// From a predicted count of 8 on a count takes six bits: the number of coefficients,
/// less one, and then the number of trailing ones; no coefficients at all are a 3.
pub proof fn law_counts_of_six_bits_round_trip(data: Seq<u8>, pos: int, nc: int, ones: u8, total: u8)
    requires
        nc >= 8,
        0 <= pos,
        pos + 6 <= 8 * data.len(),
        ones <= 3,
        ones <= total <= 16,
        bits_value(data, pos, 6) == (if total == 0 {
            3int
        } else {
            4 * (total - 1) + ones
        }),
    ensures
        coeff_token(data, pos, nc) == Ok::<((u8, u8), int), Error>(((ones, total), pos + 6)),
{
}

/// Which code counts are written in depends on the predicted count by ranges only:
/// below 2, below 4, below 8, and all others.
pub proof fn law_codes_of_counts_go_by_ranges(data: Seq<u8>, pos: int, a: int, b: int)
    requires
        (0 <= a < 2 && 0 <= b < 2) || (2 <= a < 4 && 2 <= b < 4) || (4 <= a < 8 && 4 <= b < 8) || (8
            <= a && 8 <= b),
    ensures
        coeff_token(data, pos, a) == coeff_token(data, pos, b),
        kind_of_nc(a) == BlockKind::Block4x4,
        kind_of_nc(-1) == BlockKind::ChromaDc420,
{
}

/// Levels start without a suffix, unless there are more than ten coefficients of
/// which fewer than three are trailing ones.
pub proof fn law_first_suffix(total: u8, ones: u8)
    requires
        ones <= 3,
    ensures
        total <= 10 || ones == 3 ==> initial_suffix_length(total, ones) == 0,
        total >= 11 && ones <= 2 ==> initial_suffix_length(total, ones) == 1,
{
}

// --------------------------------------------------------------- code tables
/// The lengths and values of the codes of counts where the predicted count is below 2: for a number
/// of trailing ones, by the number of other coefficients.
pub open spec fn few_neighbours(ones: int) -> Seq<(int, int)> {
    if ones == 0 {
        seq![
            (1int, 1int), (6, 5), (8, 7), (9, 7), (10, 7), (11, 7), (13, 15), (13, 11), (13, 8),
            (14, 15), (14, 11), (15, 15), (15, 11), (16, 15), (16, 11), (16, 7), (16, 4),
        ]
    } else if ones == 1 {
        seq![
            (2int, 1int), (6, 4), (8, 6), (9, 6), (10, 6), (11, 6), (13, 14), (13, 10), (14, 14),
            (14, 10), (15, 14), (15, 10), (15, 1), (16, 14), (16, 10), (16, 6),
        ]
    } else if ones == 2 {
        seq![
            (3int, 1int), (7, 5), (8, 5), (9, 5), (10, 5), (11, 5), (13, 13), (13, 9), (14, 13),
            (14, 9), (15, 13), (15, 9), (16, 13), (16, 9), (16, 5),
        ]
    } else {
        seq![
            (5int, 3int), (6, 3), (7, 4), (8, 4), (9, 4), (10, 4), (11, 4), (13, 12), (14, 12),
            (14, 8), (15, 12), (15, 8), (16, 12), (16, 8),
        ]
    }
}

/// The lengths and values of the codes of counts where the predicted count is 2 or 3: for a number
/// of trailing ones, by the number of other coefficients.
pub open spec fn some_neighbours(ones: int) -> Seq<(int, int)> {
    if ones == 0 {
        seq![
            (2int, 3int), (6, 11), (6, 7), (7, 7), (8, 7), (8, 4), (9, 7), (11, 15), (11, 11),
            (12, 15), (12, 11), (12, 8), (13, 15), (13, 11), (13, 7), (14, 9), (14, 7),
        ]
    } else if ones == 1 {
        seq![
            (2int, 2int), (5, 7), (6, 10), (6, 6), (7, 6), (8, 6), (9, 6), (11, 14), (11, 10),
            (12, 14), (12, 10), (13, 14), (13, 10), (14, 11), (14, 8), (14, 6),
        ]
    } else if ones == 2 {
        seq![
            (3int, 3int), (6, 9), (6, 5), (7, 5), (8, 5), (9, 5), (11, 13), (11, 9), (12, 13),
            (12, 9), (13, 13), (13, 9), (13, 6), (14, 10), (14, 5),
        ]
    } else {
        seq![
            (4int, 5int), (4, 4), (5, 6), (6, 8), (6, 4), (7, 4), (9, 4), (11, 12), (11, 8),
            (12, 12), (13, 12), (13, 8), (13, 1), (14, 4),
        ]
    }
}

/// The lengths and values of the codes of counts where the predicted count is from 4 to 7: for a number
/// of trailing ones, by the number of other coefficients.
pub open spec fn many_neighbours(ones: int) -> Seq<(int, int)> {
    if ones == 0 {
        seq![
            (4int, 15int), (6, 15), (6, 11), (6, 8), (7, 15), (7, 11), (7, 9), (7, 8), (8, 15),
            (8, 11), (9, 15), (9, 11), (9, 8), (10, 13), (10, 9), (10, 5), (10, 1),
        ]
    } else if ones == 1 {
        seq![
            (4int, 14int), (5, 15), (5, 12), (5, 10), (5, 8), (6, 14), (6, 10), (7, 14), (8, 14),
            (8, 10), (9, 14), (9, 10), (9, 7), (10, 12), (10, 8), (10, 4),
        ]
    } else if ones == 2 {
        seq![
            (4int, 13int), (5, 14), (5, 11), (5, 9), (6, 13), (6, 9), (7, 13), (7, 10), (8, 13),
            (8, 9), (9, 13), (9, 9), (10, 11), (10, 7), (10, 3),
        ]
    } else {
        seq![
            (4int, 12int), (4, 11), (4, 10), (4, 9), (4, 8), (5, 13), (6, 12), (7, 12), (8, 12),
            (8, 8), (9, 12), (10, 10), (10, 6), (10, 2),
        ]
    }
}

/// The lengths and values of the codes of counts of chroma DC blocks: for a number
/// of trailing ones, by the number of other coefficients.
pub open spec fn chroma_counts(ones: int) -> Seq<(int, int)> {
    if ones == 0 {
        seq![
            (2int, 1int), (6, 7), (6, 4), (6, 3), (6, 2),
        ]
    } else if ones == 1 {
        seq![
            (1int, 1int), (6, 6), (7, 3), (8, 3),
        ]
    } else if ones == 2 {
        seq![
            (3int, 1int), (7, 2), (8, 2),
        ]
    } else {
        seq![
            (6int, 5int), (7, 0),
        ]
    }
}

/// The lengths and values of the codes of the zeros between the coefficients
/// of a block of sixteen, for a number of coefficients.
pub open spec fn zeros_codes(total: int) -> Seq<(int, int)> {
    if total == 1 {
        seq![
            (1int, 1int), (3, 3), (3, 2), (4, 3), (4, 2), (5, 3), (5, 2), (6, 3), (6, 2), (7, 3),
            (7, 2), (8, 3), (8, 2), (9, 3), (9, 2), (9, 1),
        ]
    } else if total == 2 {
        seq![
            (3int, 7int), (3, 6), (3, 5), (3, 4), (3, 3), (4, 5), (4, 4), (4, 3), (4, 2), (5, 3),
            (5, 2), (6, 3), (6, 2), (6, 1), (6, 0),
        ]
    } else if total == 3 {
        seq![
            (4int, 5int), (3, 7), (3, 6), (3, 5), (4, 4), (4, 3), (3, 4), (3, 3), (4, 2), (5, 3),
            (5, 2), (6, 1), (5, 1), (6, 0),
        ]
    } else if total == 4 {
        seq![
            (5int, 3int), (3, 7), (4, 5), (4, 4), (3, 6), (3, 5), (3, 4), (4, 3), (3, 3), (4, 2),
            (5, 2), (5, 1), (5, 0),
        ]
    } else if total == 5 {
        seq![
            (4int, 5int), (4, 4), (4, 3), (3, 7), (3, 6), (3, 5), (3, 4), (3, 3), (4, 2), (5, 1),
            (4, 1), (5, 0),
        ]
    } else if total == 6 {
        seq![
            (6int, 1int), (5, 1), (3, 7), (3, 6), (3, 5), (3, 4), (3, 3), (3, 2), (4, 1), (3, 1),
            (6, 0),
        ]
    } else if total == 7 {
        seq![
            (6int, 1int), (5, 1), (3, 5), (3, 4), (3, 3), (2, 3), (3, 2), (4, 1), (3, 1), (6, 0),
        ]
    } else if total == 8 {
        seq![
            (6int, 1int), (4, 1), (5, 1), (3, 3), (2, 3), (2, 2), (3, 2), (3, 1), (6, 0),
        ]
    } else if total == 9 {
        seq![
            (6int, 1int), (6, 0), (4, 1), (2, 3), (2, 2), (3, 1), (2, 1), (5, 1),
        ]
    } else if total == 10 {
        seq![
            (5int, 1int), (5, 0), (3, 1), (2, 3), (2, 2), (2, 1), (4, 1),
        ]
    } else if total == 11 {
        seq![
            (4int, 0int), (4, 1), (3, 1), (3, 2), (1, 1), (3, 3),
        ]
    } else if total == 12 {
        seq![
            (4int, 0int), (4, 1), (2, 1), (1, 1), (3, 1),
        ]
    } else if total == 13 {
        seq![
            (3int, 0int), (3, 1), (1, 1), (2, 1),
        ]
    } else if total == 14 {
        seq![
            (2int, 0int), (2, 1), (1, 1),
        ]
    } else {
        seq![
            (1int, 0int), (1, 1),
        ]
    }
}

/// The lengths and values of the codes of the zeros between the coefficients
/// of a chroma DC block, for a number of coefficients.
pub open spec fn chroma_zeros_codes(total: int) -> Seq<(int, int)> {
    if total == 1 {
        seq![
            (1int, 1int), (2, 1), (3, 1), (3, 0),
        ]
    } else if total == 2 {
        seq![
            (1int, 1int), (2, 1), (2, 0),
        ]
    } else {
        seq![
            (1int, 1int), (1, 0),
        ]
    }
}

/// The tables of counts hold these codes.
#[verifier::rlimit(60)]
pub proof fn law_count_tables_hold_the_codes(j: int)
    requires
        0 <= j < 62,
    ensures
        ({
            let (ones, total, len, code) = COEFF_TOKEN_NC0[j];
            ones <= 3 && ones <= total <= 16 && few_neighbours(ones as int)[total - ones] == (
                len as int,
                code as int,
            )
        }),
        ({
            let (ones, total, len, code) = COEFF_TOKEN_NC2[j];
            ones <= 3 && ones <= total <= 16 && some_neighbours(ones as int)[total - ones] == (
                len as int,
                code as int,
            )
        }),
        ({
            let (ones, total, len, code) = COEFF_TOKEN_NC4[j];
            ones <= 3 && ones <= total <= 16 && many_neighbours(ones as int)[total - ones] == (
                len as int,
                code as int,
            )
        }),
{
}

/// The table of the counts of chroma DC blocks holds these codes.
pub proof fn law_chroma_count_table_holds_the_codes(j: int)
    requires
        0 <= j < 14,
    ensures
        ({
            let (ones, total, len, code) = COEFF_TOKEN_CHROMA_DC_420[j];
            ones <= 3 && ones <= total <= 4 && chroma_counts(ones as int)[total - ones] == (
                len as int,
                code as int,
            )
        }),
{
}

/// The tables of zeros hold these codes.
#[verifier::rlimit(60)]
pub proof fn law_zeros_tables_hold_the_codes(j: int)
    requires
        0 <= j < 135,
    ensures
        ({
            let (total, zeros, len, code) = TOTAL_ZEROS_4X4[j];
            1 <= total <= 15 && zeros + total <= 16 && zeros_codes(total as int)[zeros as int] == (
                len as int,
                code as int,
            )
        }),
        j < 9 ==> ({
            let (total, zeros, len, code) = TOTAL_ZEROS_CHROMA_DC_420[j];
            1 <= total <= 3 && zeros + total <= 4 && chroma_zeros_codes(total as int)[zeros as int]
                == (len as int, code as int)
        }),
{
}

/// With a single coefficient, zeros are written as a 1 behind one 0 for every two of
/// them, and a bit that tells the two apart; none at all and all fifteen as a 1 alone.
pub proof fn law_zeros_of_a_single_coefficient(zeros: int)
    requires
        0 <= zeros <= 15,
    ensures
        zeros == 0 ==> zeros_codes(1)[zeros] == (1int, 1int),
        zeros % 2 == 1 && zeros < 15 ==> zeros_codes(1)[zeros] == ((zeros + 1) / 2 + 2, 3int),
        zeros % 2 == 0 && zeros > 0 ==> zeros_codes(1)[zeros] == (zeros / 2 + 2, 2int),
        zeros == 15 ==> zeros_codes(1)[zeros] == (9int, 1int),
{
}

} // verus!
