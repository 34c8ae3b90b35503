//! What happens to whole pictures: how they are scheduled, copied out and described.
use vstd::prelude::*;
use crate::access_unit::{display_of, pps_id, slices, told, SeiMessage, Told, Unit};
use crate::budget::charged_from;
use crate::cabac_residual::CabacInit;
use crate::cavlc_laws::{law_unsigned_numbers_round_trip, written};
use crate::contexts::{init_column, initial_model, ContextModel};
use crate::error::Error;
use crate::frame_task::{schedule_len, schedule_of, waits_of, Action, RowReach, Strip};
use crate::headers::{refusal, temporal_direct, ChromaFormat, Pps, SliceHeader, Sps};
use crate::mb_type::SliceKind;
use crate::output::{cropped, half_up, picture_bytes};

verus! {

// ------------------------------------------------------------------- schedule
/// Rows are reconstructed from the top down, each once, and so are they filtered.
/// Whatever is to be done once for the whole picture comes first.
pub proof fn law_rows_run_down(high: int, row_wise: bool, filtered: bool, i: int, j: int)
    requires
        0 <= high <= u32::MAX,
        0 <= i < j < schedule_len(high, row_wise, filtered),
    ensures
        ({
            let plan = schedule_of(high, row_wise, filtered);
            &&& plan[j] != Action::ReconstructAll
            &&& plan[i] matches Action::Reconstruct(a) ==> plan[j] matches Action::Reconstruct(b)
                ==> a < b
            &&& plan[i] matches Action::Filter(a) ==> plan[j] matches Action::Filter(b) ==> a <= b
            &&& !filtered ==> !(plan[j] is Filter)
            &&& row_wise ==> !(plan[i] is ReconstructAll)
            &&& !row_wise ==> !(plan[j] is Reconstruct)
        }),
{
}

/// A plan ends with making the whole picture public.
pub proof fn law_plans_end_with_everything_public(high: int, row_wise: bool, filtered: bool)
    requires
        0 <= high,
        16 * high <= u32::MAX,
    ensures
        schedule_of(high, row_wise, filtered).len() > 0,
        schedule_of(high, row_wise, filtered).last() == Action::Publish(
            (16 * high) as u32,
            (8 * high) as u32,
        ),
{
}

/// Rows become public as soon as they are final: behind the reconstruction of a row
/// where nothing is filtered, and otherwise behind its filtering, but for the three
/// luma rows and the one chroma row that filtering the next one still reaches.
pub proof fn law_rows_become_public_at_once(high: int, filtered: bool, i: int)
    requires
        0 <= high,
        16 * high <= u32::MAX,
        0 <= i,
        i + 1 < schedule_len(high, true, filtered) - 1,
    ensures
        ({
            let plan = schedule_of(high, true, filtered);
            &&& !filtered ==> (plan[i] matches Action::Reconstruct(k) ==> plan[i + 1]
                == Action::Publish((16 * k + 16) as u32, (8 * k + 8) as u32))
            &&& filtered ==> (plan[i] matches Action::Filter(k) ==> k + 1 < high ==> plan[i + 1]
                == Action::Publish((16 * k + 13) as u32, (8 * k + 7) as u32))
        }),
{
}

/// The waits of a row: for each reference its luma plane and then its two chroma
/// planes, each down to the deepest row that is read of it, if any is.
pub proof fn law_waits_name_every_plane(reach: RowReach, refs: int, r: int)
    requires
        0 <= r < refs <= 0x1000_0000,
    ensures
        ({
            let waits = waits_of(reach, refs);
            &&& waits.len() == 3 * refs
            &&& waits[3 * r].reference == r && waits[3 * r].plane == 0
            &&& waits[3 * r + 1].reference == r && waits[3 * r + 1].plane == 1
            &&& waits[3 * r + 2].reference == r && waits[3 * r + 2].plane == 2
            &&& r < reach.luma@.len() ==> waits[3 * r].row == reach.luma@[r]
            &&& r >= reach.luma@.len() ==> waits[3 * r].row is None
            &&& r < reach.chroma@.len() ==> waits[3 * r + 1].row == reach.chroma@[r]
                && waits[3 * r + 2].row == reach.chroma@[r]
            &&& r >= reach.chroma@.len() ==> waits[3 * r + 1].row is None && waits[3 * r
                + 2].row is None
        }),
{
}

/// A band that was filled holds the rows of the picture from its own first on.
pub proof fn law_bands_hold_their_rows(s: Strip, src: Seq<u8>, stride: int, x: int, y: int)
    requires
        s.wf(),
        0 <= x < s.width,
        0 <= y < s.rows,
    ensures
        s.filled(src, stride).samples[y * s.width + x] == src[(s.first_row + y) * stride + x],
        s.filled(src, stride).samples.len() == s.samples.len(),
        s.filled(src, stride).first_row == s.first_row,
{
    let i = y * s.width + x;
    vstd::arithmetic::div_mod::lemma_fundamental_div_mod_converse(i, s.width, y, x);
    assert(i < s.rows * s.width) by (nonlinear_arith)
        requires
            i == y * s.width + x,
            0 <= x < s.width,
            0 <= y < s.rows,
    ;
    assert(0 <= i) by (nonlinear_arith)
        requires
            i == y * s.width + x,
            0 <= x < s.width,
            0 <= y,
    ;
}

// --------------------------------------------------------------------- output
/// What is shown is the part of the plane that starts at the corner: the sample at
/// `(x, y)` of the one is that at `(x0 + x, y0 + y)` of the other.
pub proof fn law_cropping_shifts(
    src: Seq<u8>,
    stride: int,
    rows: int,
    x0: int,
    y0: int,
    width: int,
    x: int,
    y: int,
)
    requires
        src.len() == stride * rows,
        0 <= x < width,
        0 <= x0,
        x0 + width <= stride,
        0 <= y0,
        0 <= y,
        y0 + y < rows,
    ensures
        cropped(src, stride, x0, y0, width, x, y) == src[(y0 + y) * stride + (x0 + x)],
{
    assert((y0 + y) * stride + x0 + width <= stride * rows) by (nonlinear_arith)
        requires
            y0 + y + 1 <= rows,
            x0 + width <= stride,
            0 <= stride,
    ;
}

/// Moving the corner moves what is shown.
pub proof fn law_corners_add_up(
    src: Seq<u8>,
    stride: int,
    x0: int,
    y0: int,
    width: int,
    x: int,
    y: int,
    by: int,
)
    ensures
        cropped(src, stride, x0, y0 + by, width, x, y) == cropped(src, stride, x0, y0, width, x, y + by),
{
}

/// A chroma plane has a sample for every pair of luma samples, the last of which may
/// stand alone.
pub proof fn law_chroma_covers_luma(n: int)
    ensures
        n <= 2 * half_up(n) <= n + 1,
{
}

/// A macroblock has 384 samples.
pub proof fn law_pictures_take_their_samples(wide: int, high: int)
    requires
        0 <= wide <= 0xffff,
        0 <= high <= 0xffff,
    ensures
        picture_bytes(wide, high) == 384 * (wide * high),
{
    assert(0 <= wide * high <= 0xffff * 0xffff) by (nonlinear_arith)
        requires
            0 <= wide <= 0xffff,
            0 <= high <= 0xffff,
    ;
}

// ------------------------------------------------------------------- messages
/// A display is described by its primaries, which come as green, blue, red, in
/// units of 1/50000, and by its levels, in units of 1/10000 as far as they fit.
pub proof fn law_displays_are_described(
    green: (u16, u16),
    blue: (u16, u16),
    red: (u16, u16),
    white: (u16, u16),
    max: u32,
    min: u32,
)
    ensures
        ({
            let d = display_of(green, blue, red, white, max, min);
            &&& d.green.x.num == green.0 && d.green.y.num == green.1
            &&& d.blue.x.num == blue.0 && d.blue.y.num == blue.1
            &&& d.red.x.num == red.0 && d.red.y.num == red.1
            &&& d.white_point.x.num == white.0 && d.white_point.y.num == white.1
            &&& d.green.x.den == 50000 && d.green.y.den == 50000
            &&& d.blue.x.den == 50000 && d.blue.y.den == 50000
            &&& d.red.x.den == 50000 && d.red.y.den == 50000
            &&& d.white_point.x.den == 50000 && d.white_point.y.den == 50000
            &&& d.max_luminance.den == 10000 && d.min_luminance.den == 10000
            &&& max <= i32::MAX ==> d.max_luminance.num == max
            &&& min <= i32::MAX ==> d.min_luminance.num == min
            &&& max > i32::MAX ==> d.max_luminance.num == i32::MAX
            &&& min > i32::MAX ==> d.min_luminance.num == i32::MAX
        }),
{
}

/// Captions add up; of the other messages the latest counts, and none touches what
/// the others say.
pub proof fn law_messages_add_up(t: Told, m: SeiMessage)
    ensures
        ({
            let u = t.and(m);
            &&& m matches SeiMessage::Captions(b) ==> u.captions == t.captions + b@ && u.display
                == t.display && u.light == t.light
            &&& m matches SeiMessage::LightLevel { max, average } ==> u.captions == t.captions
                && u.display == t.display && u.light == Some((max as u32, average as u32))
            &&& m is Display ==> u.captions == t.captions && u.display is Some && u.light == t.light
            &&& m is Other ==> u == t
        }),
{
}

/// Nothing that captions say is lost or repeated, however messages are grouped into
/// units: one more unit of supplemental messages adds its messages in order.
pub proof fn law_units_are_told_in_order(units: Seq<Unit>, n: int)
    requires
        0 <= n < units.len(),
    ensures
        told(units, 0) == (Told { captions: Seq::empty(), display: None, light: None }),
        !(units[n] is Sei) ==> told(units, n + 1) == told(units, n),
        units[n] matches Unit::Sei(ms) ==> ms@.len() == 0 ==> told(units, n + 1) == told(units, n),
        units[n] matches Unit::Sei(ms) ==> ms@.len() == 1 ==> told(units, n + 1) == told(
            units,
            n,
        ).and(ms@[0]),
        units[n] matches Unit::Sei(ms) ==> ms@.len() == 2 ==> told(units, n + 1) == told(
            units,
            n,
        ).and(ms@[0]).and(ms@[1]),
{
    reveal_with_fuel(Told::and_all, 3);
}

/// The slices of an access unit are all of its units that are slices, in order.
pub proof fn law_slices_are_found(units: Seq<Unit>, n: int, i: usize)
    requires
        0 <= n <= units.len() <= usize::MAX,
    ensures
        slices(units, n).contains(i) <==> i < n && units[i as int] is Slice,
        forall|a: int, b: int|
            0 <= a < b < slices(units, n).len() ==> #[trigger] slices(units, n)[a]
                < #[trigger] slices(units, n)[b],
        forall|a: int| 0 <= a < slices(units, n).len() ==> (#[trigger] slices(units, n)[a]) < n,
    decreases n,
{
    if n > 0 {
        law_slices_are_found(units, n - 1, i);
        let before = slices(units, n - 1);
        if units[n - 1] is Slice {
            let all = before.push((n - 1) as usize);
            assert(all[before.len() as int] == n - 1);
            if before.contains(i) {
                let k = choose|k: int| 0 <= k < before.len() && before[k] == i;
                assert(all[k] == i);
            }
            if all.contains(i) && i != n - 1 {
                let k = choose|k: int| 0 <= k < all.len() && all[k] == i;
                assert(before[k] == i);
            }
        }
    }
}

/// The parameter set of a slice is the third number behind the first byte: the
/// first may be anything, the second at most 9, the third at most 255.
pub proof fn law_parameter_set_is_the_third_number(
    rbsp: Seq<u8>,
    first: (int, int),
    kind: (int, int),
    id: (int, int),
)
    requires
        rbsp.len() >= 1,
        written(rbsp, 8, first.0, first.1),
        written(rbsp, 9 + 2 * first.0, kind.0, kind.1),
        written(rbsp, 10 + 2 * first.0 + 2 * kind.0, id.0, id.1),
        first.1 <= 0xffff_ffff,
    ensures
        kind.1 <= 9 && id.1 <= 255 ==> pps_id(rbsp) == Ok::<int, Error>(id.1),
        kind.1 > 9 || id.1 > 255 ==> pps_id(rbsp) is Err,
{
    law_unsigned_numbers_round_trip(rbsp, 8, first.0, first.1, 0xffff_ffff);
    law_unsigned_numbers_round_trip(rbsp, 9 + 2 * first.0, kind.0, kind.1, 9);
    law_unsigned_numbers_round_trip(rbsp, 10 + 2 * first.0 + 2 * kind.0, id.0, id.1, 255);
}

// -------------------------------------------------------------------- headers
/// A slice is decoded only from frames without constrained intra prediction, in
/// 4:2:0, and not of the kind that switches between streams; which of these fails
/// first is the reason given.
pub proof fn law_scope_of_slices(sps: Sps, pps: Pps, header: SliceHeader)
    ensures
        refusal(sps, pps, header) is None <==> !sps.mb_adaptive_frame_field && !header.field_pic
            && !pps.constrained_intra_pred && sps.chroma_format == ChromaFormat::Yuv420
            && header.kind != SliceKind::Si,
        sps.frame_mbs_only ==> sps.mbs_high() == sps.pic_height_in_map_units,
        !sps.frame_mbs_only ==> sps.mbs_high() == sps.pic_height_in_map_units
            + sps.pic_height_in_map_units,
        temporal_direct(header) <==> header.kind == SliceKind::B && (header.direct_spatial_mv_pred
            == Some(false) || header.direct_spatial_mv_pred is None),
{
    if let Some(spatial) = header.direct_spatial_mv_pred {
        assert(spatial == true || spatial == false);
    }
}

/// A slice starts from the picture's quantiser moved by its own difference, kept
/// from 0 to 51.
pub proof fn law_slices_start_from_the_pictures_quantiser(pps: Pps, delta: int)
    ensures
        0 <= pps.slice_qp(delta) <= 51,
        0 <= pps.pic_init_qp + delta <= 51 ==> pps.slice_qp(delta) == pps.pic_init_qp + delta,
        pps.pic_init_qp + delta < 0 ==> pps.slice_qp(delta) == 0,
        pps.pic_init_qp + delta > 51 ==> pps.slice_qp(delta) == 51,
{
}

// ------------------------------------------------------------------- contexts
/// How sure a context is of a 1: the odd numbers from -125 to 125.
pub open spec fn leaning(m: ContextModel) -> int {
    if m.mps {
        2 * m.state + 1
    } else {
        -(2 * m.state + 1)
    }
}

/// A context starts leaning as its pair says: by its offset, and by its slope for
/// every sixteenth quantiser, rounded down; and never surer than 125.
pub proof fn law_contexts_start_leaning(pair: (i16, i16), qp: int)
    requires
        0 <= qp <= 51,
    ensures
        ({
            let l = leaning(initial_model(pair, qp));
            let line = pair.0 * qp + 16 * pair.1;
            &&& -125 <= l <= 125
            &&& -125 < l < 125 ==> 8 * (l + 127) <= line < 8 * (l + 127) + 16
            &&& l == -125 ==> line < 32
            &&& l == 125 ==> line >= 16 * 126
        }),
{
}

/// Quantisers outside the range count as the nearest inside it.
pub proof fn law_contexts_know_the_range_of_quantisers(pair: (i16, i16), qp: int)
    ensures
        qp < 0 ==> initial_model(pair, qp) == initial_model(pair, 0),
        qp > 51 ==> initial_model(pair, qp) == initial_model(pair, 51),
{
}

/// Intra slices have a column of their own; the others have one for each of the
/// three indices.
pub proof fn law_columns_of_slices(idc: u8)
    ensures
        init_column(CabacInit::IorSi) == 0,
        idc <= 2 ==> init_column(CabacInit::PSpB(idc)) == idc + 1,
{
}

// --------------------------------------------------------------------- budget
/// What charges add up to.
pub open spec fn sum_of(charges: Seq<int>) -> int
    decreases charges.len(),
{
    if charges.len() == 0 {
        0
    } else {
        charges[0] + sum_of(charges.drop_first())
    }
}

proof fn lemma_charges_from(charges: Seq<int>, room: int, i: int)
    requires
        0 <= i <= charges.len(),
        forall|k: int| 0 <= k < charges.len() ==> #[trigger] charges[k] >= 0,
    ensures
        0 <= charged_from(charges, room, i),
        room >= 0 ==> charged_from(charges, room, i) <= room,
        sum_of(charges.skip(i)) <= room ==> charged_from(charges, room, i) == sum_of(
            charges.skip(i),
        ),
        sum_of(charges.skip(i)) >= 0,
    decreases charges.len() - i,
{
    if i < charges.len() {
        lemma_charges_from(charges, room - charges[i], i + 1);
        assert(charges.skip(i).drop_first() =~= charges.skip(i + 1));
        assert(charges.skip(i)[0] == charges[i]);
    }
}

/// Charges are taken in order up to the first that finds no room: never more than
/// there is, all of them where they fit, and nothing behind one that does not.
pub proof fn law_charges_stop_where_there_is_no_room(charges: Seq<int>, room: int)
    requires
        0 <= room,
        forall|k: int| 0 <= k < charges.len() ==> #[trigger] charges[k] >= 0,
    ensures
        0 <= charged_from(charges, room, 0) <= room,
        sum_of(charges) <= room ==> charged_from(charges, room, 0) == sum_of(charges),
        charges.len() > 0 && charges[0] > room ==> charged_from(charges, room, 0) == 0,
{
    lemma_charges_from(charges, room, 0);
    assert(charges.skip(0) =~= charges);
}

} // verus!
