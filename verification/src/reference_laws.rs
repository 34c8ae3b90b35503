//! Which pictures are referenced, which leave, and in which order they are shown.
use vstd::prelude::*;
use crate::budget::given_back;
use crate::marking::{Buffer, MarkingCommand};
use crate::refs::{
    at_most, default_list0, default_list1, find_from, in_order, keys0, keys1,
    law_found_pictures_have_the_number, law_named_pictures_lead_the_list, law_order_is_stable,
    law_order_is_unique, modified_from, modified_list, moved_to, order_of, padded, step_number,
    stepped, unwrapped, without, wrapped, CurrentPicture, RefPicListModification, Stored,
};
use crate::reorder::{joined, leaving, lowest, taken};

verus! {

// -------------------------------------------------------------------- numbers
/// Some whole cycles of frame numbers.
pub open spec fn cycles(n: int, max_frame_num: int) -> int {
    n * max_frame_num
}

/// A frame number counted from the current picture differs from the number itself
/// by a whole cycle or not at all, and lies in the cycle that ends with the current
/// picture.
pub proof fn law_wrapping_stays_in_the_cycle(stored: int, curr: int, max_frame_num: int)
    requires
        0 <= stored < max_frame_num,
        0 <= curr < max_frame_num,
    ensures
        curr - max_frame_num < wrapped(stored, curr, max_frame_num) <= curr,
        wrapped(stored, curr, max_frame_num) == stored || wrapped(stored, curr, max_frame_num)
            == stored - max_frame_num,
{
}

/// What the steps of a modification up to the `k`-th add up to: each counts back
/// where its kind is 0, and on otherwise.
pub open spec fn counted(mods: Seq<RefPicListModification>, k: int) -> int
    decreases k + 1,
{
    if k < 0 {
        0
    } else {
        counted(mods, k - 1) + (if mods[k].idc == 0 {
            -(mods[k].value + 1)
        } else {
            mods[k].value + 1
        })
    }
}

proof fn lemma_steps_add_up(
    mods: Seq<RefPicListModification>,
    i: int,
    k: int,
    pred: int,
    max_frame_num: int,
    n: int,
    from: int,
) -> (m: int)
    requires
        0 <= i <= k < mods.len(),
        pred == from + counted(mods, i - 1) + cycles(n, max_frame_num),
    ensures
        step_number(mods, i, k, pred, max_frame_num) == from + counted(mods, k) + cycles(
            m,
            max_frame_num,
        ),
    decreases k - i,
{
    let next = stepped(pred, mods[i], max_frame_num);
    assert(counted(mods, i) == counted(mods, i - 1) + (if mods[i].idc == 0 {
        -(mods[i].value + 1)
    } else {
        mods[i].value + 1
    }));
    assert((n + 1) * max_frame_num == n * max_frame_num + max_frame_num) by (nonlinear_arith);
    assert((n - 1) * max_frame_num == n * max_frame_num - max_frame_num) by (nonlinear_arith);
    let m = if mods[i].idc == 0 {
        if pred - (mods[i].value + 1) < 0 {
            n + 1
        } else {
            n
        }
    } else if pred + (mods[i].value + 1) >= max_frame_num {
        n - 1
    } else {
        n
    };
    assert(next == from + counted(mods, i) + cycles(m, max_frame_num));
    if i < k {
        lemma_steps_add_up(mods, i + 1, k, next, max_frame_num, m, from)
    } else {
        m
    }
}

/// The `k`-th entry of a modified list is a stored picture whose frame number is
/// the current one plus what the steps up to the `k`-th add up to, give or take
/// whole cycles.
pub proof fn law_steps_count_from_the_current_picture(
    dpb: Seq<Stored>,
    default_list: Seq<usize>,
    num_active: int,
    mods: Seq<RefPicListModification>,
    curr: int,
    max_frame_num: int,
    k: int,
)
    requires
        0 <= k < mods.len(),
        k < num_active,
        dpb.len() <= usize::MAX,
    ensures
        modified_list(dpb, default_list, num_active, mods, curr, max_frame_num) matches Ok(out)
            ==> {
            &&& k < out.len()
            &&& out[k] < dpb.len()
            &&& exists|n: int|
                dpb[out[k] as int].frame_num == curr + counted(mods, k) + #[trigger] cycles(
                    n,
                    max_frame_num,
                )
        },
{
    law_named_pictures_lead_the_list(dpb, default_list, num_active, mods, curr, max_frame_num, k);
    if let Ok(out) = modified_list(dpb, default_list, num_active, mods, curr, max_frame_num) {
        let num = step_number(mods, 0, k, curr, max_frame_num);
        law_found_pictures_have_the_number(
            dpb,
            unwrapped(num, curr, max_frame_num),
            curr,
            max_frame_num,
            0,
        );
        assert(cycles(0, max_frame_num) == 0);
        let m = lemma_steps_add_up(mods, 0, k, curr, max_frame_num, 0, curr);
        assert((m + 1) * max_frame_num == m * max_frame_num + max_frame_num) by (nonlinear_arith);
        assert((m - 1) * max_frame_num == m * max_frame_num - max_frame_num) by (nonlinear_arith);
        let f = dpb[out[k] as int].frame_num as int;
        assert(f == curr + counted(mods, k) + cycles(m, max_frame_num) || f == curr + counted(
            mods,
            k,
        ) + cycles(m + 1, max_frame_num) || f == curr + counted(mods, k) + cycles(
            m - 1,
            max_frame_num,
        ));
    }
}

/// A list led by an entry, with its other entries behind it, no longer than before.
pub open spec fn led_by(v: usize, list: Seq<usize>) -> Seq<usize> {
    let all = seq![v] + list.filter(|e: usize| e != v);
    if all.len() > list.len() {
        all.take(list.len() as int)
    } else {
        all
    }
}

proof fn lemma_others(list: Seq<usize>, v: usize)
    ensures
        without(list, v) == list.filter(|e: usize| e != v),
    decreases list.len(),
{
    reveal(Seq::filter);
    if list.len() > 0 {
        lemma_others(list.drop_last(), v);
    }
}

/// Naming one picture moves it to the front; the others keep their order, and the
/// list its length.
pub proof fn law_naming_one_picture_moves_it_up(
    dpb: Seq<Stored>,
    default_list: Seq<usize>,
    m: RefPicListModification,
    curr: int,
    max_frame_num: int,
)
    requires
        default_list.len() > 0,
    ensures
        modified_list(dpb, default_list, default_list.len() as int, seq![m], curr, max_frame_num)
            matches Ok(out) ==> exists|v: usize|
            out == #[trigger] led_by(v, default_list),
{
    let n = default_list.len() as int;
    let mods = seq![m];
    let full = padded(default_list, n + 1);
    reveal_with_fuel(padded, 3);
    assert(full =~= default_list.push(default_list.last()));
    reveal_with_fuel(modified_from, 3);
    if let Ok(out) = modified_list(dpb, default_list, n, mods, curr, max_frame_num) {
        let next = stepped(curr, mods[0], max_frame_num);
        let v = find_from(dpb, unwrapped(next, curr, max_frame_num), curr, max_frame_num, 0)->0;
        let cut = at_most(full.insert(0, v), n + 1);
        assert(cut =~= seq![v] + default_list);
        assert(cut.skip(1) =~= default_list);
        assert(cut.take(1) =~= seq![v]);
        lemma_others(default_list, v);
        let list = moved_to(full, 0, v, n + 1);
        assert(list =~= seq![v] + default_list.filter(|e: usize| e != v));
        assert(out =~= led_by(v, default_list));
    }
}

// ---------------------------------------------------------------------- lists
/// Where all stored pictures lie on the same side of the current one, the second
/// list is the first with its two leading entries exchanged.
pub proof fn law_one_sided_lists_exchange_their_heads(dpb: Seq<Stored>, cur: CurrentPicture, i: int)
    requires
        cur.is_b,
        1 < dpb.len() <= usize::MAX,
        (forall|k: int| 0 <= k < dpb.len() ==> (#[trigger] dpb[k]).poc < cur.poc) || (forall|k: int|
            0 <= k < dpb.len() ==> (#[trigger] dpb[k]).poc > cur.poc),
        2 <= i < dpb.len(),
    ensures
        default_list1(dpb, cur)[0] == default_list0(dpb, cur)[1],
        default_list1(dpb, cur)[1] == default_list0(dpb, cur)[0],
        default_list1(dpb, cur)[i] == default_list0(dpb, cur)[i],
        default_list1(dpb, cur).len() == default_list0(dpb, cur).len(),
{
    let (k0, k1) = (keys0(dpb, cur), keys1(dpb, cur));
    let n = dpb.len();
    law_order_is_stable(k0, n);
    law_order_is_stable(k1, n);
    let a = order_of(k1, n);
    assert(in_order(k0, a, n)) by {
        assert forall|x: int, y: int| 0 <= x < y < a.len() implies crate::refs::stands_before(
            k0,
            #[trigger] a[x],
            #[trigger] a[y],
        ) by {
            assert(crate::refs::stands_before(k1, a[x], a[y]));
            let (p, q) = (dpb[a[x] as int], dpb[a[y] as int]);
            assert(k0[a[x] as int] == crate::refs::backward_key(p.poc, cur.poc));
            assert(k0[a[y] as int] == crate::refs::backward_key(q.poc, cur.poc));
        }
    }
    law_order_is_unique(k0, a, default_list0(dpb, cur), n);
}

/// With pictures on both sides, the first list starts with one in front of the
/// current picture, and the second with one behind it.
pub proof fn law_two_sided_lists_start_on_their_sides(
    dpb: Seq<Stored>,
    cur: CurrentPicture,
    before: int,
    behind: int,
)
    requires
        cur.is_b,
        dpb.len() <= usize::MAX,
        0 <= before < dpb.len(),
        0 <= behind < dpb.len(),
        dpb[before].poc < cur.poc,
        dpb[behind].poc > cur.poc,
    ensures
        dpb[default_list0(dpb, cur)[0] as int].poc < cur.poc,
        dpb[default_list1(dpb, cur)[0] as int].poc > cur.poc,
        dpb[before].poc <= dpb[default_list0(dpb, cur)[0] as int].poc,
        dpb[default_list1(dpb, cur)[0] as int].poc <= dpb[behind].poc,
{
    let (k0, k1) = (keys0(dpb, cur), keys1(dpb, cur));
    let n = dpb.len();
    law_order_is_stable(k0, n);
    law_order_is_stable(k1, n);
    let (a, b) = (order_of(k0, n), order_of(k1, n));
    assert(a.contains(before as usize) && b.contains(behind as usize));
    let x = choose|x: int| 0 <= x < a.len() && a[x] == before as usize;
    let y = choose|y: int| 0 <= y < b.len() && b[y] == behind as usize;
    if x > 0 {
        assert(crate::refs::stands_before(k0, a[0], a[x]));
    }
    if y > 0 {
        assert(crate::refs::stands_before(k1, b[0], b[y]));
    }
}

// -------------------------------------------------------------------- marking
/// Dropping a picture takes out the one that lies as far back as named, and gives
/// back its charge; the others keep their order. Where none does nothing happens.
pub proof fn law_drop_one(b: Buffer, cmd: MarkingCommand, curr: int, max_frame_num: int)
    requires
        cmd.op == 1,
        0 <= curr < max_frame_num,
        cmd.arg0 + 1 < max_frame_num,
        b.dpb.len() <= usize::MAX,
        forall|i: int| 0 <= i < b.dpb.len() ==> (#[trigger] b.dpb[i]).frame_num < max_frame_num,
    ensures
        ({
            let back = cmd.arg0 + 1;
            let named = if curr >= back {
                curr - back
            } else {
                curr - back + max_frame_num
            };
            b.command(cmd, curr, max_frame_num) matches Some(after) && {
                ||| after == b && forall|i: int|
                    0 <= i < b.dpb.len() ==> (#[trigger] b.dpb[i]).frame_num != named
                ||| exists|i: int|
                    0 <= i < b.dpb.len() && (#[trigger] b.dpb[i]).frame_num == named && after.dpb
                        == b.dpb.remove(i) && after.committed == given_back(
                        b.committed,
                        b.dpb[i].charged as int,
                    )
            }
        }),
{
    law_found_pictures_have_the_number(b.dpb, curr - (cmd.arg0 + 1), curr, max_frame_num, 0);
    match find_from(b.dpb, curr - (cmd.arg0 + 1), curr, max_frame_num, 0) {
        Some(i) => {
            assert(0 <= i < b.dpb.len() && b.dpb[i as int].frame_num < max_frame_num);
        },
        None => {
            assert forall|i: int| 0 <= i < b.dpb.len() implies (#[trigger] b.dpb[i]).frame_num != (
            if curr >= cmd.arg0 + 1 {
                curr - (cmd.arg0 + 1)
            } else {
                curr - (cmd.arg0 + 1) + max_frame_num
            }) by {
                assert(wrapped(b.dpb[i].frame_num as int, curr, max_frame_num) != curr - (cmd.arg0
                    + 1));
            }
        },
    }
}

/// Trimming keeps the newest pictures, in their order, as many as there is room
/// for.
pub proof fn law_trimming_keeps_the_newest(b: Buffer, n: int)
    requires
        n >= 0,
    ensures
        b.dpb.len() <= n ==> b.trimmed(n) == b,
        b.dpb.len() > n ==> b.trimmed(n).dpb == b.dpb.skip(b.dpb.len() - n),
    decreases b.dpb.len(),
{
    if b.dpb.len() > n {
        let next = b.evict(0);
        law_trimming_keeps_the_newest(next, n);
        assert(next.dpb =~= b.dpb.skip(1));
        if next.dpb.len() > n {
            assert(next.dpb.skip(next.dpb.len() - n) =~= b.dpb.skip(b.dpb.len() - n));
        } else {
            assert(next.dpb =~= b.dpb.skip(b.dpb.len() - n));
        }
    }
}

/// Commands are carried out one after another. The command to drop everything
/// leaves nothing; one for long-term pictures stops where it stands.
pub proof fn law_commands_run_in_order(
    b: Buffer,
    cmds: Seq<MarkingCommand>,
    i: int,
    curr: int,
    max_frame_num: int,
)
    requires
        0 <= i,
    ensures
        i >= cmds.len() ==> b.commands(cmds, i, curr, max_frame_num) == (b, true),
        i < cmds.len() && cmds[i].op != 1 && cmds[i].op != 5 ==> b.commands(
            cmds,
            i,
            curr,
            max_frame_num,
        ) == (b, false),
        i < cmds.len() && cmds[i].op == 5 ==> (b.command(cmds[i], curr, max_frame_num) matches Some(
            next,
        ) && next.dpb.len() == 0 && b.commands(cmds, i, curr, max_frame_num) == next.commands(
            cmds,
            i + 1,
            curr,
            max_frame_num,
        )),
        i < cmds.len() && cmds[i].op == 1 ==> (b.command(cmds[i], curr, max_frame_num) matches Some(
            next,
        ) && b.commands(cmds, i, curr, max_frame_num) == next.commands(
            cmds,
            i + 1,
            curr,
            max_frame_num,
        )),
{
    law_trimming_keeps_the_newest(b, 0);
}

// ----------------------------------------------------------------- reordering
proof fn lemma_lowest_is_first<F>(held: Seq<(i32, F)>, n: int)
    requires
        1 <= n <= held.len(),
    ensures
        0 <= lowest(held, n) < n,
        forall|j: int| 0 <= j < n ==> held[lowest(held, n)].0 <= (#[trigger] held[j]).0,
        forall|j: int| 0 <= j < lowest(held, n) ==> held[lowest(held, n)].0 < (#[trigger] held[j]).0,
    decreases n,
{
    if n > 1 {
        lemma_lowest_is_first(held, n - 1);
    }
}

/// The entry that goes out first is the one with the lowest order count, and of
/// equal ones the one that was held first.
pub proof fn law_first_out_is_the_lowest<F>(held: Seq<(i32, F)>, j: int)
    requires
        0 <= j < held.len(),
    ensures
        ({
            let k = lowest(held, held.len() as int);
            &&& leaving(held)[0] == held[k]
            &&& held[k].0 <= held[j].0
            &&& held[k].0 == held[j].0 ==> k <= j
        }),
{
    lemma_lowest_is_first(held, held.len() as int);
}

/// While there is room nothing goes out; a picture that starts over sends out all
/// that were held, and stays alone; and when the window is full just one goes out.
pub proof fn law_pictures_wait_while_there_is_room<F>(
    held: Seq<(i32, F)>,
    window: int,
    poc: i32,
    frame: F,
)
    requires
        1 <= window,
    ensures
        held.len() < window ==> joined(held, false, window, poc, frame) == (
            held.push((poc, frame)),
            Seq::<(i32, F)>::empty(),
        ),
        held.len() >= window ==> joined(held, false, window, poc, frame).1.len() == 1 && joined(
            held,
            false,
            window,
            poc,
            frame,
        ).0.len() == held.len(),
        joined(held, true, window, poc, frame) == (seq![(poc, frame)], leaving(held)),
{
    assert(Seq::<(i32, F)>::empty().push((poc, frame)) =~= seq![(poc, frame)]);
    let with = held.push((poc, frame));
    lemma_lowest_is_first(with, with.len() as int);
}

/// Taking a picture in loses none: what is held and what went out are, together,
/// what was held and the new one.
pub proof fn law_reordering_loses_nothing<F>(
    held: Seq<(i32, F)>,
    window: int,
    poc: i32,
    frame: F,
    e: (i32, F),
)
    ensures
        ({
            let (kept, gone) = joined(held, false, window, poc, frame);
            kept.contains(e) || gone.contains(e) <==> held.contains(e) || e == (poc, frame)
        }),
{
    let with = held.push((poc, frame));
    let (kept, gone) = joined(held, false, window, poc, frame);
    assert(with[held.len() as int] == (poc, frame));
    assert(with.contains(e) <==> held.contains(e) || e == (poc, frame)) by {
        if held.contains(e) {
            let i = choose|i: int| 0 <= i < held.len() && held[i] == e;
            assert(with[i] == e);
        }
        if with.contains(e) {
            let i = choose|i: int| 0 <= i < with.len() && with[i] == e;
            if i < held.len() {
                assert(held[i] == e);
            }
        }
    }
    if with.len() > window {
        let k = lowest(with, with.len() as int);
        lemma_lowest_is_first(with, with.len() as int);
        assert(gone =~= seq![with[k]]);
        assert(gone[0] == with[k]);
        assert(kept == taken(with, k));
        let last = with.len() - 1;
        assert forall|i: int| 0 <= i < kept.len() implies #[trigger] kept[i] == (if i == k {
            with[last]
        } else {
            with[i]
        }) by {}
        if with.contains(e) {
            let i = choose|i: int| 0 <= i < with.len() && with[i] == e;
            if i == k {
            } else if i == last {
                assert(kept[k] == e);
            } else {
                assert(kept[i] == e);
            }
        }
        if kept.contains(e) {
            let i = choose|i: int| 0 <= i < kept.len() && kept[i] == e;
            assert(with.contains(kept[i]));
        }
    }
}

} // verus!
