//! Display order: decoded pictures are held back until no later one can come
//! in front of them.
use vstd::multiset::Multiset;
use vstd::prelude::*;

verus! {

/// The first of the `n` first entries with the lowest order count.
pub open spec fn lowest<F>(held: Seq<(i32, F)>, n: int) -> int
    decreases n,
{
    if n <= 1 {
        0
    } else {
        let k = lowest(held, n - 1);
        if held[n - 1].0 < held[k].0 {
            n - 1
        } else {
            k
        }
    }
}

/// Without the `i`-th entry, whose place the last one takes.
pub open spec fn taken<F>(held: Seq<(i32, F)>, i: int) -> Seq<(i32, F)> {
    held.update(i, held.last()).drop_last()
}

/// All entries in the order in which they go out: each time the lowest.
pub open spec fn leaving<F>(held: Seq<(i32, F)>) -> Seq<(i32, F)>
    decreases held.len(),
    via leaving_decreases::<F>
{
    if held.len() == 0 {
        Seq::empty()
    } else {
        let k = lowest(held, held.len() as int);
        seq![held[k]] + leaving(taken(held, k))
    }
}

#[via_fn]
proof fn leaving_decreases<F>(held: Seq<(i32, F)>) {
    if held.len() > 0 {
        lemma_lowest(held, held.len() as int);
    }
}

/// The pictures of some entries.
pub open spec fn frames<F>(entries: Seq<(i32, F)>) -> Seq<F> {
    Seq::new(entries.len(), |i: int| entries[i].1)
}

proof fn lemma_lowest<F>(held: Seq<(i32, F)>, n: int)
    requires
        1 <= n <= held.len(),
    ensures
        0 <= lowest(held, n) < n,
        forall|i: int| 0 <= i < n ==> held[lowest(held, n)].0 <= (#[trigger] held[i]).0,
    decreases n,
{
    if n > 1 {
        lemma_lowest(held, n - 1);
    }
}

/// Lets the entry with the lowest order count out, if there is one.
pub fn emit_lowest_poc<F>(reorder: &mut Vec<(i32, F)>, out: &mut Vec<F>)
    ensures
        old(reorder)@.len() == 0 ==> final(reorder)@ == old(reorder)@ && final(out)@ == old(out)@,
        old(reorder)@.len() > 0 ==> ({
            let k = lowest(old(reorder)@, old(reorder)@.len() as int);
            &&& final(reorder)@ == taken(old(reorder)@, k)
            &&& final(out)@ == old(out)@.push(old(reorder)@[k].1)
        }),
{
    let n: usize = reorder.len();
    if n == 0 {
        return ;
    }
    let mut k: usize = 0;
    for i in 1..n
        invariant
            n == reorder@.len(),
            reorder@ == old(reorder)@,
            k < i,
            k == lowest(reorder@, i as int),
    {
        if reorder[i].0 < reorder[k].0 {
            k = i;
        }
    }
    let (_, frame) = reorder.swap_remove(k);
    out.push(frame);
}

/// Lets every entry out, in ascending order.
pub fn flush_reorder<F>(reorder: &mut Vec<(i32, F)>, out: &mut Vec<F>)
    ensures
        final(reorder)@.len() == 0,
        final(out)@ == old(out)@ + frames(leaving(old(reorder)@)),
{
    assert(out@ + frames(leaving(reorder@)) =~= old(out)@ + frames(leaving(old(reorder)@)));
    while reorder.len() > 0
        invariant
            out@ + frames(leaving(reorder@)) == old(out)@ + frames(leaving(old(reorder)@)),
        decreases reorder@.len(),
    {
        let ghost held = reorder@;
        let ghost done = out@;
        proof {
            lemma_lowest(held, held.len() as int);
        }
        emit_lowest_poc(reorder, out);
        assert(out@ + frames(leaving(reorder@)) =~= done + frames(leaving(held)));
    }
    assert(frames(leaving(reorder@)) =~= Seq::<F>::empty());
    assert(out@ =~= out@ + frames(leaving(reorder@)));
}

/// The entries held after a picture joined them, and those that went out. A
/// picture that starts over lets all others out first; one more than `window`
/// lets the lowest out.
pub open spec fn joined<F>(
    held: Seq<(i32, F)>,
    starts_over: bool,
    window: int,
    poc: i32,
    frame: F,
) -> (Seq<(i32, F)>, Seq<(i32, F)>) {
    let (before, gone) = if starts_over {
        (Seq::<(i32, F)>::empty(), leaving(held))
    } else {
        (held, Seq::<(i32, F)>::empty())
    };
    let with = before.push((poc, frame));
    if with.len() > window {
        let k = lowest(with, with.len() as int);
        (taken(with, k), gone.push(with[k]))
    } else {
        (with, gone)
    }
}

/// Takes a decoded picture in, and lets out what need not wait any longer.
pub fn hold_for_reordering<F>(
    reorder: &mut Vec<(i32, F)>,
    out: &mut Vec<F>,
    starts_over: bool,
    window: usize,
    poc: i32,
    frame: F,
)
    ensures
        ({
            let (held, gone) = joined(old(reorder)@, starts_over, window as int, poc, frame);
            &&& final(reorder)@ == held
            &&& final(out)@ == old(out)@ + frames(gone)
        }),
{
    if starts_over {
        flush_reorder(reorder, out);
        assert(reorder@ =~= Seq::<(i32, F)>::empty());
    } else {
        assert(out@ =~= out@ + frames(Seq::<(i32, F)>::empty()));
    }
    reorder.push((poc, frame));
    if reorder.len() > window {
        let ghost with = reorder@;
        let ghost done = out@;
        emit_lowest_poc(reorder, out);
        proof {
            let gone = if starts_over {
                leaving(old(reorder)@)
            } else {
                Seq::<(i32, F)>::empty()
            };
            let k = lowest(with, with.len() as int);
            assert(frames(gone.push(with[k])) =~= frames(gone).push(with[k].1));
            assert(out@ =~= old(out)@ + frames(gone.push(with[k])));
        }
    }
}

/// Whether entries stand in ascending order.
pub open spec fn ascending<F>(entries: Seq<(i32, F)>) -> bool {
    forall|i: int, j: int|
        0 <= i < j < entries.len() ==> (#[trigger] entries[i]).0 <= (#[trigger] entries[j]).0
}

proof fn lemma_taken<F>(held: Seq<(i32, F)>, k: int)
    requires
        0 <= k < held.len(),
    ensures
        taken(held, k).len() == held.len() - 1,
        held.to_multiset() == taken(held, k).to_multiset().insert(held[k]),
        forall|i: int|
            0 <= i < held.len() - 1 ==> held.contains(#[trigger] taken(held, k)[i]),
{
    broadcast use vstd::seq_lib::group_to_multiset_ensures;

    let moved = held.update(k, held.last());
    assert(moved =~= taken(held, k).push(held.last()));
    vstd::seq_lib::to_multiset_update(held, k, held.last());
    assert(taken(held, k).push(held.last()).to_multiset() =~= taken(held, k).to_multiset().insert(
        held.last(),
    ));
    assert(held.contains(held[k]));
    assert(held.to_multiset().count(held[k]) > 0);
    assert forall|v: (i32, F)| #[trigger]
        held.to_multiset().count(v) == taken(held, k).to_multiset().insert(held[k]).count(v) by {
        assert(moved.to_multiset().count(v) == taken(held, k).to_multiset().insert(
            held.last(),
        ).count(v));
        assert(moved.to_multiset().count(v) == held.to_multiset().insert(held.last()).remove(
            held[k],
        ).count(v));
    }
    assert(held.to_multiset() =~= taken(held, k).to_multiset().insert(held[k]));
    assert forall|i: int| 0 <= i < held.len() - 1 implies held.contains(
        #[trigger] taken(held, k)[i],
    ) by {
        if i == k {
            assert(taken(held, k)[i] == held[held.len() - 1]);
        } else {
            assert(taken(held, k)[i] == held[i]);
        }
    }
}

/// Letting everything out loses nothing, repeats nothing and yields ascending
/// order counts.
pub proof fn law_leaving_is_in_display_order<F>(held: Seq<(i32, F)>)
    ensures
        leaving(held).len() == held.len(),
        leaving(held).to_multiset() == held.to_multiset(),
        ascending(leaving(held)),
    decreases held.len(),
{
    broadcast use vstd::seq_lib::group_to_multiset_ensures;

    if held.len() > 0 {
        let k = lowest(held, held.len() as int);
        lemma_lowest(held, held.len() as int);
        let rest = taken(held, k);
        lemma_taken(held, k);
        law_leaving_is_in_display_order(rest);
        let tail = leaving(rest);
        let all = seq![held[k]] + tail;
        assert(all =~= Seq::<(i32, F)>::empty().push(held[k]) + tail);
        vstd::seq_lib::lemma_multiset_commutative(seq![held[k]], tail);
        assert(seq![held[k]] =~= Seq::<(i32, F)>::empty().push(held[k]));
        assert(seq![held[k]].to_multiset() =~= Multiset::<(i32, F)>::empty().insert(held[k]));
        assert(all.to_multiset() =~= tail.to_multiset().insert(held[k]));
        assert forall|i: int, j: int| 0 <= i < j < all.len() implies (#[trigger] all[i]).0 <= (
        #[trigger] all[j]).0 by {
            assert(all[j] == tail[j - 1]);
            if i == 0 {
                assert(tail.to_multiset().count(tail[j - 1]) > 0) by {
                    assert(tail.contains(tail[j - 1]));
                }
                assert(rest.contains(tail[j - 1]));
                let m = rest.index_of(tail[j - 1]);
                assert(held.contains(rest[m]));
                let h = held.index_of(rest[m]);
                assert(held[h] == tail[j - 1]);
            } else {
                assert(all[i] == tail[i - 1]);
            }
        }
    } else {
        assert(held =~= Seq::<(i32, F)>::empty());
    }
}

/// A picture that goes out because the window is full precedes every one that
/// stays, and no more stay than the window holds.
pub proof fn law_full_window_lets_the_lowest_out<F>(
    held: Seq<(i32, F)>,
    starts_over: bool,
    window: int,
    poc: i32,
    frame: F,
)
    requires
        1 <= window,
        held.len() <= window,
    ensures
        joined(held, starts_over, window, poc, frame).0.len() <= window,
        joined(held, starts_over, window, poc, frame).1.len() <= held.len() + 1,
        !starts_over ==> forall|i: int, j: int|
            0 <= i < joined(held, starts_over, window, poc, frame).1.len() && 0 <= j < joined(
                held,
                starts_over,
                window,
                poc,
                frame,
            ).0.len() ==> (#[trigger] joined(held, starts_over, window, poc, frame).1[i]).0 <= (
            #[trigger] joined(held, starts_over, window, poc, frame).0[j]).0,
{
    law_leaving_is_in_display_order(held);
    let before = if starts_over {
        Seq::<(i32, F)>::empty()
    } else {
        held
    };
    let with = before.push((poc, frame));
    lemma_lowest(with, with.len() as int);
    let k = lowest(with, with.len() as int);
    lemma_taken(with, k);
    if with.len() > window {
        assert forall|j: int| 0 <= j < taken(with, k).len() implies with[k].0 <= (#[trigger] taken(
            with,
            k,
        )[j]).0 by {
            assert(with.contains(taken(with, k)[j]));
            let m = with.index_of(taken(with, k)[j]);
            assert(with[m] == taken(with, k)[j]);
        }
    }
}

} // verus!
