//! Reference picture lists: their default order and its modification.
use std::collections::VecDeque;
use std::sync::Arc;
use vstd::prelude::*;
use crate::error::{Error, Reason};
use crate::grids::MvInfo;

verus! {

/// A decoded picture that later pictures may predict from.
#[derive(Debug, Clone)]
pub struct RefPicture {
    /// The number by which its samples are found.
    pub picture: u64,
    /// What its samples and its motion are charged.
    pub charged: u64,
    /// Its place in display order.
    pub poc: i32,
    /// Its number in decoding order, modulo a power of two.
    pub frame_num: u32,
    /// The motion of its four-by-four luma blocks, row by row.
    pub motion: Arc<Vec<MvInfo>>,
}

/// The mathematical content of a [`RefPicture`].
#[verifier::ext_equal]
pub struct Stored {
    pub picture: u64,
    pub charged: u64,
    pub poc: i32,
    pub frame_num: u32,
    pub motion: Seq<MvInfo>,
}

impl View for RefPicture {
    type V = Stored;

    open spec fn view(&self) -> Stored {
        Stored {
            picture: self.picture,
            charged: self.charged,
            poc: self.poc,
            frame_num: self.frame_num,
            motion: self.motion@,
        }
    }
}

/// The contents of the stored pictures, the oldest first.
pub open spec fn stored(dpb: Seq<RefPicture>) -> Seq<Stored> {
    Seq::new(dpb.len(), |i: int| dpb[i]@)
}

// -------------------------------------------------------------- frame numbers
/// A frame number counted from the current picture: numbers above the current
/// one belong to the previous cycle.
pub open spec fn wrapped(stored: int, curr: int, max_frame_num: int) -> int {
    if stored > curr {
        stored - max_frame_num
    } else {
        stored
    }
}

pub fn frame_num_wrap(stored: u32, curr: u32, max_frame_num: u32) -> (r: i64)
    ensures
        r == wrapped(stored as int, curr as int, max_frame_num as int),
{
    if stored > curr {
        stored as i64 - max_frame_num as i64
    } else {
        stored as i64
    }
}

/// Unwrapped numbers order the frames of one cycle as they were decoded: a
/// frame of the previous cycle comes before every frame of this one, and none
/// comes behind the current picture.
pub proof fn law_wrapping_orders_frames(a: int, b: int, curr: int, max_frame_num: int)
    requires
        0 <= a < max_frame_num,
        0 <= b < max_frame_num,
        0 <= curr < max_frame_num,
    ensures
        wrapped(a, curr, max_frame_num) <= curr,
        a > curr && b <= curr ==> wrapped(a, curr, max_frame_num) < wrapped(b, curr, max_frame_num),
        (a > curr) == (b > curr) ==> (wrapped(a, curr, max_frame_num) < wrapped(
            b,
            curr,
            max_frame_num,
        ) <==> a < b),
{
}

// -------------------------------------------------------------- default order
/// What a list is ordered by: a class, and a value inside the class.
#[derive(Debug, Clone, Copy, PartialEq, Eq, Structural)]
pub struct SortKey {
    pub class: u8,
    pub value: i64,
}

/// Whether one key comes in front of another.
pub open spec fn key_before(a: SortKey, b: SortKey) -> bool {
    a.class < b.class || (a.class == b.class && a.value < b.value)
}

fn comes_before(a: SortKey, b: SortKey) -> (r: bool)
    ensures
        r == key_before(a, b),
{
    a.class < b.class || (a.class == b.class && a.value < b.value)
}

/// Where a key belongs in an ordered list: behind every entry that it does not
/// precede.
pub open spec fn place(keys: Seq<SortKey>, list: Seq<usize>, key: SortKey) -> int
    decreases list.len(),
{
    if list.len() == 0 {
        0
    } else if key_before(key, keys[list.last() as int]) {
        place(keys, list.drop_last(), key)
    } else {
        list.len() as int
    }
}

/// The first `n` indices ordered by their keys, equal keys by index.
pub open spec fn order_of(keys: Seq<SortKey>, n: nat) -> Seq<usize>
    decreases n,
{
    if n == 0 {
        Seq::empty()
    } else {
        let list = order_of(keys, (n - 1) as nat);
        list.insert(place(keys, list, keys[n - 1]), (n - 1) as usize)
    }
}

/// Whether one index stands in front of another.
pub open spec fn stands_before(keys: Seq<SortKey>, a: usize, b: usize) -> bool {
    key_before(keys[a as int], keys[b as int]) || (keys[a as int] == keys[b as int] && a < b)
}

/// A list of all indices below `n`, ordered.
pub open spec fn in_order(keys: Seq<SortKey>, list: Seq<usize>, n: nat) -> bool {
    &&& list.len() == n
    &&& forall|i: int| 0 <= i < list.len() ==> (#[trigger] list[i]) < n
    &&& forall|i: int, j: int|
        0 <= i < j < list.len() ==> stands_before(keys, #[trigger] list[i], #[trigger] list[j])
    &&& forall|k: usize| k < n ==> list.contains(k)
}

proof fn lemma_place(keys: Seq<SortKey>, list: Seq<usize>, n: nat, key: SortKey)
    requires
        in_order(keys, list, n),
    ensures
        0 <= place(keys, list, key) <= list.len(),
        forall|j: int|
            0 <= j < place(keys, list, key) ==> !key_before(key, keys[#[trigger] list[j] as int]),
        forall|j: int|
            place(keys, list, key) <= j < list.len() ==> key_before(
                key,
                keys[#[trigger] list[j] as int],
            ),
{
    lemma_place_in(keys, list, list.len() as int, key);
    assert(list.take(list.len() as int) =~= list);
}

proof fn lemma_place_in(keys: Seq<SortKey>, list: Seq<usize>, k: int, key: SortKey)
    requires
        0 <= k <= list.len(),
        forall|i: int, j: int|
            0 <= i < j < list.len() ==> stands_before(keys, #[trigger] list[i], #[trigger] list[j]),
    ensures
        0 <= place(keys, list.take(k), key) <= k,
        forall|j: int|
            0 <= j < place(keys, list.take(k), key) ==> !key_before(
                key,
                keys[#[trigger] list[j] as int],
            ),
        forall|j: int|
            place(keys, list.take(k), key) <= j < k ==> key_before(
                key,
                keys[#[trigger] list[j] as int],
            ),
    decreases k,
{
    if k > 0 {
        let t = list.take(k);
        assert(t.last() == list[k - 1]);
        if key_before(key, keys[t.last() as int]) {
            assert(t.drop_last() =~= list.take(k - 1));
            lemma_place_in(keys, list, k - 1, key);
        } else {
            assert forall|j: int| 0 <= j < k implies !key_before(
                key,
                keys[#[trigger] list[j] as int],
            ) by {
                if j < k - 1 {
                    assert(stands_before(keys, list[j], list[k - 1]));
                }
            }
        }
    }
}

/// Ordering is complete and stable: every index occurs, once, smaller keys
/// first and equal keys by index.
pub proof fn law_order_is_stable(keys: Seq<SortKey>, n: nat)
    requires
        n <= keys.len(),
        n <= usize::MAX,
    ensures
        in_order(keys, order_of(keys, n), n),
    decreases n,
{
    if n > 0 {
        let m = (n - 1) as nat;
        let list = order_of(keys, m);
        law_order_is_stable(keys, m);
        let key = keys[n - 1];
        let p = place(keys, list, key);
        lemma_place(keys, list, m, key);
        let out = list.insert(p, m as usize);
        assert forall|i: int| 0 <= i < out.len() implies (#[trigger] out[i]) < n by {
            if i < p {
                assert(out[i] == list[i]);
            } else if i > p {
                assert(out[i] == list[i - 1]);
            }
        }
        assert forall|i: int, j: int| 0 <= i < j < out.len() implies stands_before(
            keys,
            #[trigger] out[i],
            #[trigger] out[j],
        ) by {
            if i < p {
                assert(out[i] == list[i]);
            } else if i > p {
                assert(out[i] == list[i - 1]);
            }
            if j < p {
                assert(out[j] == list[j]);
            } else if j > p {
                assert(out[j] == list[j - 1]);
            }
        }
        assert forall|k: usize| k < n implies out.contains(k) by {
            if k == n - 1 {
                assert(out[p] == k);
            } else {
                assert(list.contains(k));
                let i = list.index_of(k);
                if i < p {
                    assert(out[i] == k);
                } else {
                    assert(out[i + 1] == k);
                }
            }
        }
    }
}

proof fn lemma_same_head(keys: Seq<SortKey>, a: Seq<usize>, b: Seq<usize>, n: nat, k: int)
    requires
        in_order(keys, a, n),
        in_order(keys, b, n),
        0 <= k <= n,
    ensures
        forall|i: int| 0 <= i < k ==> (#[trigger] a[i]) == b[i],
    decreases k,
{
    if k > 0 {
        lemma_same_head(keys, a, b, n, k - 1);
        let x = a[k - 1];
        let y = b[k - 1];
        assert(b.contains(x));
        assert(a.contains(y));
        let i = b.index_of(x);
        let j = a.index_of(y);
        if i < k - 1 {
            assert(a[i] == b[i]);
            assert(stands_before(keys, a[i], a[k - 1]));
        }
        if j < k - 1 {
            assert(a[j] == b[j]);
            assert(stands_before(keys, b[j], b[k - 1]));
        }
        if i > k - 1 && j > k - 1 {
            assert(stands_before(keys, b[k - 1], b[i]));
            assert(stands_before(keys, a[k - 1], a[j]));
        }
    }
}

/// There is only one such order.
pub proof fn law_order_is_unique(keys: Seq<SortKey>, a: Seq<usize>, b: Seq<usize>, n: nat)
    requires
        in_order(keys, a, n),
        in_order(keys, b, n),
    ensures
        a == b,
{
    lemma_same_head(keys, a, b, n, n as int);
    assert(a =~= b);
}

/// The indices of some keys in ascending order.
fn order_by(keys: &Vec<SortKey>) -> (list: Vec<usize>)
    ensures
        list@ == order_of(keys@, keys@.len()),
        in_order(keys@, list@, keys@.len()),
{
    let mut list: Vec<usize> = Vec::new();
    let n: usize = keys.len();
    for i in 0..n
        invariant
            n == keys@.len(),
            list@ == order_of(keys@, i as nat),
    {
        proof {
            law_order_is_stable(keys@, i as nat);
        }
        let mut p: usize = list.len();
        assert(list@.take(p as int) =~= list@);
        while p > 0 && comes_before(keys[i], keys[list[p - 1]])
            invariant
                p <= list@.len(),
                i < keys@.len(),
                in_order(keys@, list@, i as nat),
                place(keys@, list@, keys@[i as int]) == place(
                    keys@,
                    list@.take(p as int),
                    keys@[i as int],
                ),
            decreases p,
        {
            assert(list@.take(p as int).drop_last() =~= list@.take(p - 1));
            p = p - 1;
        }
        assert(p == place(keys@, list@, keys@[i as int])) by {
            if p > 0 {
                assert(list@.take(p as int).last() == list@[p - 1]);
            }
        }
        list.insert(p, i);
    }
    proof {
        law_order_is_stable(keys@, n as nat);
    }
    list
}

/// Pictures in front of the current one first, the nearest first, then those
/// behind it, the nearest first.
pub open spec fn backward_key(poc: i32, curr_poc: i32) -> SortKey {
    if poc < curr_poc {
        SortKey { class: 0, value: (-(poc as i64)) as i64 }
    } else {
        SortKey { class: 1, value: poc as i64 }
    }
}

/// Pictures behind the current one first, the nearest first, then those in
/// front of it, the nearest first.
pub open spec fn forward_key(poc: i32, curr_poc: i32) -> SortKey {
    if poc > curr_poc {
        SortKey { class: 0, value: poc as i64 }
    } else {
        SortKey { class: 1, value: (-(poc as i64)) as i64 }
    }
}

/// The picture decoded last first.
pub open spec fn recency_key(frame_num: u32, curr: u32, max_frame_num: u32) -> SortKey {
    SortKey {
        class: 0,
        value: (-wrapped(frame_num as int, curr as int, max_frame_num as int)) as i64,
    }
}

/// The picture that lists are built for.
#[derive(Debug, Clone, Copy, PartialEq, Eq, Structural)]
pub struct CurrentPicture {
    pub is_b: bool,
    pub poc: i32,
    pub frame_num: u32,
    pub max_frame_num: u32,
}

/// What the first list is ordered by.
pub open spec fn keys0(dpb: Seq<Stored>, cur: CurrentPicture) -> Seq<SortKey> {
    Seq::new(
        dpb.len(),
        |i: int|
            if cur.is_b {
                backward_key(dpb[i].poc, cur.poc)
            } else {
                recency_key(dpb[i].frame_num, cur.frame_num, cur.max_frame_num)
            },
    )
}

/// What the second list is ordered by.
pub open spec fn keys1(dpb: Seq<Stored>, cur: CurrentPicture) -> Seq<SortKey> {
    Seq::new(dpb.len(), |i: int| forward_key(dpb[i].poc, cur.poc))
}

/// The first list before any modification.
pub open spec fn default_list0(dpb: Seq<Stored>, cur: CurrentPicture) -> Seq<usize> {
    order_of(keys0(dpb, cur), dpb.len())
}

/// The second list before any modification: none outside bipredictive slices,
/// and its first two entries swapped where it would repeat the first list.
pub open spec fn default_list1(dpb: Seq<Stored>, cur: CurrentPicture) -> Seq<usize> {
    if !cur.is_b {
        Seq::empty()
    } else {
        let list = order_of(keys1(dpb, cur), dpb.len());
        if list.len() > 1 && list == default_list0(dpb, cur) {
            list.update(0, list[1]).update(1, list[0])
        } else {
            list
        }
    }
}

fn same_list(a: &Vec<usize>, b: &Vec<usize>) -> (r: bool)
    ensures
        r == (a@ == b@),
{
    if a.len() != b.len() {
        return false;
    }
    let n: usize = a.len();
    for i in 0..n
        invariant
            n == a@.len(),
            n == b@.len(),
            forall|j: int| 0 <= j < i ==> a@[j] == b@[j],
    {
        if a[i] != b[i] {
            return false;
        }
    }
    assert(a@ =~= b@);
    true
}

/// The lists of a picture before any modification, as places in the buffer of
/// stored pictures.
pub fn default_lists(dpb: &VecDeque<RefPicture>, cur: CurrentPicture) -> (r: (
    Vec<usize>,
    Vec<usize>,
))
    ensures
        r.0@ == default_list0(stored(dpb@), cur),
        r.1@ == default_list1(stored(dpb@), cur),
{
    let mut first: Vec<SortKey> = Vec::new();
    let mut second: Vec<SortKey> = Vec::new();
    let n: usize = dpb.len();
    for i in 0..n
        invariant
            n == dpb@.len(),
            first@ == keys0(stored(dpb@), cur).take(i as int),
            second@ == keys1(stored(dpb@), cur).take(i as int),
    {
        let p: &RefPicture = &dpb[i];
        let back: SortKey = if p.poc < cur.poc {
            SortKey { class: 0, value: -(p.poc as i64) }
        } else {
            SortKey { class: 1, value: p.poc as i64 }
        };
        let recent: SortKey = SortKey {
            class: 0,
            value: -frame_num_wrap(p.frame_num, cur.frame_num, cur.max_frame_num),
        };
        let ahead: SortKey = if p.poc > cur.poc {
            SortKey { class: 0, value: p.poc as i64 }
        } else {
            SortKey { class: 1, value: -(p.poc as i64) }
        };
        first.push(
            if cur.is_b {
                back
            } else {
                recent
            },
        );
        second.push(ahead);
        assert(first@ =~= keys0(stored(dpb@), cur).take(i + 1));
        assert(second@ =~= keys1(stored(dpb@), cur).take(i + 1));
    }
    assert(first@ =~= keys0(stored(dpb@), cur));
    assert(second@ =~= keys1(stored(dpb@), cur));
    let list0: Vec<usize> = order_by(&first);
    if !cur.is_b {
        return (list0, Vec::new());
    }
    let mut list1: Vec<usize> = order_by(&second);
    if list1.len() > 1 && same_list(&list1, &list0) {
        let (a, b) = (list1[0], list1[1]);
        list1[0] = b;
        list1[1] = a;
    }
    (list0, list1)
}

/// In a bipredictive slice the first list runs back from the current picture
/// and then forward, the second forward and then back.
pub proof fn law_bipredictive_lists_run_outwards(dpb: Seq<Stored>, cur: CurrentPicture, i: int, j: int)
    requires
        cur.is_b,
        0 <= i < j < dpb.len() <= usize::MAX,
    ensures
        ({
            let a = dpb[default_list0(dpb, cur)[i] as int].poc;
            let b = dpb[default_list0(dpb, cur)[j] as int].poc;
            &&& b < cur.poc ==> b <= a < cur.poc
            &&& a >= cur.poc ==> cur.poc <= a <= b
        }),
        default_list1(dpb, cur) == order_of(keys1(dpb, cur), dpb.len()) ==> ({
            let a = dpb[default_list1(dpb, cur)[i] as int].poc;
            let b = dpb[default_list1(dpb, cur)[j] as int].poc;
            &&& b > cur.poc ==> cur.poc < a <= b
            &&& a <= cur.poc ==> b <= a <= cur.poc
        }),
{
    law_order_is_stable(keys0(dpb, cur), dpb.len());
    law_order_is_stable(keys1(dpb, cur), dpb.len());
    let l0 = default_list0(dpb, cur);
    let l1 = order_of(keys1(dpb, cur), dpb.len());
    assert(stands_before(keys0(dpb, cur), l0[i], l0[j]));
    assert(stands_before(keys1(dpb, cur), l1[i], l1[j]));
}

/// In other slices the list runs from the picture decoded last to the one
/// decoded first.
pub proof fn law_predictive_list_runs_back(dpb: Seq<Stored>, cur: CurrentPicture, i: int, j: int)
    requires
        !cur.is_b,
        0 <= i < j < dpb.len() <= usize::MAX,
    ensures
        wrapped(
            dpb[default_list0(dpb, cur)[i] as int].frame_num as int,
            cur.frame_num as int,
            cur.max_frame_num as int,
        ) >= wrapped(
            dpb[default_list0(dpb, cur)[j] as int].frame_num as int,
            cur.frame_num as int,
            cur.max_frame_num as int,
        ),
{
    law_order_is_stable(keys0(dpb, cur), dpb.len());
    let l0 = default_list0(dpb, cur);
    assert(stands_before(keys0(dpb, cur), l0[i], l0[j]));
}

/// The two lists of a bipredictive slice differ as soon as there are two
/// pictures to choose from.
pub proof fn law_bipredictive_lists_differ(dpb: Seq<Stored>, cur: CurrentPicture)
    requires
        cur.is_b,
        1 < dpb.len() <= usize::MAX,
    ensures
        default_list0(dpb, cur) != default_list1(dpb, cur),
{
    law_order_is_stable(keys0(dpb, cur), dpb.len());
    let l0 = default_list0(dpb, cur);
    let l1 = order_of(keys1(dpb, cur), dpb.len());
    if l1 == l0 {
        assert(stands_before(keys0(dpb, cur), l0[0], l0[1]));
        assert(default_list1(dpb, cur)[0] == l0[1]);
    }
}

// --------------------------------------------------------------- modification
/// One step of a list modification: how far from the last named picture, and
/// in which direction.
#[derive(Debug, Clone, Copy, PartialEq, Eq, Structural)]
pub struct RefPicListModification {
    /// 0 to count back, 2 for a long-term picture, anything else to count on.
    pub idc: u32,
    /// The distance, less 1.
    pub value: u32,
}

/// The picture number that a step names, before it is held against the current
/// picture; the next step counts from it.
pub open spec fn stepped(pred: int, m: RefPicListModification, max_frame_num: int) -> int {
    if m.idc == 0 {
        let v = pred - (m.value + 1);
        if v < 0 {
            v + max_frame_num
        } else {
            v
        }
    } else {
        let v = pred + (m.value + 1);
        if v >= max_frame_num {
            v - max_frame_num
        } else {
            v
        }
    }
}

/// A picture number held against the current picture.
pub open spec fn unwrapped(num: int, curr: int, max_frame_num: int) -> int {
    if num > curr {
        num - max_frame_num
    } else {
        num
    }
}

/// The first stored picture with a picture number, from a place on.
pub open spec fn find_from(
    dpb: Seq<Stored>,
    num: int,
    curr: int,
    max_frame_num: int,
    from: int,
) -> Option<usize>
    decreases dpb.len() - from,
{
    if from >= dpb.len() {
        None
    } else if wrapped(dpb[from].frame_num as int, curr, max_frame_num) == num {
        Some(from as usize)
    } else {
        find_from(dpb, num, curr, max_frame_num, from + 1)
    }
}

/// Finds the first stored picture with a picture number.
pub fn find_picture(
    dpb: &VecDeque<RefPicture>,
    num: i128,
    curr_frame_num: u32,
    max_frame_num: u32,
) -> (r: Option<usize>)
    ensures
        r == find_from(stored(dpb@), num as int, curr_frame_num as int, max_frame_num as int, 0),
        r matches Some(i) ==> i < dpb@.len(),
{
    let n: usize = dpb.len();
    for i in 0..n
        invariant
            n == dpb@.len(),
            find_from(stored(dpb@), num as int, curr_frame_num as int, max_frame_num as int, 0)
                == find_from(
                stored(dpb@),
                num as int,
                curr_frame_num as int,
                max_frame_num as int,
                i as int,
            ),
    {
        let p: &RefPicture = &dpb[i];
        if frame_num_wrap(p.frame_num, curr_frame_num, max_frame_num) as i128 == num {
            return Some(i);
        }
    }
    None
}

/// What is found is stored, and has the number.
pub proof fn law_found_pictures_have_the_number(
    dpb: Seq<Stored>,
    num: int,
    curr: int,
    max_frame_num: int,
    from: int,
)
    requires
        0 <= from <= dpb.len() <= usize::MAX,
    ensures
        match find_from(dpb, num, curr, max_frame_num, from) {
            Some(i) => from <= i < dpb.len() && wrapped(
                dpb[i as int].frame_num as int,
                curr,
                max_frame_num,
            ) == num,
            None => forall|i: int|
                from <= i < dpb.len() ==> wrapped(
                    (#[trigger] dpb[i]).frame_num as int,
                    curr,
                    max_frame_num,
                ) != num,
        },
    decreases dpb.len() - from,
{
    if from < dpb.len() {
        law_found_pictures_have_the_number(dpb, num, curr, max_frame_num, from + 1);
    }
}

/// A list with its last entry repeated until it has `n` entries.
pub open spec fn padded(list: Seq<usize>, n: int) -> Seq<usize>
    decreases n - list.len(),
{
    if list.len() == 0 || list.len() >= n {
        list
    } else {
        padded(list.push(list.last()), n)
    }
}

/// At most the first `n` entries of a list.
pub open spec fn at_most(list: Seq<usize>, n: int) -> Seq<usize> {
    if list.len() > n {
        list.take(n)
    } else {
        list
    }
}

/// The entries of a list that are not `v`.
pub open spec fn without(list: Seq<usize>, v: usize) -> Seq<usize> {
    list.filter(|e: usize| e != v)
}

/// A list with an entry put at a place, cut to `n` entries, and the entry's
/// other occurrences behind that place taken out.
pub open spec fn moved_to(list: Seq<usize>, at: int, v: usize, n: int) -> Seq<usize> {
    let put = if at >= list.len() {
        list.push(v)
    } else {
        list.insert(at, v)
    };
    let cut = at_most(put, n);
    if at + 1 >= cut.len() {
        cut
    } else {
        cut.take(at + 1) + without(cut.skip(at + 1), v)
    }
}

/// A list after the steps from the `i`-th on, which put their pictures at the
/// places from the `i`-th on.
pub open spec fn modified_from(
    dpb: Seq<Stored>,
    list: Seq<usize>,
    num_active: int,
    mods: Seq<RefPicListModification>,
    i: int,
    pred: int,
    curr: int,
    max_frame_num: int,
) -> Result<Seq<usize>, Error>
    decreases mods.len() - i,
{
    if i >= mods.len() {
        Ok(list)
    } else if mods[i].idc == 2 {
        Err(Error::Unsupported(Reason::LongTermReference))
    } else {
        let next = stepped(pred, mods[i], max_frame_num);
        match find_from(dpb, unwrapped(next, curr, max_frame_num), curr, max_frame_num, 0) {
            None => Err(Error::InvalidData(Reason::MissingReference)),
            Some(found) => modified_from(
                dpb,
                moved_to(list, i, found, num_active + 1),
                num_active,
                mods,
                i + 1,
                next,
                curr,
                max_frame_num,
            ),
        }
    }
}

/// A list after its modification. Without any step it is left as it is, not
/// even cut to its active length.
pub open spec fn modified_list(
    dpb: Seq<Stored>,
    default_list: Seq<usize>,
    num_active: int,
    mods: Seq<RefPicListModification>,
    curr: int,
    max_frame_num: int,
) -> Result<Seq<usize>, Error> {
    if mods.len() == 0 {
        Ok(default_list)
    } else {
        match modified_from(
            dpb,
            padded(default_list, num_active + 1),
            num_active,
            mods,
            0,
            curr,
            curr,
            max_frame_num,
        ) {
            Err(e) => Err(e),
            Ok(list) => Ok(at_most(list, num_active)),
        }
    }
}

fn copy_list(list: &[usize]) -> (r: Vec<usize>)
    ensures
        r@ == list@,
{
    let mut out: Vec<usize> = Vec::new();
    let n: usize = list.len();
    for i in 0..n
        invariant
            n == list@.len(),
            out@ == list@.take(i as int),
    {
        out.push(list[i]);
        assert(out@ =~= list@.take(i + 1));
    }
    assert(list@.take(n as int) =~= list@);
    out
}

fn pad_list(list: &mut Vec<usize>, n: usize)
    ensures
        final(list)@ == padded(old(list)@, n as int),
{
    while list.len() > 0 && list.len() < n
        invariant
            padded(list@, n as int) == padded(old(list)@, n as int),
        decreases n - list@.len(),
    {
        let last: usize = list[list.len() - 1];
        list.push(last);
    }
}

fn move_to(list: &mut Vec<usize>, at: usize, v: usize, n: usize)
    requires
        at < usize::MAX,
    ensures
        final(list)@ == moved_to(old(list)@, at as int, v, n as int),
{
    if at >= list.len() {
        list.push(v);
    } else {
        list.insert(at, v);
    }
    if list.len() > n {
        list.truncate(n);
        assert(list@ =~= at_most(
            if at >= old(list)@.len() {
                old(list)@.push(v)
            } else {
                old(list)@.insert(at as int, v)
            },
            n as int,
        ));
    }
    let ghost cut = list@;
    let m: usize = list.len();
    if at + 1 >= m {
        return ;
    }
    let mut kept: Vec<usize> = Vec::new();
    for r in 0..at + 1
        invariant
            at + 1 < m,
            m == list@.len(),
            kept@ == list@.take(r as int),
    {
        kept.push(list[r]);
        assert(kept@ =~= list@.take(r + 1));
    }
    for r in at + 1..m
        invariant
            at + 1 < m,
            m == list@.len(),
            list@ == cut,
            kept@ == cut.take(at + 1) + without(cut.subrange(at + 1, r as int), v),
    {
        let e: usize = list[r];
        assert(cut.subrange(at + 1, r + 1).drop_last() =~= cut.subrange(at + 1, r as int));
        assert(cut.subrange(at + 1, r + 1).last() == e);
        reveal(Seq::filter);
        if e != v {
            kept.push(e);
        }
        assert(kept@ =~= cut.take(at + 1) + without(cut.subrange(at + 1, r + 1), v));
    }
    assert(cut.subrange(at + 1, m as int) =~= cut.skip(at + 1));
    *list = kept;
}

/// Applies the modification of a slice header to a reference list of places in
/// the buffer of stored pictures.
#[verifier::loop_isolation(false)]
pub fn apply_ref_list_modification(
    dpb: &VecDeque<RefPicture>,
    default_list: &[usize],
    num_active: usize,
    mods: &[RefPicListModification],
    curr_frame_num: u32,
    max_frame_num: u32,
) -> (r: Result<Vec<usize>, Error>)
    requires
        num_active < usize::MAX,
    ensures
        match modified_list(
            stored(dpb@),
            default_list@,
            num_active as int,
            mods@,
            curr_frame_num as int,
            max_frame_num as int,
        ) {
            Ok(list) => r matches Ok(v) && v@ == list,
            Err(e) => r matches Err(f) && f == e,
        },
{
    let mut list: Vec<usize> = copy_list(default_list);
    if mods.len() == 0 {
        return Ok(list);
    }
    pad_list(&mut list, num_active + 1);
    let mut pred: i128 = curr_frame_num as i128;
    let n: usize = mods.len();
    for i in 0..n
        invariant
            n == mods@.len(),
            -0x2_0000_0000 * (i + 1) <= pred <= 0x2_0000_0000 * (i + 1),
            modified_from(
                stored(dpb@),
                padded(default_list@, num_active + 1),
                num_active as int,
                mods@,
                0,
                curr_frame_num as int,
                curr_frame_num as int,
                max_frame_num as int,
            ) == modified_from(
                stored(dpb@),
                list@,
                num_active as int,
                mods@,
                i as int,
                pred as int,
                curr_frame_num as int,
                max_frame_num as int,
            ),
    {
        let m: RefPicListModification = mods[i];
        if m.idc == 2 {
            return Err(Error::Unsupported(Reason::LongTermReference));
        }
        let distance: i128 = m.value as i128 + 1;
        let max_pic_num: i128 = max_frame_num as i128;
        let mut next: i128 = if m.idc == 0 {
            pred - distance
        } else {
            pred + distance
        };
        if m.idc == 0 {
            if next < 0 {
                next = next + max_pic_num;
            }
        } else if next >= max_pic_num {
            next = next - max_pic_num;
        }
        pred = next;
        let num: i128 = if next > curr_frame_num as i128 {
            next - max_pic_num
        } else {
            next
        };
        match find_picture(dpb, num, curr_frame_num, max_frame_num) {
            None => {
                return Err(Error::InvalidData(Reason::MissingReference));
            },
            Some(found) => {
                move_to(&mut list, i, found, num_active + 1);
            },
        }
    }
    if list.len() > num_active {
        list.truncate(num_active);
    }
    proof {
        let whole = modified_from(
            stored(dpb@),
            padded(default_list@, num_active + 1),
            num_active as int,
            mods@,
            0,
            curr_frame_num as int,
            curr_frame_num as int,
            max_frame_num as int,
        );
        assert(whole is Ok);
        assert(list@ =~= at_most(whole->Ok_0, num_active as int));
    }
    Ok(list)
}

proof fn lemma_without(list: Seq<usize>, v: usize, n: usize)
    requires
        forall|i: int| 0 <= i < list.len() ==> (#[trigger] list[i]) < n,
    ensures
        forall|i: int| 0 <= i < without(list, v).len() ==> (#[trigger] without(list, v)[i]) < n,
    decreases list.len(),
{
    reveal(Seq::filter);
    if list.len() > 0 {
        let front = list.drop_last();
        assert forall|i: int| 0 <= i < front.len() implies (#[trigger] front[i]) < n by {
            assert(front[i] == list[i]);
        }
        lemma_without(front, v, n);
        assert(list[list.len() - 1] < n);
        assert forall|i: int| 0 <= i < without(list, v).len() implies (#[trigger] without(
            list,
            v,
        )[i]) < n by {
            if i < without(front, v).len() {
                assert(without(list, v)[i] == without(front, v)[i]);
            }
        }
    }
}

proof fn lemma_without_is_short(list: Seq<usize>, v: usize)
    ensures
        without(list, v).len() <= list.len(),
    decreases list.len(),
{
    reveal(Seq::filter);
    if list.len() > 0 {
        lemma_without_is_short(list.drop_last(), v);
    }
}

proof fn lemma_moved_to(list: Seq<usize>, at: int, v: usize, n: int)
    requires
        0 <= at,
        0 < n,
        at <= list.len() || n <= list.len(),
    ensures
        ({
            let out = moved_to(list, at, v, n);
            &&& out.len() <= n
            &&& out.len() > at || out.len() >= n
            &&& forall|k: int| 0 <= k < at && k < n ==> (#[trigger] out[k]) == list[k]
            &&& at < n ==> out[at] == v
        }),
{
    let put = if at >= list.len() {
        list.push(v)
    } else {
        list.insert(at, v)
    };
    let cut = at_most(put, n);
    if at + 1 < cut.len() {
        lemma_without_is_short(cut.skip(at + 1), v);
    }
}

proof fn lemma_moved_to_stays_inside(list: Seq<usize>, at: int, v: usize, n: int, size: usize)
    requires
        0 <= at,
        0 < n,
        v < size,
        forall|i: int| 0 <= i < list.len() ==> (#[trigger] list[i]) < size,
    ensures
        forall|i: int|
            0 <= i < moved_to(list, at, v, n).len() ==> (#[trigger] moved_to(list, at, v, n)[i])
                < size,
{
    let put = if at >= list.len() {
        list.push(v)
    } else {
        list.insert(at, v)
    };
    let cut = at_most(put, n);
    assert forall|i: int| 0 <= i < put.len() implies (#[trigger] put[i]) < size by {
        if at < list.len() {
            if i < at {
                assert(put[i] == list[i]);
            } else if i > at {
                assert(put[i] == list[i - 1]);
            }
        }
    }
    assert forall|i: int| 0 <= i < cut.len() implies (#[trigger] cut[i]) < size by {
        assert(cut[i] == put[i]);
    }
    if at + 1 < cut.len() {
        lemma_without(cut.skip(at + 1), v, size);
    }
}

/// The picture number that the `k`-th step names, counted from the `i`-th.
pub open spec fn step_number(
    mods: Seq<RefPicListModification>,
    i: int,
    k: int,
    pred: int,
    max_frame_num: int,
) -> int
    decreases k - i,
{
    let next = stepped(pred, mods[i], max_frame_num);
    if k <= i {
        next
    } else {
        step_number(mods, i + 1, k, next, max_frame_num)
    }
}

proof fn lemma_steps_keep_the_head(
    dpb: Seq<Stored>,
    list: Seq<usize>,
    num_active: int,
    mods: Seq<RefPicListModification>,
    i: int,
    pred: int,
    curr: int,
    max_frame_num: int,
)
    requires
        0 <= num_active,
        0 <= i <= mods.len(),
        i <= list.len() || num_active + 1 <= list.len(),
    ensures
        modified_from(dpb, list, num_active, mods, i, pred, curr, max_frame_num) matches Ok(out)
            ==> {
            &&& out.len() >= mods.len() || out.len() >= num_active + 1
            &&& forall|k: int|
                0 <= k < i && k < num_active + 1 ==> (#[trigger] out[k]) == list[k]
        },
    decreases mods.len() - i,
{
    if i < mods.len() && mods[i].idc != 2 {
        let next = stepped(pred, mods[i], max_frame_num);
        if let Some(found) = find_from(
            dpb,
            unwrapped(next, curr, max_frame_num),
            curr,
            max_frame_num,
            0,
        ) {
            lemma_moved_to(list, i, found, num_active + 1);
            let to = moved_to(list, i, found, num_active + 1);
            lemma_steps_keep_the_head(
                dpb,
                to,
                num_active,
                mods,
                i + 1,
                next,
                curr,
                max_frame_num,
            );
            if let Ok(out) = modified_from(
                dpb,
                to,
                num_active,
                mods,
                i + 1,
                next,
                curr,
                max_frame_num,
            ) {
                assert forall|k: int| 0 <= k < i && k < num_active + 1 implies (#[trigger] out[k])
                    == list[k] by {
                    assert(out[k] == to[k]);
                }
            }
        }
    }
}

proof fn lemma_steps_put_their_pictures(
    dpb: Seq<Stored>,
    list: Seq<usize>,
    num_active: int,
    mods: Seq<RefPicListModification>,
    i: int,
    pred: int,
    curr: int,
    max_frame_num: int,
    k: int,
)
    requires
        0 <= i <= k < mods.len(),
        k < num_active,
        i <= list.len() || num_active + 1 <= list.len(),
    ensures
        modified_from(dpb, list, num_active, mods, i, pred, curr, max_frame_num) matches Ok(out)
            ==> out.len() > k && find_from(
            dpb,
            unwrapped(step_number(mods, i, k, pred, max_frame_num), curr, max_frame_num),
            curr,
            max_frame_num,
            0,
        ) == Some(out[k]),
    decreases mods.len() - i,
{
    if mods[i].idc != 2 {
        let next = stepped(pred, mods[i], max_frame_num);
        if let Some(found) = find_from(
            dpb,
            unwrapped(next, curr, max_frame_num),
            curr,
            max_frame_num,
            0,
        ) {
            lemma_moved_to(list, i, found, num_active + 1);
            let to = moved_to(list, i, found, num_active + 1);
            if k == i {
                lemma_steps_keep_the_head(
                    dpb,
                    to,
                    num_active,
                    mods,
                    i + 1,
                    next,
                    curr,
                    max_frame_num,
                );
                if let Ok(out) = modified_from(
                    dpb,
                    to,
                    num_active,
                    mods,
                    i + 1,
                    next,
                    curr,
                    max_frame_num,
                ) {
                    assert(out[i] == to[i]);
                }
            } else {
                lemma_steps_put_their_pictures(
                    dpb,
                    to,
                    num_active,
                    mods,
                    i + 1,
                    next,
                    curr,
                    max_frame_num,
                    k,
                );
            }
        }
    }
}

/// The pictures that a modification names lead the modified list, in the order
/// in which they are named.
pub proof fn law_named_pictures_lead_the_list(
    dpb: Seq<Stored>,
    default_list: Seq<usize>,
    num_active: int,
    mods: Seq<RefPicListModification>,
    curr: int,
    max_frame_num: int,
    k: int,
)
    requires
        0 <= k < mods.len(),
        k < num_active,
    ensures
        modified_list(dpb, default_list, num_active, mods, curr, max_frame_num) matches Ok(out)
            ==> out.len() > k && find_from(
            dpb,
            unwrapped(step_number(mods, 0, k, curr, max_frame_num), curr, max_frame_num),
            curr,
            max_frame_num,
            0,
        ) == Some(out[k]),
{
    lemma_steps_put_their_pictures(
        dpb,
        padded(default_list, num_active + 1),
        num_active,
        mods,
        0,
        curr,
        curr,
        max_frame_num,
        k,
    );
}

proof fn lemma_padded_stays_inside(list: Seq<usize>, n: int, size: usize)
    requires
        forall|i: int| 0 <= i < list.len() ==> (#[trigger] list[i]) < size,
    ensures
        forall|i: int|
            0 <= i < padded(list, n).len() ==> (#[trigger] padded(list, n)[i]) < size,
    decreases n - list.len(),
{
    if list.len() > 0 && list.len() < n {
        assert(list[list.len() - 1] < size);
        let longer = list.push(list.last());
        assert forall|i: int| 0 <= i < longer.len() implies (#[trigger] longer[i]) < size by {
            if i < list.len() {
                assert(longer[i] == list[i]);
            }
        }
        lemma_padded_stays_inside(longer, n, size);
        assert(padded(list, n) == padded(longer, n));
    } else {
        assert(padded(list, n) == list);
    }
}

proof fn lemma_modified_from_stays_inside(
    dpb: Seq<Stored>,
    list: Seq<usize>,
    num_active: int,
    mods: Seq<RefPicListModification>,
    i: int,
    pred: int,
    curr: int,
    max_frame_num: int,
)
    requires
        0 <= num_active,
        0 <= i,
        dpb.len() <= usize::MAX,
        forall|j: int| 0 <= j < list.len() ==> (#[trigger] list[j]) < dpb.len(),
    ensures
        modified_from(dpb, list, num_active, mods, i, pred, curr, max_frame_num) matches Ok(out)
            ==> forall|j: int| 0 <= j < out.len() ==> (#[trigger] out[j]) < dpb.len(),
    decreases mods.len() - i,
{
    if i < mods.len() && mods[i].idc != 2 {
        let next = stepped(pred, mods[i], max_frame_num);
        let num = unwrapped(next, curr, max_frame_num);
        law_found_pictures_have_the_number(dpb, num, curr, max_frame_num, 0);
        if let Some(found) = find_from(dpb, num, curr, max_frame_num, 0) {
            lemma_moved_to_stays_inside(list, i, found, num_active + 1, dpb.len() as usize);
            lemma_modified_from_stays_inside(
                dpb,
                moved_to(list, i, found, num_active + 1),
                num_active,
                mods,
                i + 1,
                next,
                curr,
                max_frame_num,
            );
        }
    }
}

/// A modified list names stored pictures only, as its default did, and no more
/// of them than are active.
pub proof fn law_modified_list_names_stored_pictures(
    dpb: Seq<Stored>,
    default_list: Seq<usize>,
    num_active: int,
    mods: Seq<RefPicListModification>,
    curr: int,
    max_frame_num: int,
)
    requires
        0 <= num_active,
        dpb.len() <= usize::MAX,
        forall|j: int| 0 <= j < default_list.len() ==> (#[trigger] default_list[j]) < dpb.len(),
    ensures
        modified_list(dpb, default_list, num_active, mods, curr, max_frame_num) matches Ok(out)
            ==> {
            &&& mods.len() > 0 ==> out.len() <= num_active
            &&& forall|j: int| 0 <= j < out.len() ==> (#[trigger] out[j]) < dpb.len()
        },
{
    lemma_padded_stays_inside(default_list, num_active + 1, dpb.len() as usize);
    lemma_modified_from_stays_inside(
        dpb,
        padded(default_list, num_active + 1),
        num_active,
        mods,
        0,
        curr,
        curr,
        max_frame_num,
    );
    if mods.len() > 0 {
        if let Ok(list) = modified_from(
            dpb,
            padded(default_list, num_active + 1),
            num_active,
            mods,
            0,
            curr,
            curr,
            max_frame_num,
        ) {
            assert forall|j: int| 0 <= j < at_most(list, num_active).len() implies (
            #[trigger] at_most(list, num_active)[j]) < dpb.len() by {
                assert(at_most(list, num_active)[j] == list[j]);
            }
        }
    }
}

} // verus!
