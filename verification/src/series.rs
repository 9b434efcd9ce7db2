//! Series of points in time order.
//!
//! A series is kept sorted ascending by the time of its points. Points of
//! equal time stay in the order in which they arrived: the order is that
//! of a stable sort, and so it is fixed by the points and their order of
//! arrival alone.
//!
//! [`in_time_order`] says what the time order of a series is, by placing
//! its points one by one. That this is the stable sort, and the only
//! series that is one, is shown by [`lemma_in_time_order_sorted`],
//! [`lemma_in_time_order_points`], [`lemma_in_time_order_stable`] and
//! [`lemma_in_time_order_is_the_stable_sort`].

use crate::dashboard::HistoricalValue;
use vstd::prelude::*;

verus! {

/// The key by which a point is ordered: that of its time.
pub open spec fn time_key(p: HistoricalValue) -> int {
    p.x.order_key()
}

/// No point of `s` is later than one that follows it.
pub open spec fn sorted_by_time(s: Seq<HistoricalValue>) -> bool {
    forall|i: int, j: int| 0 <= i < j < s.len() ==> time_key(#[trigger] s[i]) <= time_key(#[trigger] s[j])
}

/// Where a new point `p` goes in `s`: behind the last point that is no
/// later than `p`, at the front if there is none.
pub open spec fn slot(s: Seq<HistoricalValue>, p: HistoricalValue) -> int
    decreases s.len(),
{
    if s.len() == 0 {
        0
    } else if time_key(s.last()) <= time_key(p) {
        s.len() as int
    } else {
        slot(s.drop_last(), p)
    }
}

/// `s` with the new point `p` put in its slot.
pub open spec fn placed(s: Seq<HistoricalValue>, p: HistoricalValue) -> Seq<HistoricalValue> {
    s.insert(slot(s, p), p)
}

/// The points of `s` in time order, those of equal time in the order
/// they have in `s`: each point in turn is placed among the ones before
/// it.
pub open spec fn in_time_order(s: Seq<HistoricalValue>) -> Seq<HistoricalValue>
    decreases s.len(),
{
    if s.len() == 0 {
        s
    } else {
        placed(in_time_order(s.drop_last()), s.last())
    }
}

/// The slot is a position of `s` or its end; every point from the slot
/// on is later than `p`, and the point before the slot is not.
pub proof fn lemma_slot(s: Seq<HistoricalValue>, p: HistoricalValue)
    ensures
        0 <= slot(s, p) <= s.len(),
        forall|j: int| slot(s, p) <= j < s.len() ==> time_key(#[trigger] s[j]) > time_key(p),
        slot(s, p) > 0 ==> time_key(s[slot(s, p) - 1]) <= time_key(p),
    decreases s.len(),
{
    if s.len() > 0 && time_key(s.last()) > time_key(p) {
        let front = s.drop_last();
        lemma_slot(front, p);
        assert forall|j: int| slot(s, p) <= j < s.len() implies time_key(#[trigger] s[j]) > time_key(
            p,
        ) by {
            if j < front.len() {
                assert(front[j] == s[j]);
            }
        }
    }
}

/// Placing a point in a sorted series leaves it sorted.
pub proof fn lemma_placed_sorted(s: Seq<HistoricalValue>, p: HistoricalValue)
    requires
        sorted_by_time(s),
    ensures
        sorted_by_time(placed(s, p)),
        placed(s, p).len() == s.len() + 1,
{
    lemma_slot(s, p);
    let k = slot(s, p);
    let t = placed(s, p);
    assert forall|i: int, j: int| 0 <= i < j < t.len() implies time_key(#[trigger] t[i]) <= time_key(
        #[trigger] t[j],
    ) by {
        if k > 0 {
            assert(time_key(s[k - 1]) <= time_key(p));
        }
        if i < k && j > k {
            assert(t[i] == s[i]);
            assert(t[j] == s[j - 1]);
        } else if i < k && j == k {
            assert(t[i] == s[i]);
            if i < k - 1 {
                assert(time_key(s[i]) <= time_key(s[k - 1]));
            }
        } else if i < k && j < k {
            assert(t[i] == s[i]);
            assert(t[j] == s[j]);
        } else if i == k {
            assert(t[j] == s[j - 1]);
        } else {
            assert(t[i] == s[i - 1]);
            assert(t[j] == s[j - 1]);
        }
    }
}

/// A point that is no earlier than the last of a series goes to the end.
pub proof fn lemma_placed_at_end(s: Seq<HistoricalValue>, p: HistoricalValue)
    requires
        s.len() > 0 ==> time_key(s.last()) <= time_key(p),
    ensures
        placed(s, p) == s.push(p),
{
    assert(s.insert(s.len() as int, p) =~= s.push(p));
}

/// The time order of a series is sorted and has as many points.
pub proof fn lemma_in_time_order_sorted(s: Seq<HistoricalValue>)
    ensures
        sorted_by_time(in_time_order(s)),
        in_time_order(s).len() == s.len(),
    decreases s.len(),
{
    if s.len() > 0 {
        lemma_in_time_order_sorted(s.drop_last());
        lemma_placed_sorted(in_time_order(s.drop_last()), s.last());
    }
}

/// A sorted series is its own time order: sorting again moves nothing.
pub proof fn lemma_in_time_order_of_sorted(s: Seq<HistoricalValue>)
    requires
        sorted_by_time(s),
    ensures
        in_time_order(s) == s,
    decreases s.len(),
{
    if s.len() > 0 {
        let front = s.drop_last();
        assert forall|i: int, j: int| 0 <= i < j < front.len() implies time_key(#[trigger] front[i])
            <= time_key(#[trigger] front[j]) by {
            assert(front[i] == s[i]);
            assert(front[j] == s[j]);
        }
        lemma_in_time_order_of_sorted(front);
        if front.len() > 0 {
            assert(front.last() == s[s.len() - 2]);
            assert(time_key(s[s.len() - 2]) <= time_key(s[s.len() - 1]));
        }
        lemma_placed_at_end(front, s.last());
        assert(front.push(s.last()) =~= s);
    }
}

/// Placing a point adds it to the points of the series and takes none
/// away.
pub proof fn lemma_placed_points(s: Seq<HistoricalValue>, p: HistoricalValue)
    ensures
        placed(s, p).to_multiset() == s.to_multiset().insert(p),
{
    lemma_slot(s, p);
    vstd::seq_lib::to_multiset_insert(s, slot(s, p), p);
}

/// The time order of a series has the points of the series, each as
/// often as the series has it.
pub proof fn lemma_in_time_order_points(s: Seq<HistoricalValue>)
    ensures
        in_time_order(s).to_multiset() == s.to_multiset(),
    decreases s.len(),
{
    if s.len() > 0 {
        let front = s.drop_last();
        lemma_in_time_order_points(front);
        lemma_placed_points(in_time_order(front), s.last());
        vstd::seq_lib::to_multiset_build(front, s.last());
        assert(front.push(s.last()) =~= s);
    }
}

/// The test for a point of time key `key`.
pub open spec fn at_time(key: int) -> spec_fn(HistoricalValue) -> bool {
    |p: HistoricalValue| time_key(p) == key
}

/// Among the points of one time, a placed point comes last.
pub proof fn lemma_placed_stable(s: Seq<HistoricalValue>, p: HistoricalValue, key: int)
    ensures
        placed(s, p).filter(at_time(key)) == s.push(p).filter(at_time(key)),
{
    lemma_slot(s, p);
    let k = slot(s, p);
    let hit = at_time(key);
    let front = s.subrange(0, k);
    let back = s.subrange(k, s.len() as int);
    assert(s =~= front + back);
    assert(placed(s, p) =~= front.push(p) + back);
    Seq::filter_distributes_over_add(front, back, hit);
    Seq::filter_distributes_over_add(front.push(p), back, hit);
    front.lemma_filter_push(p, hit);
    s.lemma_filter_push(p, hit);
    if hit(p) {
        assert forall|i: int| 0 <= i < back.len() implies !hit(#[trigger] back[i]) by {
            assert(back[i] == s[k + i]);
        }
        back.lemma_all_neg_filter_empty(hit);
        assert(front.filter(hit).push(p) + back.filter(hit) =~= (front.filter(hit) + back.filter(
            hit,
        )).push(p));
    }
}

/// Putting a series in time order keeps the points of each time in the
/// order they had.
pub proof fn lemma_in_time_order_stable(s: Seq<HistoricalValue>, key: int)
    ensures
        in_time_order(s).filter(at_time(key)) == s.filter(at_time(key)),
    decreases s.len(),
{
    if s.len() > 0 {
        let front = s.drop_last();
        let hit = at_time(key);
        lemma_in_time_order_stable(front, key);
        lemma_placed_stable(in_time_order(front), s.last(), key);
        in_time_order(front).lemma_filter_push(s.last(), hit);
        front.lemma_filter_push(s.last(), hit);
        assert(front.push(s.last()) =~= s);
    }
}

/// Two sorted series that agree, for every time, on their points of that
/// time and the order of these, are one series.
pub proof fn lemma_sorted_and_stable_is_one(a: Seq<HistoricalValue>, b: Seq<HistoricalValue>)
    requires
        sorted_by_time(a),
        sorted_by_time(b),
        forall|key: int| #[trigger] a.filter(at_time(key)) == b.filter(at_time(key)),
    ensures
        a == b,
    decreases a.len(),
{
    reveal(Seq::filter);
    if a.len() == 0 {
        if b.len() > 0 {
            let key = time_key(b.last());
            assert(at_time(key)(b.last()));
            assert(a.filter(at_time(key)) == b.filter(at_time(key)));
        }
        assert(a =~= b);
    } else {
        let key = time_key(a.last());
        let hit = at_time(key);
        assert(hit(a.last()));
        assert(a.filter(hit) == b.filter(hit));
        assert(a.filter(hit).last() == a.last());
        // `b` has a point of the last time of `a`, and none of a later time
        b.lemma_filter_len(hit);
        assert(b.len() > 0);
        let top = time_key(b.last());
        assert(at_time(top)(b.last()));
        assert(a.filter(at_time(top)) == b.filter(at_time(top)));
        assert(b.filter(at_time(top)).last() == b.last());
        a.lemma_filter_contains_rev(at_time(top), b.last());
        b.lemma_filter_contains_rev(hit, a.last());
        let i = choose|i: int| 0 <= i < a.len() && a[i] == b.last();
        let j = choose|j: int| 0 <= j < b.len() && b[j] == a.last();
        assert(time_key(a[i]) <= time_key(a[a.len() - 1]));
        assert(time_key(b[j]) <= time_key(b[b.len() - 1]));
        assert(top == key);
        assert(b.last() == a.last());
        let a_front = a.drop_last();
        let b_front = b.drop_last();
        assert forall|x: int, y: int| 0 <= x < y < a_front.len() implies time_key(
            #[trigger] a_front[x],
        ) <= time_key(#[trigger] a_front[y]) by {
            assert(a_front[x] == a[x]);
            assert(a_front[y] == a[y]);
        }
        assert forall|x: int, y: int| 0 <= x < y < b_front.len() implies time_key(
            #[trigger] b_front[x],
        ) <= time_key(#[trigger] b_front[y]) by {
            assert(b_front[x] == b[x]);
            assert(b_front[y] == b[y]);
        }
        assert forall|other: int| #[trigger]
            a_front.filter(at_time(other)) == b_front.filter(at_time(other)) by {
            assert(a.filter(at_time(other)) == b.filter(at_time(other)));
            if at_time(other)(a.last()) {
                assert(a_front.filter(at_time(other)) =~= a.filter(at_time(other)).drop_last());
                assert(b_front.filter(at_time(other)) =~= b.filter(at_time(other)).drop_last());
            }
        }
        lemma_sorted_and_stable_is_one(a_front, b_front);
        assert(a =~= a_front.push(a.last()));
        assert(b =~= b_front.push(b.last()));
    }
}

/// The time order of a series is its stable sort: the one series that
/// is sorted by time and has, for every time, the points of that time
/// in the order the series has them.
pub proof fn lemma_in_time_order_is_the_stable_sort(
    s: Seq<HistoricalValue>,
    t: Seq<HistoricalValue>,
)
    requires
        sorted_by_time(t),
        forall|key: int| #[trigger] t.filter(at_time(key)) == s.filter(at_time(key)),
    ensures
        t == in_time_order(s),
{
    lemma_in_time_order_sorted(s);
    assert forall|key: int| #[trigger]
        t.filter(at_time(key)) == in_time_order(s).filter(at_time(key)) by {
        lemma_in_time_order_stable(s, key);
        assert(t.filter(at_time(key)) == s.filter(at_time(key)));
    }
    lemma_sorted_and_stable_is_one(t, in_time_order(s));
}

/// The series `s` after the points of `points` have arrived, first to
/// last. After each arrival the series is put in time order; so nothing
/// moves if nothing arrives, and else the whole is in time order, the
/// new points behind the old ones of the same time.
pub open spec fn arrived(s: Seq<HistoricalValue>, points: Seq<HistoricalValue>) -> Seq<
    HistoricalValue,
> {
    if points.len() == 0 {
        s
    } else {
        in_time_order(s + points)
    }
}

/// Putting the front of a series in time order first changes nothing in
/// the time order of the whole.
pub proof fn lemma_in_time_order_absorbs(a: Seq<HistoricalValue>, b: Seq<HistoricalValue>)
    ensures
        in_time_order(in_time_order(a) + b) == in_time_order(a + b),
    decreases b.len(),
{
    if b.len() == 0 {
        lemma_in_time_order_sorted(a);
        lemma_in_time_order_of_sorted(in_time_order(a));
        assert(in_time_order(a) + b =~= in_time_order(a));
        assert(a + b =~= a);
    } else {
        let front = b.drop_last();
        lemma_in_time_order_absorbs(a, front);
        assert((in_time_order(a) + b).drop_last() =~= in_time_order(a) + front);
        assert((a + b).drop_last() =~= a + front);
    }
}

/// One point arrives as `in_time_order` places it.
pub proof fn lemma_arrived_one(s: Seq<HistoricalValue>, p: HistoricalValue)
    ensures
        arrived(s, seq![p]) == in_time_order(s.push(p)),
{
    assert(s + seq![p] =~= s.push(p));
}

/// Points that arrive in two parts give the series that they give when
/// they arrive together.
pub proof fn lemma_arrived_in_parts(
    s: Seq<HistoricalValue>,
    first: Seq<HistoricalValue>,
    second: Seq<HistoricalValue>,
)
    ensures
        arrived(arrived(s, first), second) == arrived(s, first + second),
{
    if second.len() == 0 {
        assert(first + second =~= first);
    } else if first.len() == 0 {
        assert(first + second =~= second);
    } else {
        lemma_in_time_order_absorbs(s + first, second);
        assert((s + first) + second =~= s + (first + second));
    }
}

/// After points have arrived the series has its old points and the new
/// ones, each as often as it arrived: none is dropped and none merged
/// with an equal one.
pub proof fn lemma_arrived_points(s: Seq<HistoricalValue>, points: Seq<HistoricalValue>)
    ensures
        arrived(s, points).to_multiset() == s.to_multiset().add(points.to_multiset()),
        arrived(s, points).len() == s.len() + points.len(),
{
    vstd::seq_lib::lemma_multiset_commutative(s, points);
    if points.len() == 0 {
        assert(s + points =~= s);
    } else {
        lemma_in_time_order_points(s + points);
        lemma_in_time_order_sorted(s + points);
    }
}

/// After points have arrived the series is sorted by time; if none
/// arrived, it is as sorted as it was.
pub proof fn lemma_arrived_sorted(s: Seq<HistoricalValue>, points: Seq<HistoricalValue>)
    requires
        points.len() > 0 || sorted_by_time(s),
    ensures
        sorted_by_time(arrived(s, points)),
{
    if points.len() > 0 {
        lemma_in_time_order_sorted(s + points);
    }
}

/// Among the points of one time, those that arrive come behind those
/// that were there, in the order of their arrival.
pub proof fn lemma_arrived_stable(
    s: Seq<HistoricalValue>,
    points: Seq<HistoricalValue>,
    key: int,
)
    ensures
        arrived(s, points).filter(at_time(key)) == s.filter(at_time(key)) + points.filter(
            at_time(key),
        ),
{
    Seq::filter_distributes_over_add(s, points, at_time(key));
    if points.len() == 0 {
        assert(s + points =~= s);
    } else {
        lemma_in_time_order_stable(s + points, key);
    }
}

/// Finds the slot of `p` among the first `end` points of `v`.
pub fn find_slot(v: &Vec<HistoricalValue>, end: usize, p: HistoricalValue) -> (k: usize)
    requires
        end <= v.len(),
    ensures
        k == slot(v@.subrange(0, end as int), p),
        k <= end,
{
    let ghost head = v@.subrange(0, end as int);
    let mut k: usize = end;
    proof {
        assert(head.subrange(0, end as int) =~= head);
    }
    while k > 0 && !v[k - 1].x.le(p.x)
        invariant
            k <= end <= v.len(),
            head == v@.subrange(0, end as int),
            slot(head, p) == slot(head.subrange(0, k as int), p),
        decreases k,
    {
        proof {
            let part = head.subrange(0, k as int);
            assert(part.last() == v@[k - 1]);
            assert(part.drop_last() =~= head.subrange(0, k - 1));
        }
        k -= 1;
    }
    proof {
        let part = head.subrange(0, k as int);
        if k > 0 {
            assert(part.last() == v@[k - 1]);
        }
    }
    k
}

/// Puts `p` into `v` at its slot.
pub fn place(v: &mut Vec<HistoricalValue>, p: HistoricalValue)
    ensures
        final(v)@ == placed(old(v)@, p),
{
    let end = v.len();
    let k = find_slot(v, end, p);
    proof {
        assert(v@.subrange(0, end as int) =~= v@);
    }
    v.insert(k, p);
}

/// Sorts `v` by time, keeping points of equal time in their order.
///
/// Each point in turn moves back to its slot among the points before it.
/// A series that is sorted already is read once and left as it is.
pub fn sort_by_time(v: &mut Vec<HistoricalValue>)
    ensures
        final(v)@ == in_time_order(old(v)@),
        sorted_by_time(final(v)@),
        final(v)@.to_multiset() == old(v)@.to_multiset(),
        forall|key: int| #[trigger]
            final(v)@.filter(at_time(key)) == old(v)@.filter(at_time(key)),
{
    let n = v.len();
    let mut i: usize = 0;
    while i < n
        invariant
            i <= n,
            n == v.len(),
            n == old(v)@.len(),
            v@.subrange(0, i as int) == in_time_order(old(v)@.subrange(0, i as int)),
            v@.subrange(i as int, n as int) == old(v)@.subrange(i as int, n as int),
        decreases n - i,
    {
        let ghost before = v@;
        let ghost done = v@.subrange(0, i as int);
        let ghost rest = v@.subrange(i as int, n as int);
        let p = v[i];
        let k = find_slot(v, i, p);
        if k < i {
            v.remove(i);
            v.insert(k, p);
        }
        proof {
            let given = old(v)@;
            assert(p == rest[0]);
            assert(p == given[i as int]);
            assert(given.subrange(0, i + 1).drop_last() =~= given.subrange(0, i as int));
            assert(given.subrange(0, i + 1).last() == p);
            lemma_slot(done, p);
            assert(v@.subrange(0, i + 1) =~= done.insert(k as int, p)) by {
                if k < i {
                    assert(v@ =~= before.remove(i as int).insert(k as int, p));
                } else {
                    assert(done.insert(i as int, p) =~= done.push(p));
                }
            }
            let tail = v@.subrange(i + 1, n as int);
            assert(tail =~= given.subrange(i + 1, n as int)) by {
                assert forall|j: int| 0 <= j < n - i - 1 implies #[trigger] tail[j] == given[i + 1 + j] by {
                    assert(rest[j + 1] == given.subrange(i as int, n as int)[j + 1]);
                }
            }
        }
        i += 1;
    }
    proof {
        assert(v@.subrange(0, n as int) =~= v@);
        assert(old(v)@.subrange(0, n as int) =~= old(v)@);
        lemma_in_time_order_sorted(old(v)@);
        lemma_in_time_order_points(old(v)@);
        assert forall|key: int| #[trigger]
            in_time_order(old(v)@).filter(at_time(key)) == old(v)@.filter(at_time(key)) by {
            lemma_in_time_order_stable(old(v)@, key);
        }
    }
}

} // verus!
