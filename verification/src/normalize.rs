//! Normalization of a keyframe list: a stable sort by time, then a pass
//! that makes every rotation take the shorter arc from the one before it.

use vstd::prelude::*;
use vstd::seq_lib::to_multiset_build;
use crate::keyframe::{lemma_same_up_to_sign, Keyframe};
use crate::quaternion::lemma_dot_negated;

verus! {

/// Whether the times never decrease along the sequence.
pub open spec fn ascending(s: Seq<Keyframe>) -> bool {
    forall|i: int, j: int| 0 <= i <= j < s.len() ==> s[i].time <= s[j].time
}

/// Whether no rotation has a negative dot product with the one before it.
pub open spec fn shortest_arcs(s: Seq<Keyframe>) -> bool {
    forall|i: int|
        0 < i < s.len() ==> s[i - 1].rotation.dot_product(#[trigger] s[i].rotation) >= 0
}

/// Whether every keyframe of the sequence is well formed.
pub open spec fn all_wf(s: Seq<Keyframe>) -> bool {
    forall|i: int| 0 <= i < s.len() ==> (#[trigger] s[i]).wf()
}

/// Whether two sequences hold the same keyframes, place by place, but for
/// the signs of their rotations.
pub open spec fn same_up_to_signs(a: Seq<Keyframe>, b: Seq<Keyframe>) -> bool {
    a.len() == b.len() && forall|i: int|
        0 <= i < a.len() ==> (#[trigger] a[i]).same_up_to_sign(b[i])
}

/// The test whether a keyframe has the given time.
pub open spec fn time_is(time: i32) -> spec_fn(Keyframe) -> bool {
    |k: Keyframe| k.time == time
}

/// A sorted sequence with one more keyframe, placed behind every keyframe
/// that is not later than it.
pub open spec fn inserted(s: Seq<Keyframe>, k: Keyframe) -> Seq<Keyframe>
    decreases s.len(),
{
    if s.len() == 0 || s.last().time <= k.time {
        s.push(k)
    } else {
        inserted(s.drop_last(), k).push(s.last())
    }
}

/// The keyframes in ascending order of time; keyframes of equal time keep
/// the order they came in.
pub open spec fn sorted(s: Seq<Keyframe>) -> Seq<Keyframe>
    decreases s.len(),
{
    if s.len() == 0 {
        s
    } else {
        inserted(sorted(s.drop_last()), s.last())
    }
}

/// The keyframes with rotation signs corrected from left to right: a
/// keyframe is flipped when its rotation has a negative dot product with the
/// already corrected rotation before it.
pub open spec fn aligned(s: Seq<Keyframe>) -> Seq<Keyframe>
    decreases s.len(),
{
    if s.len() == 0 {
        s
    } else {
        let before = aligned(s.drop_last());
        let cur = s.last();
        if before.len() > 0 && before.last().rotation.dot_product(cur.rotation) < 0 {
            before.push(cur.flipped())
        } else {
            before.push(cur)
        }
    }
}

/// The canonical form of a keyframe list: sorted, then sign-corrected.
pub open spec fn normalized(s: Seq<Keyframe>) -> Seq<Keyframe> {
    aligned(sorted(s))
}

/// The knot vector of a linear curve through a sorted keyframe list: the
/// time of a lone keyframe three times, else the times of the first two
/// keyframes twice each.
pub open spec fn knots_for(s: Seq<Keyframe>) -> Seq<i32>
    recommends
        s.len() > 0,
{
    if s.len() == 1 {
        seq![s[0].time, s[0].time, s[0].time]
    } else {
        seq![s[0].time, s[0].time, s[1].time, s[1].time]
    }
}

/// Inserting at the position behind the last keyframe that is not later.
proof fn lemma_inserted_at(s: Seq<Keyframe>, k: Keyframe, p: int)
    requires
        0 <= p <= s.len(),
        forall|j: int| p <= j < s.len() ==> s[j].time > k.time,
        p > 0 ==> s[p - 1].time <= k.time,
    ensures
        inserted(s, k) == s.insert(p, k),
    decreases s.len(),
{
    if s.len() == 0 || s.last().time <= k.time {
        assert(p == s.len());
        assert(s.insert(p, k) =~= s.push(k));
    } else {
        assert(p < s.len());
        lemma_inserted_at(s.drop_last(), k, p);
        assert(s.insert(p, k) =~= s.drop_last().insert(p, k).push(s.last()));
    }
}

/// Insertion keeps a sorted sequence sorted and adds exactly the keyframe.
proof fn lemma_inserted(s: Seq<Keyframe>, k: Keyframe)
    requires
        ascending(s),
    ensures
        ascending(inserted(s, k)),
        inserted(s, k).len() == s.len() + 1,
        inserted(s, k).to_multiset() == s.to_multiset().insert(k),
        forall|i: int| 0 <= i < s.len() + 1 ==> (#[trigger] inserted(s, k)[i]).time >= k.time
            || (i < s.len() && inserted(s, k)[i] == s[i]),
    decreases s.len(),
{
    to_multiset_build(s, k);
    if s.len() == 0 || s.last().time <= k.time {
    } else {
        let front = s.drop_last();
        lemma_inserted(front, k);
        let r = inserted(front, k);
        to_multiset_build(r, s.last());
        to_multiset_build(front, s.last());
        assert(front.push(s.last()) =~= s);
        assert(r.to_multiset().insert(s.last()) =~= s.to_multiset().insert(k));
        assert forall|i: int, j: int| 0 <= i <= j < r.push(s.last()).len() implies r.push(
            s.last(),
        )[i].time <= r.push(s.last())[j].time by {
            if j < r.len() {
            } else if i < r.len() {
                if r[i].time >= k.time {
                    assert(i < front.len() ==> front[i].time <= s.last().time);
                    assert(r[i].time <= s.last().time) by {
                        lemma_inserted_bounded(front, k, s.last().time, i);
                    }
                } else {
                    assert(r[i] == front[i]);
                }
            }
        }
    }
}

/// Every keyframe of an insertion is the new one or one of the old ones.
proof fn lemma_inserted_bounded(s: Seq<Keyframe>, k: Keyframe, bound: i32, i: int)
    requires
        0 <= i < s.len() + 1,
        k.time <= bound,
        forall|j: int| 0 <= j < s.len() ==> s[j].time <= bound,
    ensures
        inserted(s, k).len() == s.len() + 1,
        inserted(s, k)[i].time <= bound,
    decreases s.len(),
{
    if s.len() == 0 || s.last().time <= k.time {
    } else {
        if i < s.len() {
            lemma_inserted_bounded(s.drop_last(), k, bound, i);
        } else {
            lemma_inserted_bounded(s.drop_last(), k, bound, 0);
        }
    }
}

/// Sorting gives a sequence in ascending order of time that holds exactly
/// the keyframes it was given.
pub proof fn lemma_sorted(s: Seq<Keyframe>)
    ensures
        ascending(sorted(s)),
        sorted(s).len() == s.len(),
        sorted(s).to_multiset() == s.to_multiset(),
    decreases s.len(),
{
    if s.len() > 0 {
        lemma_sorted(s.drop_last());
        lemma_inserted(sorted(s.drop_last()), s.last());
        to_multiset_build(s.drop_last(), s.last());
        assert(s.drop_last().push(s.last()) =~= s);
    }
}

/// Insertion puts the new keyframe behind the keyframes of its own time and
/// leaves the keyframes of every time in the order they had.
proof fn lemma_inserted_stable(s: Seq<Keyframe>, k: Keyframe, time: i32)
    ensures
        k.time == time ==> inserted(s, k).filter(time_is(time)) == s.filter(time_is(time)).push(k),
        k.time != time ==> inserted(s, k).filter(time_is(time)) == s.filter(time_is(time)),
    decreases s.len(),
{
    let pred = time_is(time);
    if s.len() == 0 || s.last().time <= k.time {
        s.lemma_filter_push(k, pred);
    } else {
        let front = s.drop_last();
        lemma_inserted_stable(front, k, time);
        inserted(front, k).lemma_filter_push(s.last(), pred);
        front.lemma_filter_push(s.last(), pred);
        assert(front.push(s.last()) =~= s);
    }
}

/// Sorting is stable: the keyframes of any one time come out in the order
/// they went in.
pub proof fn lemma_sorted_stable(s: Seq<Keyframe>, time: i32)
    ensures
        sorted(s).filter(time_is(time)) == s.filter(time_is(time)),
    decreases s.len(),
{
    if s.len() > 0 {
        let front = s.drop_last();
        lemma_sorted_stable(front, time);
        lemma_inserted_stable(sorted(front), s.last(), time);
        front.lemma_filter_push(s.last(), time_is(time));
        assert(front.push(s.last()) =~= s);
    }
}

/// Sorting keeps every keyframe well formed.
pub proof fn lemma_sorted_wf(s: Seq<Keyframe>)
    requires
        all_wf(s),
    ensures
        all_wf(sorted(s)),
{
    lemma_sorted(s);
    let r = sorted(s);
    broadcast use vstd::seq_lib::group_to_multiset_ensures;
    assert forall|i: int| 0 <= i < r.len() implies (#[trigger] r[i]).wf() by {
        assert(r.contains(r[i]));
        assert(r.to_multiset().count(r[i]) > 0);
        assert(s.to_multiset().count(r[i]) > 0);
        assert(s.contains(r[i]));
    }
}

/// The sign correction changes nothing but rotation signs, and leaves no
/// adjacent pair of rotations with a negative dot product.
pub proof fn lemma_aligned(s: Seq<Keyframe>)
    requires
        all_wf(s),
    ensures
        aligned(s).len() == s.len(),
        all_wf(aligned(s)),
        shortest_arcs(aligned(s)),
        forall|i: int|
            0 <= i < s.len() ==> (#[trigger] aligned(s)[i]) == s[i] || aligned(s)[i]
                == s[i].flipped(),
        s.len() > 0 ==> aligned(s)[0] == s[0],
    decreases s.len(),
{
    if s.len() > 0 {
        let front = s.drop_last();
        lemma_aligned(front);
        let before = aligned(front);
        let cur = s.last();
        if before.len() > 0 {
            lemma_dot_negated(before.last().rotation, cur.rotation);
        }
        let r = aligned(s);
        assert forall|i: int| 0 < i < r.len() implies r[i - 1].rotation.dot_product(
            #[trigger] r[i].rotation,
        ) >= 0 by {
            if i < before.len() {
                assert(r[i] == before[i]);
                assert(r[i - 1] == before[i - 1]);
            }
        }
        assert forall|i: int| 0 <= i < s.len() implies (#[trigger] r[i]) == s[i] || r[i]
            == s[i].flipped() by {
            if i < before.len() {
                assert(r[i] == before[i]);
                assert(front[i] == s[i]);
            }
        }
    }
}

/// The sign correction keeps the length of the list and every time in it.
pub proof fn lemma_aligned_times(s: Seq<Keyframe>)
    ensures
        aligned(s).len() == s.len(),
        forall|i: int| 0 <= i < s.len() ==> (#[trigger] aligned(s)[i]).time == s[i].time,
        ascending(s) ==> ascending(aligned(s)),
    decreases s.len(),
{
    if s.len() > 0 {
        let front = s.drop_last();
        lemma_aligned_times(front);
        let r = aligned(s);
        assert forall|i: int| 0 <= i < s.len() implies (#[trigger] r[i]).time == s[i].time by {
            if i < front.len() {
                assert(r[i] == aligned(front)[i]);
                assert(front[i] == s[i]);
            }
        }
    }
    if ascending(s) {
        let r = aligned(s);
        assert forall|i: int, j: int| 0 <= i <= j < r.len() implies r[i].time <= r[j].time by {
            assert(r[i].time == s[i].time);
            assert(r[j].time == s[j].time);
        }
    }
}

/// The canonical form of any keyframe list is in ascending order of time
/// and as long as the list.
pub proof fn lemma_normalized_sorted(s: Seq<Keyframe>)
    ensures
        ascending(normalized(s)),
        normalized(s).len() == s.len(),
{
    lemma_sorted(s);
    lemma_aligned_times(sorted(s));
}

/// In the canonical form of a list of well-formed keyframes, no rotation
/// has a negative dot product with the rotation before it.
pub proof fn lemma_normalized_arcs(s: Seq<Keyframe>)
    requires
        all_wf(s),
    ensures
        shortest_arcs(normalized(s)),
        all_wf(normalized(s)),
{
    lemma_sorted_wf(s);
    lemma_aligned(sorted(s));
}

/// Insertion goes by the times alone: rotation signs do not move anything.
proof fn lemma_inserted_signs(a: Seq<Keyframe>, b: Seq<Keyframe>, k: Keyframe, l: Keyframe)
    requires
        same_up_to_signs(a, b),
        k.same_up_to_sign(l),
    ensures
        same_up_to_signs(inserted(a, k), inserted(b, l)),
    decreases a.len(),
{
    if a.len() > 0 {
        assert(a.last().same_up_to_sign(b.last()));
        if a.last().time > k.time {
            assert forall|i: int| 0 <= i < a.drop_last().len() implies (
            #[trigger] a.drop_last()[i]).same_up_to_sign(b.drop_last()[i]) by {
                assert(a[i].same_up_to_sign(b[i]));
            }
            lemma_inserted_signs(a.drop_last(), b.drop_last(), k, l);
        }
    }
}

/// Changing rotation signs in a list changes nothing but the same signs in
/// the sorted list.
pub proof fn lemma_sorted_signs(a: Seq<Keyframe>, b: Seq<Keyframe>)
    requires
        same_up_to_signs(a, b),
    ensures
        same_up_to_signs(sorted(a), sorted(b)),
    decreases a.len(),
{
    if a.len() > 0 {
        assert forall|i: int| 0 <= i < a.drop_last().len() implies (
        #[trigger] a.drop_last()[i]).same_up_to_sign(b.drop_last()[i]) by {
            assert(a[i].same_up_to_sign(b[i]));
        }
        lemma_sorted_signs(a.drop_last(), b.drop_last());
        assert(a.last().same_up_to_sign(b.last()));
        lemma_inserted_signs(sorted(a.drop_last()), sorted(b.drop_last()), a.last(), b.last());
    }
}

/// Changing rotation signs in a list of well-formed keyframes changes
/// nothing but rotation signs in its canonical form.
pub proof fn lemma_normalized_signs(a: Seq<Keyframe>, b: Seq<Keyframe>)
    requires
        all_wf(a),
        all_wf(b),
        same_up_to_signs(a, b),
    ensures
        same_up_to_signs(normalized(a), normalized(b)),
{
    lemma_sorted_signs(a, b);
    lemma_sorted_wf(a);
    lemma_sorted_wf(b);
    lemma_aligned(sorted(a));
    lemma_aligned(sorted(b));
    let x = normalized(a);
    let y = normalized(b);
    assert forall|i: int| 0 <= i < x.len() implies (#[trigger] x[i]).same_up_to_sign(y[i]) by {
        let u = sorted(a)[i];
        let v = sorted(b)[i];
        assert(u.same_up_to_sign(x[i]));
        assert(v.same_up_to_sign(y[i]));
        assert(u.same_up_to_sign(v));
        lemma_same_up_to_sign(u, x[i], u);
        lemma_same_up_to_sign(u, v, y[i]);
        lemma_same_up_to_sign(x[i], u, y[i]);
    }
}

/// A list of one keyframe is its own canonical form.
pub proof fn lemma_normalized_single(k: Keyframe)
    ensures
        sorted(seq![k]) == seq![k],
        aligned(seq![k]) == seq![k],
        normalized(seq![k]) == seq![k],
{
    let input = seq![k];
    assert(input.drop_last() =~= Seq::<Keyframe>::empty());
    assert(sorted(input.drop_last()) =~= Seq::<Keyframe>::empty());
    assert(sorted(input) =~= input);
    assert(aligned(input.drop_last()) =~= Seq::<Keyframe>::empty());
    assert(aligned(input) =~= input);
}

/// The canonical form of two keyframes, given in either order: the earlier
/// one as it is, then the later one, flipped where the dot product of the
/// two rotations is negative. Of two keyframes with the same time the one
/// given first counts as the earlier.
pub proof fn lemma_normalized_pair(first: Keyframe, second: Keyframe)
    requires
        first.time <= second.time,
    ensures
        first.rotation.dot_product(second.rotation) < 0 ==> normalized(seq![first, second])
            == seq![first, second.flipped()],
        first.rotation.dot_product(second.rotation) >= 0 ==> normalized(seq![first, second])
            == seq![first, second],
        first.time < second.time ==> normalized(seq![second, first]) == normalized(
            seq![first, second],
        ),
{
    let ordered = seq![first, second];
    lemma_normalized_single(first);
    lemma_normalized_single(second);
    assert(ordered.drop_last() =~= seq![first]);
    assert(sorted(ordered) =~= ordered);
    assert(aligned(ordered) =~= if first.rotation.dot_product(second.rotation) < 0 {
        seq![first, second.flipped()]
    } else {
        ordered
    });
    if first.time < second.time {
        let swapped = seq![second, first];
        assert(swapped.drop_last() =~= seq![second]);
        assert(seq![second].drop_last() =~= Seq::<Keyframe>::empty());
        assert(inserted(seq![second].drop_last(), first) =~= seq![first]);
        assert(inserted(seq![second], first) =~= ordered);
        assert(sorted(swapped) =~= ordered);
    }
}

/// Sorts keyframes by time, keeping keyframes of equal time in order.
pub fn sort_by_time(keyframes: &Vec<Keyframe>) -> (r: Vec<Keyframe>)
    ensures
        r@ == sorted(keyframes@),
        r@.len() == keyframes@.len(),
        ascending(r@),
        r@.to_multiset() == keyframes@.to_multiset(),
        forall|time: i32| #[trigger] r@.filter(time_is(time)) == keyframes@.filter(time_is(time)),
{
    let mut out: Vec<Keyframe> = Vec::new();
    let mut i: usize = 0;
    while i < keyframes.len()
        invariant
            i <= keyframes.len(),
            out@ == sorted(keyframes@.take(i as int)),
            out@.len() == i,
        decreases keyframes.len() - i,
    {
        let k = keyframes[i];
        let mut p: usize = out.len();
        while p > 0 && out[p - 1].time > k.time
            invariant
                p <= out.len(),
                forall|j: int| p <= j < out.len() ==> out@[j].time > k.time,
            decreases p,
        {
            p = p - 1;
        }
        proof {
            lemma_inserted_at(out@, k, p as int);
            assert(keyframes@.take(i + 1).drop_last() =~= keyframes@.take(i as int));
        }
        out.insert(p, k);
        i = i + 1;
    }
    proof {
        assert(keyframes@.take(keyframes.len() as int) =~= keyframes@);
        lemma_sorted(keyframes@);
        assert forall|time: i32| #[trigger]
            out@.filter(time_is(time)) == keyframes@.filter(time_is(time)) by {
            lemma_sorted_stable(keyframes@, time);
        }
    }
    out
}

/// Flips rotations from left to right so that each takes the shorter arc
/// from the corrected rotation before it.
pub fn align_rotations(keyframes: &Vec<Keyframe>) -> (r: Vec<Keyframe>)
    requires
        all_wf(keyframes@),
    ensures
        r@ == aligned(keyframes@),
        r@.len() == keyframes@.len(),
        all_wf(r@),
        shortest_arcs(r@),
{
    let mut out: Vec<Keyframe> = Vec::new();
    let mut i: usize = 0;
    while i < keyframes.len()
        invariant
            i <= keyframes.len(),
            all_wf(keyframes@),
            out@ == aligned(keyframes@.take(i as int)),
            out@.len() == i,
        decreases keyframes.len() - i,
    {
        let cur = keyframes[i];
        proof {
            assert(keyframes@.take(i + 1).drop_last() =~= keyframes@.take(i as int));
            assert(cur.wf());
        }
        if i > 0 && out[i - 1].rotation.dot(&cur.rotation) < 0 {
            out.push(cur.flip());
        } else {
            out.push(cur);
        }
        i = i + 1;
    }
    proof {
        assert(keyframes@.take(keyframes.len() as int) =~= keyframes@);
        lemma_aligned(keyframes@);
    }
    out
}

/// Brings a keyframe list into canonical form.
pub fn normalize(keyframes: &Vec<Keyframe>) -> (r: Vec<Keyframe>)
    requires
        all_wf(keyframes@),
    ensures
        r@ == normalized(keyframes@),
        r@.len() == keyframes@.len(),
        all_wf(r@),
        ascending(r@),
        shortest_arcs(r@),
{
    let by_time = sort_by_time(keyframes);
    proof {
        lemma_sorted_wf(keyframes@);
        lemma_aligned_times(by_time@);
    }
    align_rotations(&by_time)
}

/// Derives the knot vector of a sorted, non-empty keyframe list.
pub fn knot_vector(keyframes: &Vec<Keyframe>) -> (knots: Vec<i32>)
    requires
        keyframes@.len() > 0,
    ensures
        knots@ == knots_for(keyframes@),
{
    let mut knots: Vec<i32> = Vec::new();
    if keyframes.len() == 1 {
        knots.push(keyframes[0].time);
        knots.push(keyframes[0].time);
        knots.push(keyframes[0].time);
    } else {
        knots.push(keyframes[0].time);
        knots.push(keyframes[0].time);
        knots.push(keyframes[1].time);
        knots.push(keyframes[1].time);
    }
    assert(knots@ =~= knots_for(keyframes@));
    knots
}

} // verus!
