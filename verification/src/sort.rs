//! Stable ordering of samples by time.

use vstd::prelude::*;
use vstd::seq_lib::lemma_multiset_commutative;
use vstd::seq_lib::to_multiset_build;
use crate::sample::Sample;
use crate::time::Timestamp;

verus! {

/// No sample of `s` is later than one that follows it.
pub open spec fn ordered(s: Seq<Sample>) -> bool {
    forall|i: int, j: int| 0 <= i <= j < s.len() ==> s[i].timestamp.le(s[j].timestamp)
}

/// The predicate that picks the samples taken at `t`.
pub open spec fn taken_at(t: Timestamp) -> spec_fn(Sample) -> bool {
    |s: Sample| s.timestamp == t
}

/// `r` holds the samples of `s` in ascending order of time, and samples taken
/// at the same time stand in `r` in the order in which they stand in `s`.
pub open spec fn is_stable_sort_of(r: Seq<Sample>, s: Seq<Sample>) -> bool {
    &&& ordered(r)
    &&& r.to_multiset() == s.to_multiset()
    &&& forall|t: Timestamp| #[trigger] r.filter(taken_at(t)) == s.filter(taken_at(t))
}

/// `r` is the ordered merge of the runs `a` and `b`: it holds their samples,
/// and at every time those of `a` before those of `b`.
spec fn merged(r: Seq<Sample>, a: Seq<Sample>, b: Seq<Sample>) -> bool {
    &&& ordered(r)
    &&& r.to_multiset() == a.to_multiset().add(b.to_multiset())
    &&& forall|t: Timestamp| #[trigger]
        r.filter(taken_at(t)) == a.filter(taken_at(t)) + b.filter(taken_at(t))
}

/// A sequence none of whose members is taken at `t` has nothing to pick at `t`.
proof fn lemma_nothing_taken(s: Seq<Sample>, t: Timestamp)
    requires
        forall|k: int| 0 <= k < s.len() ==> s[k].timestamp != t,
    ensures
        s.filter(taken_at(t)) == Seq::<Sample>::empty(),
{
    let f = s.filter(taken_at(t));
    if f.len() > 0 {
        s.lemma_filter_contains_rev(taken_at(t), f[0]);
    }
}

/// Extending the left prefix by `x` keeps `merged` when nothing taken from
/// the right so far is as late as `x`.
proof fn lemma_merge_left(r: Seq<Sample>, a: Seq<Sample>, b: Seq<Sample>, x: Sample)
    requires
        merged(r, a, b),
        forall|k: int| 0 <= k < r.len() ==> r[k].timestamp.le(x.timestamp),
        forall|k: int| 0 <= k < b.len() ==> b[k].timestamp.lt(x.timestamp),
    ensures
        merged(r.push(x), a.push(x), b),
{
    let r2 = r.push(x);
    to_multiset_build(r, x);
    to_multiset_build(a, x);
    assert(r2.to_multiset() =~= a.push(x).to_multiset().add(b.to_multiset()));
    assert forall|t: Timestamp| #[trigger]
        r2.filter(taken_at(t)) == a.push(x).filter(taken_at(t)) + b.filter(taken_at(t)) by {
        r.lemma_filter_push(x, taken_at(t));
        a.lemma_filter_push(x, taken_at(t));
        if x.timestamp == t {
            lemma_nothing_taken(b, t);
        }
    }
}

/// Extending the right prefix by `y` keeps `merged` when nothing emitted so
/// far is later than `y`.
proof fn lemma_merge_right(r: Seq<Sample>, a: Seq<Sample>, b: Seq<Sample>, y: Sample)
    requires
        merged(r, a, b),
        forall|k: int| 0 <= k < r.len() ==> r[k].timestamp.le(y.timestamp),
    ensures
        merged(r.push(y), a, b.push(y)),
{
    let r2 = r.push(y);
    to_multiset_build(r, y);
    to_multiset_build(b, y);
    assert(r2.to_multiset() =~= a.to_multiset().add(b.push(y).to_multiset()));
    assert forall|t: Timestamp| #[trigger]
        r2.filter(taken_at(t)) == a.filter(taken_at(t)) + b.push(y).filter(taken_at(t)) by {
        r.lemma_filter_push(y, taken_at(t));
        b.lemma_filter_push(y, taken_at(t));
    }
}

/// Merges two ordered runs into one; where a sample of `a` and one of `b`
/// were taken at the same time, the one of `a` comes first.
fn merge(a: &Vec<Sample>, b: &Vec<Sample>) -> (r: Vec<Sample>)
    requires
        ordered(a@),
        ordered(b@),
    ensures
        merged(r@, a@, b@),
{
    let mut out: Vec<Sample> = Vec::new();
    let mut i: usize = 0;
    let mut j: usize = 0;
    proof {
        assert(a@.take(0) =~= Seq::<Sample>::empty());
        assert(b@.take(0) =~= Seq::<Sample>::empty());
        lemma_multiset_commutative(Seq::<Sample>::empty(), Seq::<Sample>::empty());
    }
    while i < a.len() || j < b.len()
        invariant
            i <= a.len(),
            j <= b.len(),
            ordered(a@),
            ordered(b@),
            merged(out@, a@.take(i as int), b@.take(j as int)),
            forall|k: int| 0 <= k < out.len() && i < a.len() ==> out[k].timestamp.le(a[i as int].timestamp),
            forall|k: int| 0 <= k < out.len() && j < b.len() ==> out[k].timestamp.le(b[j as int].timestamp),
            forall|k: int| 0 <= k < j && i < a.len() ==> b[k].timestamp.lt(a[i as int].timestamp),
        decreases a.len() - i + b.len() - j,
    {
        let from_left = if i == a.len() {
            false
        } else if j == b.len() {
            true
        } else {
            a[i].timestamp.is_le(&b[j].timestamp)
        };
        if from_left {
            let x = a[i];
            proof {
                lemma_merge_left(out@, a@.take(i as int), b@.take(j as int), x);
                assert(a@.take(i as int).push(x) =~= a@.take(i + 1));
                assert forall|k: int| 0 <= k < out.len() + 1 && i + 1 < a.len() implies out@.push(
                    x,
                )[k].timestamp.le(a[i + 1].timestamp) by {
                    assert(a[i as int].timestamp.le(a[i + 1].timestamp));
                }
                assert forall|k: int| 0 <= k < j && i + 1 < a.len() implies b[k].timestamp.lt(
                    a[i + 1].timestamp,
                ) by {
                    assert(a[i as int].timestamp.le(a[i + 1].timestamp));
                }
            }
            out.push(x);
            i = i + 1;
        } else {
            let y = b[j];
            proof {
                lemma_merge_right(out@, a@.take(i as int), b@.take(j as int), y);
                assert(b@.take(j as int).push(y) =~= b@.take(j + 1));
                assert forall|k: int| 0 <= k < out.len() + 1 && j + 1 < b.len() implies out@.push(
                    y,
                )[k].timestamp.le(b[j + 1].timestamp) by {
                    assert(b[j as int].timestamp.le(b[j + 1].timestamp));
                }
            }
            out.push(y);
            j = j + 1;
        }
    }
    proof {
        assert(a@.take(a.len() as int) =~= a@);
        assert(b@.take(b.len() as int) =~= b@);
    }
    out
}

/// Sorts the samples `v[lo..hi]` into a new vector.
fn sort_range(v: &Vec<Sample>, lo: usize, hi: usize) -> (r: Vec<Sample>)
    requires
        lo <= hi <= v.len(),
    ensures
        is_stable_sort_of(r@, v@.subrange(lo as int, hi as int)),
    decreases hi - lo,
{
    let ghost part = v@.subrange(lo as int, hi as int);
    if hi - lo <= 1 {
        let mut out: Vec<Sample> = Vec::new();
        if hi - lo == 1 {
            out.push(v[lo]);
        }
        proof {
            assert(out@ =~= part);
        }
        out
    } else {
        let mid: usize = lo + (hi - lo) / 2;
        let left = sort_range(v, lo, mid);
        let right = sort_range(v, mid, hi);
        let r = merge(&left, &right);
        proof {
            let pl = v@.subrange(lo as int, mid as int);
            let pr = v@.subrange(mid as int, hi as int);
            assert(part =~= pl + pr);
            lemma_multiset_commutative(pl, pr);
        }
        r
    }
}

/// Returns the samples of `v` in ascending order of time. Samples taken at
/// the same time keep the order in which they stand in `v`.
pub fn sort_by_time(v: &Vec<Sample>) -> (r: Vec<Sample>)
    ensures
        is_stable_sort_of(r@, v@),
        r@ == stable_sort(v@),
{
    let r = sort_range(v, 0, v.len());
    proof {
        assert(v@.subrange(0, v.len() as int) =~= v@);
        lemma_stable_sort_unique(r@, stable_sort(v@), v@);
    }
    r
}

/// The samples of `s` in ascending order of time, samples taken at the same
/// time in the order in which they stand in `s`.
pub open spec fn stable_sort(s: Seq<Sample>) -> Seq<Sample> {
    choose|r: Seq<Sample>| is_stable_sort_of(r, s)
}

/// `x` put into the ordered run `r` behind every sample that is no later.
spec fn insert_by_time(r: Seq<Sample>, x: Sample) -> Seq<Sample>
    decreases r.len(),
{
    if r.len() == 0 {
        seq![x]
    } else if r.last().timestamp.le(x.timestamp) {
        r.push(x)
    } else {
        insert_by_time(r.drop_last(), x).push(r.last())
    }
}

/// The samples of `s` inserted one after the other, in the order of `s`.
spec fn insertion_sorted(s: Seq<Sample>) -> Seq<Sample>
    decreases s.len(),
{
    if s.len() == 0 {
        s
    } else {
        insert_by_time(insertion_sorted(s.drop_last()), s.last())
    }
}

proof fn lemma_insert_by_time(r: Seq<Sample>, x: Sample)
    requires
        ordered(r),
    ensures
        ordered(insert_by_time(r, x)),
        insert_by_time(r, x).to_multiset() == r.to_multiset().insert(x),
        forall|k: int|
            0 <= k < insert_by_time(r, x).len() ==> (#[trigger] insert_by_time(r, x)[k] == x
                || r.contains(insert_by_time(r, x)[k])),
        forall|t: Timestamp| #[trigger]
            insert_by_time(r, x).filter(taken_at(t)) == if x.timestamp == t {
                r.filter(taken_at(t)).push(x)
            } else {
                r.filter(taken_at(t))
            },
    decreases r.len(),
{
    let out = insert_by_time(r, x);
    if r.len() == 0 {
        to_multiset_build(r, x);
        assert(out =~= r.push(x));
        assert forall|t: Timestamp| #[trigger]
            out.filter(taken_at(t)) == if x.timestamp == t {
                r.filter(taken_at(t)).push(x)
            } else {
                r.filter(taken_at(t))
            } by {
            r.lemma_filter_push(x, taken_at(t));
        }
    } else if r.last().timestamp.le(x.timestamp) {
        to_multiset_build(r, x);
        assert forall|i: int, j: int| 0 <= i <= j < out.len() implies out[i].timestamp.le(
            out[j].timestamp,
        ) by {
            if i < r.len() <= j {
                assert(r[i].timestamp.le(r.last().timestamp));
            }
        }
        assert forall|t: Timestamp| #[trigger]
            out.filter(taken_at(t)) == if x.timestamp == t {
                r.filter(taken_at(t)).push(x)
            } else {
                r.filter(taken_at(t))
            } by {
            r.lemma_filter_push(x, taken_at(t));
        }
    } else {
        let d = r.drop_last();
        let l = r.last();
        let inner = insert_by_time(d, x);
        assert(r =~= d.push(l));
        lemma_insert_by_time(d, x);
        to_multiset_build(inner, l);
        to_multiset_build(d, l);
        assert forall|t: Timestamp| #[trigger]
            out.filter(taken_at(t)) == if x.timestamp == t {
                r.filter(taken_at(t)).push(x)
            } else {
                r.filter(taken_at(t))
            } by {
            inner.lemma_filter_push(l, taken_at(t));
            d.lemma_filter_push(l, taken_at(t));
        }
    }
}

proof fn lemma_insertion_sorted(s: Seq<Sample>)
    ensures
        is_stable_sort_of(insertion_sorted(s), s),
    decreases s.len(),
{
    if s.len() > 0 {
        let d = s.drop_last();
        let x = s.last();
        lemma_insertion_sorted(d);
        lemma_insert_by_time(insertion_sorted(d), x);
        assert(s =~= d.push(x));
        to_multiset_build(d, x);
        assert forall|t: Timestamp| #[trigger]
            insertion_sorted(s).filter(taken_at(t)) == s.filter(taken_at(t)) by {
            d.lemma_filter_push(x, taken_at(t));
        }
    }
}

/// Every sequence of samples has a stable ordering, and `stable_sort` is one.
pub proof fn lemma_stable_sort_exists(s: Seq<Sample>)
    ensures
        is_stable_sort_of(stable_sort(s), s),
{
    lemma_insertion_sorted(s);
}

/// Two ordered runs that pick the same samples at every time are the same run.
proof fn lemma_ordered_runs_agree(r1: Seq<Sample>, r2: Seq<Sample>)
    requires
        ordered(r1),
        ordered(r2),
        forall|t: Timestamp| #[trigger] r1.filter(taken_at(t)) == r2.filter(taken_at(t)),
    ensures
        r1 == r2,
    decreases r1.len() + r2.len(),
{
    if r1.len() == 0 || r2.len() == 0 {
        if r1.len() > 0 {
            let t = r1.last().timestamp;
            r1.lemma_filter_contains(taken_at(t), r1.len() - 1);
            lemma_nothing_taken(r2, t);
        }
        if r2.len() > 0 {
            let t = r2.last().timestamp;
            r2.lemma_filter_contains(taken_at(t), r2.len() - 1);
            lemma_nothing_taken(r1, t);
        }
    } else {
        let x1 = r1.last();
        let x2 = r2.last();
        let t1 = x1.timestamp;
        let t2 = x2.timestamp;
        let d1 = r1.drop_last();
        let d2 = r2.drop_last();
        assert(r1 =~= d1.push(x1));
        assert(r2 =~= d2.push(x2));
        assert(t1.le(t2)) by {
            r1.lemma_filter_contains(taken_at(t1), r1.len() - 1);
            r2.lemma_filter_contains_rev(taken_at(t1), x1);
        }
        assert(t2.le(t1)) by {
            r2.lemma_filter_contains(taken_at(t2), r2.len() - 1);
            r1.lemma_filter_contains_rev(taken_at(t2), x2);
        }
        d1.lemma_filter_push(x1, taken_at(t1));
        d2.lemma_filter_push(x2, taken_at(t1));
        let f1 = d1.filter(taken_at(t1));
        let f2 = d2.filter(taken_at(t1));
        assert(x1 == x2) by {
            assert(f1.push(x1).last() == x1);
        }
        assert(f1 == f2) by {
            assert(f1.push(x1).drop_last() =~= f1);
        }
        assert forall|t: Timestamp| #[trigger]
            d1.filter(taken_at(t)) == d2.filter(taken_at(t)) by {
            d1.lemma_filter_push(x1, taken_at(t));
            d2.lemma_filter_push(x2, taken_at(t));
        }
        lemma_ordered_runs_agree(d1, d2);
    }
}

/// A sequence of samples has only one stable ordering.
pub proof fn lemma_stable_sort_unique(r1: Seq<Sample>, r2: Seq<Sample>, s: Seq<Sample>)
    requires
        is_stable_sort_of(r1, s),
    ensures
        r1 == stable_sort(s),
        is_stable_sort_of(r2, s) ==> r1 == r2,
{
    lemma_ordered_runs_agree(r1, stable_sort(s));
    if is_stable_sort_of(r2, s) {
        lemma_ordered_runs_agree(r2, stable_sort(s));
    }
}

} // verus!
