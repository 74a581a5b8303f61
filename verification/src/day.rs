//! One calendar day of samples, padded at its edges.
//!
//! The records of a day are put in order of time. The seconds before the
//! first record and after the last one are filled with zero-valued
//! placeholders; seconds that are missing between two records are left as
//! they are. A day without any record is filled from end to end.

use vstd::prelude::*;
use crate::sample::Sample;
use crate::sort::{is_stable_sort_of, lemma_stable_sort_exists, ordered, sort_by_time, stable_sort};
use crate::time::{day_representable, second_in_day, Timestamp};

verus! {

/// `count` placeholders on consecutive whole seconds, the first at second `from`.
pub open spec fn placeholders(from: int, count: int) -> Seq<Sample> {
    Seq::new(
        if count > 0 {
            count as nat
        } else {
            0
        },
        |k: int| Sample::placeholder(from + k),
    )
}

/// Number of placeholders in front of a day whose earliest record is `first`:
/// one for each whole second from midnight up to, and without, the second
/// that holds `first`.
pub open spec fn leading_count(first: Timestamp) -> int {
    first.second_of_day()
}

/// Number of placeholders behind a day whose latest record is `last`: the
/// whole seconds that are left from `last` to the following midnight. They
/// stand on the seconds after the one that holds `last`, so that the last of
/// them falls on the following midnight exactly when `last` is on a whole
/// second.
pub open spec fn trailing_count(last: Timestamp) -> int {
    86_400 - last.second_of_day() - if last.nanos > 0 {
        1int
    } else {
        0int
    }
}

/// The second, counted from the epoch, on which the first trailing
/// placeholder of day `day` stands when the day's latest record is `last`.
pub open spec fn trailing_start(day: int, last: Timestamp) -> int {
    day * 86_400 + last.second_of_day() + 1
}

/// The samples of day `day` once its records stand in the order `sorted`.
pub open spec fn padded_day(day: int, sorted: Seq<Sample>) -> Seq<Sample> {
    if sorted.len() == 0 {
        placeholders(day * 86_400, 86_400)
    } else {
        placeholders(day * 86_400, leading_count(sorted.first().timestamp)) + sorted
            + placeholders(
            trailing_start(day, sorted.last().timestamp),
            trailing_count(sorted.last().timestamp),
        )
    }
}

/// The full sample sequence of day `day` for the raw records `records`.
pub open spec fn day_sequence(day: int, records: Seq<Sample>) -> Seq<Sample> {
    padded_day(day, stable_sort(records))
}

/// Appends `count` placeholders of day `day` to `out`, the first of them
/// `from` seconds after the day's midnight.
fn push_placeholders(out: &mut Vec<Sample>, day: i64, from: u32, count: u32)
    requires
        day_representable(day as int),
        from + count <= 86_401,
    ensures
        final(out)@ == old(out)@ + placeholders(day * 86_400 + from, count as int),
{
    let mut k: u32 = 0;
    while k < count
        invariant
            k <= count,
            from + count <= 86_401,
            day_representable(day as int),
            out@ == old(out)@ + placeholders(day * 86_400 + from, k as int),
        decreases count - k,
    {
        let s = Sample::synthetic(second_in_day(day, from + k));
        out.push(s);
        k = k + 1;
    }
}

/// Builds the sample sequence of day `day` from its raw records.
///
/// The records are sorted by time, ties in their given order. Placeholders
/// fill the whole seconds from midnight up to the first record and those
/// after the last record; a day without records gets one placeholder for each
/// of its 86400 seconds. Records are never changed, dropped or added to in
/// between, whatever seconds are missing there.
pub fn assemble_day(day: i64, records: &Vec<Sample>) -> (r: Vec<Sample>)
    requires
        day_representable(day as int),
    ensures
        r@ == day_sequence(day as int, records@),
        records@.len() == 0 ==> r@ == placeholders(day * 86_400, 86_400),
        r@.len() > 0,
{
    let sorted = sort_by_time(records);
    let n: usize = sorted.len();
    let mut out: Vec<Sample> = Vec::new();
    proof {
        sorted@.to_multiset_ensures();
        records@.to_multiset_ensures();
    }
    if n == 0 {
        push_placeholders(&mut out, day, 0, 86_400);
    } else {
        let first = sorted[0].timestamp;
        let last = sorted[n - 1].timestamp;
        let lead: u32 = first.seconds_since_midnight();
        let offset: u32 = last.seconds_since_midnight();
        let trail: u32 = if last.nanos > 0 {
            86_400 - offset - 1
        } else {
            86_400 - offset
        };
        push_placeholders(&mut out, day, 0, lead);
        let ghost head = out@;
        let mut i: usize = 0;
        while i < n
            invariant
                i <= n,
                n == sorted.len(),
                out@ == head + sorted@.take(i as int),
            decreases n - i,
        {
            out.push(sorted[i]);
            i = i + 1;
        }
        push_placeholders(&mut out, day, offset + 1, trail);
    }
    out
}

/// A day without records is filled from end to end: it has exactly 86400
/// samples, the `k`-th of them at `k` seconds past the day's midnight, each
/// with zero irradiance.
pub proof fn lemma_empty_day_is_filled(day: int)
    requires
        day_representable(day),
    ensures
        day_sequence(day, Seq::<Sample>::empty()).len() == 86_400,
        forall|k: int|
            0 <= k < 86_400 ==> {
                let s = #[trigger] day_sequence(day, Seq::<Sample>::empty())[k];
                &&& s.irradiance_bits == 0
                &&& s.timestamp.nanos == 0
                &&& s.timestamp.secs == day * 86_400 + k
                &&& s.timestamp.day() == day
                &&& s.timestamp.second_of_day() == k
            },
{
    let e = Seq::<Sample>::empty();
    lemma_stable_sort_exists(e);
    stable_sort(e).to_multiset_ensures();
    e.to_multiset_ensures();
}

/// Only the edges of a day with records are padded. The day's sequence is
/// made of three parts and nothing else: a placeholder for each whole second
/// from midnight up to the second that holds the earliest record, then the
/// records themselves in stable order of time, then a placeholder for each
/// whole second after the one that holds the latest record.
pub proof fn lemma_edges_only(day: int, records: Seq<Sample>)
    requires
        day_representable(day),
        records.len() > 0,
    ensures
        ({
            let seq = day_sequence(day, records);
            let sorted = stable_sort(records);
            let lead = leading_count(sorted.first().timestamp);
            let trail = trailing_count(sorted.last().timestamp);
            let n = records.len() as int;
            &&& is_stable_sort_of(sorted, records)
            &&& sorted.len() == n
            &&& 0 <= lead < 86_400
            &&& 0 <= trail <= 86_400
            &&& seq.len() == lead + n + trail
            &&& forall|k: int| 0 <= k < lead ==> #[trigger] seq[k] == Sample::placeholder(day * 86_400 + k)
            &&& seq.subrange(lead, lead + n) == sorted
            &&& forall|k: int|
                0 <= k < trail ==> #[trigger] seq[lead + n + k] == Sample::placeholder(
                    trailing_start(day, sorted.last().timestamp) + k,
                )
            &&& forall|i: int|
                0 <= i < n ==> sorted.first().timestamp.le(#[trigger] records[i].timestamp)
                    && records[i].timestamp.le(sorted.last().timestamp)
        }),
{
    let seq = day_sequence(day, records);
    let sorted = stable_sort(records);
    let lead = leading_count(sorted.first().timestamp);
    let n = records.len() as int;
    lemma_stable_sort_exists(records);
    sorted.to_multiset_ensures();
    records.to_multiset_ensures();
    assert(seq.subrange(lead, lead + n) =~= sorted);
    assert forall|i: int| 0 <= i < n implies sorted.first().timestamp.le(
        #[trigger] records[i].timestamp,
    ) && records[i].timestamp.le(sorted.last().timestamp) by {
        assert(records.contains(records[i]));
        assert(sorted.to_multiset().count(records[i]) > 0);
        assert(sorted.contains(records[i]));
        let w = choose|w: int| 0 <= w < sorted.len() && sorted[w] == records[i];
        assert(sorted[0].timestamp.le(sorted[w].timestamp));
        assert(sorted[w].timestamp.le(sorted[sorted.len() - 1].timestamp));
    }
}

/// Every record of `records` was taken on day `day`.
pub open spec fn within_day(day: int, records: Seq<Sample>) -> bool {
    forall|i: int| 0 <= i < records.len() ==> (#[trigger] records[i]).timestamp.day() == day
}

/// `t` lies on day `day`, or is the midnight that closes it.
pub open spec fn in_day_span(day: int, t: Timestamp) -> bool {
    day * 86_400 <= t.secs && (t.secs < (day + 1) * 86_400 || (t.secs == (day + 1) * 86_400
        && t.nanos == 0))
}

/// Where every record of a day was taken on that day, the day's sequence is
/// in order of time from end to end, and none of its samples is earlier than
/// the day's midnight or later than the midnight that follows.
pub proof fn lemma_day_is_ordered(day: int, records: Seq<Sample>)
    requires
        day_representable(day),
        within_day(day, records),
    ensures
        ordered(day_sequence(day, records)),
        day_sequence(day, records).len() > 0,
        forall|i: int|
            0 <= i < day_sequence(day, records).len() ==> in_day_span(
                day,
                (#[trigger] day_sequence(day, records)[i]).timestamp,
            ),
{
    let seq = day_sequence(day, records);
    let sorted = stable_sort(records);
    lemma_stable_sort_exists(records);
    sorted.to_multiset_ensures();
    records.to_multiset_ensures();
    if records.len() > 0 {
        let n = sorted.len() as int;
        let first = sorted.first().timestamp;
        let last = sorted.last().timestamp;
        let lead = leading_count(first);
        assert forall|w: int| 0 <= w < n implies (#[trigger] sorted[w]).timestamp.day() == day by {
            assert(records.to_multiset().count(sorted[w]) > 0);
        }
        assert(first.le(last));
        assert forall|i: int, j: int| 0 <= i <= j < seq.len() implies seq[i].timestamp.le(
            seq[j].timestamp,
        ) by {
            if lead <= i < lead + n {
                assert(sorted[i - lead].timestamp.le(last));
            }
            if lead <= j < lead + n {
                assert(first.le(sorted[j - lead].timestamp));
            }
        }
    }
}

} // verus!
