//! Joining padded days into the series of a requested window.
//!
//! A [`SeriesAssembler`] is fed the records of one day after the other,
//! starting at the day that holds the window's start. It decides which day
//! is wanted next and when the series is complete; getting hold of a day's
//! records is left to its caller.

use vstd::prelude::*;
use crate::day::{
    assemble_day, day_sequence, in_day_span, lemma_day_is_ordered, lemma_empty_day_is_filled,
    placeholders, within_day,
};
use crate::sample::Sample;
use crate::sort::ordered;
use crate::time::{day_representable, is_day_representable, Timestamp};

verus! {

/// Nanoseconds in one calendar day.
pub const NANOS_PER_DAY: u64 = 86_400_000_000_000;

/// Nanoseconds in one second.
pub const NANOS_PER_SECOND: u64 = 1_000_000_000;

/// The window of a request: where it starts and how long it spans.
///
/// The span is a count of days that may have a fraction. It is held as its
/// whole days and the fraction of a day in nanoseconds, which is as fine as
/// a timestamp can tell two instants apart.
#[derive(Clone, Copy, Debug, PartialEq, Eq, Structural)]
pub struct RequestWindow {
    pub start: Timestamp,
    pub span_days: u32,
    pub fraction_nanos: u64,
}

impl RequestWindow {
    /// Whether the fraction is less than one day.
    pub open spec fn wf(self) -> bool {
        self.fraction_nanos < NANOS_PER_DAY
    }

    /// The number of days that are visited at most: the span rounded up to
    /// whole days, and one day where that is none.
    pub open spec fn day_limit(self) -> int {
        let whole = self.span_days + if self.fraction_nanos > 0 {
            1int
        } else {
            0int
        };
        if whole < 1 {
            1
        } else {
            whole
        }
    }

    /// The span in nanoseconds.
    pub open spec fn span_nanos(self) -> int {
        self.span_days * NANOS_PER_DAY + self.fraction_nanos
    }

    /// The day on which the assembly begins.
    pub open spec fn first_day(self) -> int {
        self.start.day()
    }

    /// Whether every day that the window may visit can be held in timestamps.
    pub open spec fn fits(self) -> bool {
        day_representable(self.first_day()) && day_representable(
            self.first_day() + self.day_limit() - 1,
        )
    }

    /// The window that starts at `start` and spans `span_days` whole days
    /// and `fraction_nanos` nanoseconds more; `None` where the fraction is a
    /// day or longer.
    pub fn new(start: Timestamp, span_days: u32, fraction_nanos: u64) -> (r: Option<RequestWindow>)
        ensures
            r == if fraction_nanos < NANOS_PER_DAY {
                Some(RequestWindow { start, span_days, fraction_nanos })
            } else {
                None
            },
    {
        if fraction_nanos < NANOS_PER_DAY {
            Some(RequestWindow { start, span_days, fraction_nanos })
        } else {
            None
        }
    }

    /// Tests whether the fraction is less than one day.
    pub fn is_wf(&self) -> (r: bool)
        ensures
            r == self.wf(),
    {
        self.fraction_nanos < NANOS_PER_DAY
    }

    /// The number of days that are visited at most.
    pub fn max_days(&self) -> (n: u64)
        ensures
            n == self.day_limit(),
    {
        let whole: u64 = self.span_days as u64 + if self.fraction_nanos > 0 {
            1u64
        } else {
            0u64
        };
        if whole < 1 {
            1
        } else {
            whole
        }
    }
}

/// The last instant that a series may reach.
#[derive(Clone, Copy, Debug, PartialEq, Eq, Structural)]
pub struct Deadline {
    pub secs: i128,
    pub nanos: u32,
}

impl Deadline {
    /// Whether a sample taken at `t` is no later than this deadline.
    pub open spec fn admits(self, t: Timestamp) -> bool {
        t.secs < self.secs || (t.secs == self.secs && t.nanos <= self.nanos)
    }

    /// The instant `nanos` nanoseconds after the whole second `secs`, with
    /// the full seconds among `nanos` carried over.
    pub open spec fn at(secs: int, nanos: int) -> Deadline {
        Deadline {
            secs: (secs + nanos / 1_000_000_000) as i128,
            nanos: (nanos % 1_000_000_000) as u32,
        }
    }

    /// The deadline of `window` when the first sample of its series is taken
    /// at `first`: the span of the window after `first`.
    pub open spec fn after(first: Timestamp, window: RequestWindow) -> Deadline {
        Deadline::at(first.secs + window.span_days * 86_400, first.nanos + window.fraction_nanos)
    }

    /// Computes the deadline of `window` for a series that begins at `first`.
    pub fn compute(first: Timestamp, window: &RequestWindow) -> (d: Deadline)
        ensures
            d == Deadline::after(first, *window),
    {
        let nanos: u128 = first.nanos as u128 + window.fraction_nanos as u128;
        let carry: u128 = nanos / 1_000_000_000;
        let rest: u128 = nanos % 1_000_000_000;
        Deadline {
            secs: first.secs as i128 + window.span_days as i128 * 86_400 + carry as i128,
            nanos: rest as u32,
        }
    }

    /// Tests whether a sample taken at `t` is no later than this deadline.
    pub fn is_admitted(&self, t: &Timestamp) -> (r: bool)
        ensures
            r == self.admits(*t),
    {
        let secs: i128 = t.secs as i128;
        secs < self.secs || (secs == self.secs && t.nanos <= self.nanos)
    }
}

/// The predicate that picks the samples that `deadline` admits.
pub open spec fn within(deadline: Deadline) -> spec_fn(Sample) -> bool {
    |s: Sample| deadline.admits(s.timestamp)
}

/// Whether some sample of `seq` is later than `deadline`.
pub open spec fn overruns(seq: Seq<Sample>, deadline: Deadline) -> bool {
    exists|i: int| 0 <= i < seq.len() && !deadline.admits(#[trigger] seq[i].timestamp)
}

/// How far an assembly has come.
pub struct Progress {
    /// Days absorbed so far.
    pub days_done: int,
    /// The deadline, known once the first day is absorbed.
    pub deadline: Option<Deadline>,
    /// The series so far.
    pub series: Seq<Sample>,
    /// Whether the series is complete.
    pub finished: bool,
}

/// The progress of an assembly that has absorbed nothing yet.
pub open spec fn initial_progress() -> Progress {
    Progress { days_done: 0, deadline: None, series: Seq::empty(), finished: false }
}

/// The progress after the day that follows those absorbed so far has come
/// with the raw records `records`.
///
/// The day is padded at its edges. The first day fixes the deadline: the
/// window's span after the day's first sample. The samples of the day that
/// the deadline admits are added to the series. The series is complete when
/// a sample of the day was left out, or when the window's days are used up.
/// A complete series absorbs nothing more.
pub open spec fn absorb_day(window: RequestWindow, p: Progress, records: Seq<Sample>) -> Progress {
    if p.finished {
        p
    } else {
        let seq = day_sequence(window.first_day() + p.days_done, records);
        let deadline = match p.deadline {
            Some(d) => d,
            None => Deadline::after(seq.first().timestamp, window),
        };
        Progress {
            days_done: p.days_done + 1,
            deadline: Some(deadline),
            series: p.series + seq.filter(within(deadline)),
            finished: overruns(seq, deadline) || p.days_done + 1 >= window.day_limit(),
        }
    }
}

/// The progress after the days `days` have come one after the other, the
/// first of them being the day that holds the window's start.
pub open spec fn run(window: RequestWindow, days: Seq<Seq<Sample>>) -> Progress
    decreases days.len(),
{
    if days.len() == 0 {
        initial_progress()
    } else {
        absorb_day(window, run(window, days.drop_last()), days.last())
    }
}

/// Why a series could not be assembled.
#[derive(Clone, Copy, Debug, PartialEq, Eq, Structural)]
pub enum AssembleError {
    /// The fraction of the window's span is a day or longer.
    InvalidSpan,
    /// A day of the window lies beyond what a timestamp can hold.
    OutOfRange,
    /// The records ended before the series was complete; the day named is
    /// the first one that was missing.
    MissingDay(i64),
}

/// The state of one assembly.
pub struct SeriesAssembler {
    window: RequestWindow,
    first_day: i64,
    limit: u64,
    days_done: u64,
    deadline: Option<Deadline>,
    series: Vec<Sample>,
    finished: bool,
}

impl View for SeriesAssembler {
    type V = Progress;

    closed spec fn view(&self) -> Progress {
        Progress {
            days_done: self.days_done as int,
            deadline: self.deadline,
            series: self.series@,
            finished: self.finished,
        }
    }
}

impl SeriesAssembler {
    /// The window that is assembled.
    pub closed spec fn window(&self) -> RequestWindow {
        self.window
    }

    /// What holds of every assembler: its window fits, and while the series
    /// is not complete a day of the window is still to come.
    #[verifier::type_invariant]
    spec fn wf(&self) -> bool {
        &&& self.window.wf()
        &&& self.window.fits()
        &&& self.first_day == self.window.first_day()
        &&& self.limit == self.window.day_limit()
        &&& self.days_done <= self.limit
        &&& !self.finished ==> self.days_done < self.limit
    }

    /// Begins the assembly of `window`. It fails where the fraction of the
    /// span is a day or longer, and where a day of the window cannot be held
    /// in timestamps, and only there.
    pub fn new(window: RequestWindow) -> (r: Result<SeriesAssembler, AssembleError>)
        ensures
            r is Ok <==> window.wf() && window.fits(),
            r matches Ok(a) ==> a.window() == window && a@ == initial_progress(),
            r matches Err(e) ==> e == if !window.wf() {
                AssembleError::InvalidSpan
            } else {
                AssembleError::OutOfRange
            },
    {
        if !window.is_wf() {
            return Err(AssembleError::InvalidSpan);
        }
        let first_day: i64 = window.start.day_index();
        let limit: u64 = window.max_days();
        if !is_day_representable(first_day) {
            return Err(AssembleError::OutOfRange);
        }
        let last_day: i64 = first_day + (limit - 1) as i64;
        if !is_day_representable(last_day) {
            return Err(AssembleError::OutOfRange);
        }
        Ok(
            SeriesAssembler {
                window,
                first_day,
                limit,
                days_done: 0,
                deadline: None,
                series: Vec::new(),
                finished: false,
            },
        )
    }

    /// Whether the series is complete.
    pub fn is_finished(&self) -> (r: bool)
        ensures
            r == self@.finished,
    {
        self.finished
    }

    /// The number of days absorbed so far.
    pub fn days_absorbed(&self) -> (n: u64)
        ensures
            n == self@.days_done,
    {
        self.days_done
    }

    /// The day whose records are wanted next, or `None` when the series is
    /// complete.
    pub fn pending_day(&self) -> (r: Option<i64>)
        ensures
            r is None <==> self@.finished,
            r matches Some(d) ==> d == self.window().first_day() + self@.days_done
                && day_representable(d as int),
    {
        proof {
            use_type_invariant(self);
        }
        if self.finished {
            None
        } else {
            Some(self.first_day + self.days_done as i64)
        }
    }

    /// Takes the raw records of the pending day into the series.
    pub fn absorb(self, records: &Vec<Sample>) -> (next: SeriesAssembler)
        ensures
            next.window() == self.window(),
            next@ == absorb_day(self.window(), self@, records@),
    {
        proof {
            use_type_invariant(&self);
        }
        if self.finished {
            return self;
        }
        let day: i64 = self.first_day + self.days_done as i64;
        let seq = assemble_day(day, records);
        let deadline = match self.deadline {
            Some(d) => d,
            None => Deadline::compute(seq[0].timestamp, &self.window),
        };
        let ghost before = self.series@;
        let SeriesAssembler { window, first_day, limit, days_done, deadline: _, series, finished: _ } =
            self;
        let mut series = series;
        let mut cut = false;
        let mut i: usize = 0;
        while i < seq.len()
            invariant
                i <= seq.len(),
                series@ == before + seq@.take(i as int).filter(within(deadline)),
                cut == overruns(seq@.take(i as int), deadline),
            decreases seq.len() - i,
        {
            let s = seq[i];
            proof {
                seq@.take(i as int).lemma_filter_push(s, within(deadline));
                assert(seq@.take(i as int).push(s) =~= seq@.take(i + 1));
                if !deadline.admits(s.timestamp) {
                    assert(!deadline.admits(seq@.take(i + 1)[i as int].timestamp));
                }
            }
            if deadline.is_admitted(&s.timestamp) {
                series.push(s);
            } else {
                cut = true;
            }
            i = i + 1;
        }
        proof {
            assert(seq@.take(seq.len() as int) =~= seq@);
        }
        SeriesAssembler {
            window,
            first_day,
            limit,
            days_done: days_done + 1,
            deadline: Some(deadline),
            series,
            finished: cut || days_done + 1 >= limit,
        }
    }

    /// The series assembled so far.
    pub fn series(&self) -> (r: &Vec<Sample>)
        ensures
            r@ == self@.series,
    {
        &self.series
    }

    /// Gives up the assembler for its series.
    pub fn into_series(self) -> (r: Vec<Sample>)
        ensures
            r@ == self@.series,
    {
        self.series
    }
}

/// The record sets of the days `days`, each as a sequence.
pub open spec fn day_sets(days: Seq<Vec<Sample>>) -> Seq<Seq<Sample>> {
    days.map_values(|v: Vec<Sample>| v@)
}

/// The times of the samples of `series`, in their order.
pub open spec fn times_of(series: Seq<Sample>) -> Seq<Timestamp> {
    series.map_values(|s: Sample| s.timestamp)
}

/// The irradiance patterns of the samples of `series`, in their order.
pub open spec fn values_of(series: Seq<Sample>) -> Seq<u64> {
    series.map_values(|s: Sample| s.irradiance_bits)
}

/// Splits a series into its times and its irradiance patterns.
pub fn split_series(series: &Vec<Sample>) -> (r: (Vec<Timestamp>, Vec<u64>))
    ensures
        r.0@ == times_of(series@),
        r.1@ == values_of(series@),
{
    let mut times: Vec<Timestamp> = Vec::new();
    let mut values: Vec<u64> = Vec::new();
    let mut i: usize = 0;
    while i < series.len()
        invariant
            i <= series.len(),
            times@ == times_of(series@.take(i as int)),
            values@ == values_of(series@.take(i as int)),
        decreases series.len() - i,
    {
        times.push(series[i].timestamp);
        values.push(series[i].irradiance_bits);
        i = i + 1;
    }
    (times, values)
}

/// Assembles the series of `window` from the raw records of its days, given
/// in `days` from the day that holds the window's start onwards.
///
/// The days are absorbed one after the other until the series is complete;
/// record sets beyond that are not looked at. The result is the series as a
/// pair of equally long vectors, times and irradiance patterns. The call
/// fails where the fraction of the span is a day or longer, where the
/// window does not fit the range of timestamps, and where `days` ends before
/// the series is complete.
pub fn load_q_and_dt_for_period(window: &RequestWindow, days: &Vec<Vec<Sample>>) -> (r: Result<
    (Vec<Timestamp>, Vec<u64>),
    AssembleError,
>)
    ensures
        r is Ok <==> window.wf() && window.fits() && run(*window, day_sets(days@)).finished,
        r matches Ok(pair) ==> pair.0@ == times_of(run(*window, day_sets(days@)).series)
            && pair.1@ == values_of(run(*window, day_sets(days@)).series),
        r matches Err(e) ==> e == if !window.wf() {
            AssembleError::InvalidSpan
        } else if !window.fits() {
            AssembleError::OutOfRange
        } else {
            AssembleError::MissingDay(
                (window.first_day() + run(*window, day_sets(days@)).days_done) as i64,
            )
        },
{
    let mut assembler = match SeriesAssembler::new(*window) {
        Ok(a) => a,
        Err(e) => {
            return Err(e);
        },
    };
    let mut i: usize = 0;
    while i < days.len()
        invariant
            i <= days.len(),
            assembler.window() == *window,
            assembler@ == run(*window, day_sets(days@).take(i as int)),
        decreases days.len() - i,
    {
        assembler = assembler.absorb(&days[i]);
        proof {
            let sets = day_sets(days@);
            assert(sets.take(i + 1).drop_last() =~= sets.take(i as int));
        }
        i = i + 1;
    }
    proof {
        assert(day_sets(days@).take(days.len() as int) =~= day_sets(days@));
    }
    match assembler.pending_day() {
        Some(day) => Err(AssembleError::MissingDay(day)),
        None => Ok(split_series(assembler.series())),
    }
}

/// The deadline, once set, stays, and every sample of the series is no later
/// than it.
pub proof fn lemma_series_within_deadline(window: RequestWindow, days: Seq<Seq<Sample>>)
    ensures
        days.len() > 0 <==> run(window, days).deadline is Some,
        days.len() > 0 ==> run(window, days).deadline == run(window, days.take(1)).deadline,
        forall|i: int|
            0 <= i < run(window, days).series.len() ==> run(window, days).deadline.unwrap().admits(
                #[trigger] run(window, days).series[i].timestamp,
            ),
    decreases days.len(),
{
    if days.len() > 0 {
        let prev = run(window, days.drop_last());
        let now = run(window, days);
        lemma_series_within_deadline(window, days.drop_last());
        if days.len() == 1 {
            assert(days.take(1) =~= days);
        } else {
            assert(days.drop_last().take(1) =~= days.take(1));
        }
        if !prev.finished {
            let seq = day_sequence(window.first_day() + prev.days_done, days.last());
            let d = now.deadline.unwrap();
            let kept = seq.filter(within(d));
            assert forall|i: int| 0 <= i < now.series.len() implies d.admits(
                #[trigger] now.series[i].timestamp,
            ) by {
                if i >= prev.series.len() {
                    seq.lemma_filter_pred(within(d), i - prev.series.len());
                    assert(now.series[i] == kept[i - prev.series.len()]);
                } else {
                    assert(now.series[i] == prev.series[i]);
                }
            }
        }
    }
}

/// No more days are absorbed than were given or than the window allows, and
/// the series is complete once the window's days are used up. While it is
/// not complete, every day given has been absorbed.
pub proof fn lemma_days_absorbed(window: RequestWindow, days: Seq<Seq<Sample>>)
    ensures
        0 <= run(window, days).days_done <= days.len(),
        run(window, days).days_done <= window.day_limit(),
        run(window, days).days_done == window.day_limit() ==> run(window, days).finished,
        !run(window, days).finished ==> run(window, days).days_done == days.len(),
        days.len() > 0 ==> run(window, days).days_done >= 1,
    decreases days.len(),
{
    if days.len() > 0 {
        lemma_days_absorbed(window, days.drop_last());
    }
}

/// The records of each day of `days` were taken on that day.
pub open spec fn days_in_place(window: RequestWindow, days: Seq<Seq<Sample>>) -> bool {
    forall|j: int| 0 <= j < days.len() ==> within_day(window.first_day() + j, #[trigger] days[j])
}

/// The padded sequences of the first `n` days of `days`, joined.
pub open spec fn joined_days(window: RequestWindow, days: Seq<Seq<Sample>>, n: int) -> Seq<Sample>
    decreases n,
{
    if n <= 0 {
        Seq::empty()
    } else {
        joined_days(window, days, n - 1) + day_sequence(window.first_day() + n - 1, days[n - 1])
    }
}

/// What is picked from an ordered run is an ordered run, and each of its
/// members is a member of the run.
proof fn lemma_filter_keeps_order(s: Seq<Sample>, p: spec_fn(Sample) -> bool)
    requires
        ordered(s),
    ensures
        ordered(s.filter(p)),
        forall|k: int| 0 <= k < s.filter(p).len() ==> s.contains(#[trigger] s.filter(p)[k]),
    decreases s.len(),
{
    let f = s.filter(p);
    assert forall|k: int| 0 <= k < f.len() implies s.contains(#[trigger] f[k]) by {
        assert(f.contains(f[k]));
        s.lemma_filter_contains_rev(p, f[k]);
    }
    if s.len() > 0 {
        let d = s.drop_last();
        let l = s.last();
        assert(s =~= d.push(l));
        assert(ordered(d)) by {
            assert forall|i: int, j: int| 0 <= i <= j < d.len() implies d[i].timestamp.le(
                d[j].timestamp,
            ) by {
                assert(s[i].timestamp.le(s[j].timestamp));
            }
        }
        lemma_filter_keeps_order(d, p);
        d.lemma_filter_push(l, p);
        let g = d.filter(p);
        assert forall|i: int, j: int| 0 <= i <= j < f.len() implies f[i].timestamp.le(
            f[j].timestamp,
        ) by {
            if j < g.len() {
                assert(g[i].timestamp.le(g[j].timestamp));
            } else if i < g.len() {
                assert(d.contains(g[i]));
                let w = choose|w: int| 0 <= w < d.len() && d[w] == g[i];
                assert(s[w].timestamp.le(s[s.len() - 1].timestamp));
            }
        }
    }
}

/// Where the first member of a run is picked, it is the first one picked.
proof fn lemma_filter_first(s: Seq<Sample>, p: spec_fn(Sample) -> bool)
    requires
        s.len() > 0,
        p(s[0]),
    ensures
        s.filter(p).len() > 0,
        s.filter(p)[0] == s[0],
    decreases s.len(),
{
    let d = s.drop_last();
    let l = s.last();
    assert(s =~= d.push(l));
    d.lemma_filter_push(l, p);
    if d.len() == 0 {
        d.lemma_filter_len(p);
    } else {
        lemma_filter_first(d, p);
    }
}

/// Where every member of a run is picked, the run is picked whole.
proof fn lemma_filter_all(s: Seq<Sample>, p: spec_fn(Sample) -> bool)
    requires
        forall|i: int| 0 <= i < s.len() ==> p(#[trigger] s[i]),
    ensures
        s.filter(p) == s,
    decreases s.len(),
{
    if s.len() == 0 {
        s.lemma_filter_len(p);
        assert(s.filter(p) =~= s);
    } else {
        let d = s.drop_last();
        let l = s.last();
        assert(s =~= d.push(l));
        assert forall|i: int| 0 <= i < d.len() implies p(#[trigger] d[i]) by {
            assert(d[i] == s[i]);
        }
        lemma_filter_all(d, p);
        d.lemma_filter_push(l, p);
    }
}

/// Where the records of each day were taken on that day, the series is in
/// order of time from end to end. None of its samples is earlier than the
/// midnight that opens the first day or later than the midnight that closes
/// the last day absorbed. Once a day is absorbed the series is not empty,
/// and it begins with the first sample of the first day.
pub proof fn lemma_series_is_ordered(window: RequestWindow, days: Seq<Seq<Sample>>)
    requires
        window.fits(),
        days_in_place(window, days),
    ensures
        ordered(run(window, days).series),
        forall|i: int|
            0 <= i < run(window, days).series.len() ==> {
                let t = (#[trigger] run(window, days).series[i]).timestamp;
                &&& window.first_day() * 86_400 <= t.secs
                &&& t.secs < (window.first_day() + run(window, days).days_done) * 86_400 || (
                t.secs == (window.first_day() + run(window, days).days_done) * 86_400 && t.nanos
                    == 0)
            },
        days.len() > 0 ==> run(window, days).series.len() > 0 && run(window, days).series[0]
            == day_sequence(window.first_day(), days[0])[0],
    decreases days.len(),
{
    if days.len() > 0 {
        let rest = days.drop_last();
        let prev = run(window, rest);
        let now = run(window, days);
        assert(days_in_place(window, rest)) by {
            assert forall|j: int| 0 <= j < rest.len() implies within_day(
                window.first_day() + j,
                #[trigger] rest[j],
            ) by {
                assert(rest[j] == days[j]);
            }
        }
        lemma_series_is_ordered(window, rest);
        lemma_days_absorbed(window, rest);
        lemma_series_within_deadline(window, rest);
        if rest.len() > 0 {
            assert(rest[0] == days[0]);
        }
        if !prev.finished {
            let day = window.first_day() + prev.days_done;
            assert(prev.days_done == days.len() - 1);
            assert(within_day(day, days[days.len() - 1]));
            let seq = day_sequence(day, days.last());
            lemma_day_is_ordered(day, days.last());
            let d = now.deadline.unwrap();
            let kept = seq.filter(within(d));
            lemma_filter_keeps_order(seq, within(d));
            assert(now.series == prev.series + kept);
            assert forall|k: int| 0 <= k < kept.len() implies in_day_span(
                day,
                (#[trigger] kept[k]).timestamp,
            ) by {
                assert(seq.contains(kept[k]));
                let w = choose|w: int| 0 <= w < seq.len() && seq[w] == kept[k];
                assert(in_day_span(day, seq[w].timestamp));
            }
            assert forall|i: int, j: int| 0 <= i <= j < now.series.len() implies now.series[i].timestamp.le(
            now.series[j].timestamp) by {
                let a = now.series[i].timestamp;
                let b = now.series[j].timestamp;
                if j < prev.series.len() {
                    assert(prev.series[i].timestamp.le(prev.series[j].timestamp));
                } else if i < prev.series.len() {
                    assert(now.series[i] == prev.series[i]);
                    assert(now.series[j] == kept[j - prev.series.len()]);
                    assert(in_day_span(day, kept[j - prev.series.len()].timestamp));
                    assert(a.le(b));
                } else {
                    assert(kept[i - prev.series.len()].timestamp.le(
                        kept[j - prev.series.len()].timestamp,
                    ));
                }
            }
            assert forall|i: int| 0 <= i < now.series.len() implies {
                let t = (#[trigger] now.series[i]).timestamp;
                &&& window.first_day() * 86_400 <= t.secs
                &&& t.secs < (window.first_day() + now.days_done) * 86_400 || (t.secs == (
                window.first_day() + now.days_done) * 86_400 && t.nanos == 0)
            } by {
                if i < prev.series.len() {
                    assert(now.series[i] == prev.series[i]);
                } else {
                    assert(now.series[i] == kept[i - prev.series.len()]);
                    assert(in_day_span(day, kept[i - prev.series.len()].timestamp));
                }
            }
            if days.len() == 1 {
                assert(prev.series.len() == 0);
                assert(d == Deadline::after(seq[0].timestamp, window));
                assert(within(d)(seq[0]));
                lemma_filter_first(seq, within(d));
                assert(now.series[0] == kept[0]);
            } else {
                assert(now.series[0] == prev.series[0]);
            }
        }
    }
}

/// A span of whole days, one at least, cuts nothing where the records of
/// each day were taken on that day: the series is the padded sequences of
/// the days absorbed, joined, and it is complete exactly when as many days
/// as the span counts have come.
pub proof fn lemma_whole_days_are_kept(window: RequestWindow, days: Seq<Seq<Sample>>)
    requires
        window.fits(),
        window.span_days >= 1,
        window.fraction_nanos == 0,
        days_in_place(window, days),
    ensures
        run(window, days).days_done == if days.len() <= window.span_days {
            days.len() as int
        } else {
            window.span_days as int
        },
        run(window, days).finished <==> days.len() >= window.span_days,
        run(window, days).series == joined_days(window, days, run(window, days).days_done),
    decreases days.len(),
{
    if days.len() > 0 {
        let rest = days.drop_last();
        let prev = run(window, rest);
        assert(days_in_place(window, rest)) by {
            assert forall|j: int| 0 <= j < rest.len() implies within_day(
                window.first_day() + j,
                #[trigger] rest[j],
            ) by {
                assert(rest[j] == days[j]);
            }
        }
        lemma_whole_days_are_kept(window, rest);
        lemma_joined_days_prefix(window, days, prev.days_done);
        if !prev.finished {
            assert(within_day(window.first_day() + prev.days_done, days[days.len() - 1]));
            assert(within_day(window.first_day(), days[0]));
            lemma_first_day_sets_deadline(window, days);
            lemma_day_is_kept_whole(window, prev, days.last(), days[0]);
        }
    }
}

/// One step of `lemma_whole_days_are_kept`: a day within the span is taken
/// into the series whole.
proof fn lemma_day_is_kept_whole(
    window: RequestWindow,
    p: Progress,
    records: Seq<Sample>,
    opening: Seq<Sample>,
)
    requires
        window.fits(),
        window.fraction_nanos == 0,
        !p.finished,
        0 <= p.days_done < window.span_days,
        within_day(window.first_day() + p.days_done, records),
        within_day(window.first_day(), opening),
        absorb_day(window, p, records).deadline == Some(
            Deadline::after(day_sequence(window.first_day(), opening)[0].timestamp, window),
        ),
    ensures
        absorb_day(window, p, records).series == p.series + day_sequence(
            window.first_day() + p.days_done,
            records,
        ),
        absorb_day(window, p, records).finished <==> p.days_done + 1 >= window.span_days,
{
    let day = window.first_day() + p.days_done;
    let seq = day_sequence(day, records);
    let first = day_sequence(window.first_day(), opening)[0].timestamp;
    let d = Deadline::after(first, window);
    lemma_day_is_ordered(day, records);
    lemma_day_is_ordered(window.first_day(), opening);
    assert(in_day_span(window.first_day(), first));
    lemma_span_admits_day(window, first, day, seq);
    lemma_filter_all(seq, within(d));
}

/// The deadline of a series is the window's span after the first sample of
/// its first day.
pub proof fn lemma_first_day_sets_deadline(window: RequestWindow, days: Seq<Seq<Sample>>)
    requires
        days.len() > 0,
    ensures
        run(window, days).deadline == Some(
            Deadline::after(day_sequence(window.first_day(), days[0])[0].timestamp, window),
        ),
{
    lemma_series_within_deadline(window, days);
    let one = days.take(1);
    assert(run(window, one.drop_last()) == initial_progress());
}

/// A deadline of whole days after a sample of the first day admits every
/// sample of the days that the span counts.
proof fn lemma_span_admits_day(window: RequestWindow, first: Timestamp, day: int, seq: Seq<Sample>)
    requires
        window.fraction_nanos == 0,
        in_day_span(window.first_day(), first),
        window.first_day() <= day < window.first_day() + window.span_days,
        forall|i: int| 0 <= i < seq.len() ==> in_day_span(day, (#[trigger] seq[i]).timestamp),
        day_representable(window.first_day()),
    ensures
        forall|i: int| 0 <= i < seq.len() ==> within(Deadline::after(first, window))(#[trigger] seq[i]),
        !overruns(seq, Deadline::after(first, window)),
{
    let d = Deadline::after(first, window);
    assert(d.secs == first.secs + window.span_days * 86_400 + first.nanos as int / 1_000_000_000);
    assert(d.nanos == first.nanos as int % 1_000_000_000);
    assert forall|i: int| 0 <= i < seq.len() implies d.admits((#[trigger] seq[i]).timestamp) by {
        let t = seq[i].timestamp;
        assert(in_day_span(day, t));
        assert(t.secs <= (day + 1) * 86_400);
        assert((day + 1) * 86_400 <= (window.first_day() + window.span_days) * 86_400);
        assert(window.first_day() * 86_400 <= first.secs);
    }
}

/// The join of the first `n` days does not look at the days behind them.
proof fn lemma_joined_days_prefix(window: RequestWindow, days: Seq<Seq<Sample>>, n: int)
    requires
        0 <= n < days.len(),
    ensures
        joined_days(window, days.drop_last(), n) == joined_days(window, days, n),
    decreases n,
{
    if n > 0 {
        lemma_joined_days_prefix(window, days, n - 1);
    }
}

/// For a window that starts on a midnight, given days whose records were
/// taken on them: no sample of the series is earlier than the window's
/// start. Where the first day's sequence begins at the start itself, as it
/// does unless a record was taken within the first second of the day, no
/// sample is later than the window's span after the start.
pub proof fn lemma_series_spans_window(window: RequestWindow, days: Seq<Seq<Sample>>)
    requires
        window.fits(),
        window.start.second_of_day() == 0,
        window.start.nanos == 0,
        days_in_place(window, days),
        days.len() > 0,
    ensures
        forall|i: int|
            0 <= i < run(window, days).series.len() ==> window.start.le(
                (#[trigger] run(window, days).series[i]).timestamp,
            ),
        day_sequence(window.first_day(), days[0])[0].timestamp == window.start ==> forall|i: int|
            0 <= i < run(window, days).series.len() ==> Deadline::after(
                window.start,
                window,
            ).admits((#[trigger] run(window, days).series[i]).timestamp),
{
    lemma_series_is_ordered(window, days);
    lemma_series_within_deadline(window, days);
    lemma_first_day_sets_deadline(window, days);
}

/// Where the members of a run are picked up to a place and not from there
/// on, what is picked is the run up to that place.
proof fn lemma_filter_prefix(s: Seq<Sample>, p: spec_fn(Sample) -> bool, k: int)
    requires
        0 <= k <= s.len(),
        forall|i: int| 0 <= i < k ==> p(#[trigger] s[i]),
        forall|i: int| k <= i < s.len() ==> !p(#[trigger] s[i]),
    ensures
        s.filter(p) == s.take(k),
    decreases s.len(),
{
    if k == s.len() {
        lemma_filter_all(s, p);
        assert(s.take(k) =~= s);
    } else {
        let d = s.drop_last();
        let l = s.last();
        assert(s =~= d.push(l));
        assert(!p(s[s.len() - 1]));
        assert forall|i: int| 0 <= i < k implies p(#[trigger] d[i]) by {
            assert(d[i] == s[i]);
        }
        assert forall|i: int| k <= i < d.len() implies !p(#[trigger] d[i]) by {
            assert(d[i] == s[i]);
        }
        lemma_filter_prefix(d, p, k);
        d.lemma_filter_push(l, p);
        assert(d.take(k) =~= s.take(k));
    }
}

/// The number of samples that are kept of an empty first day: all 86400
/// where the span has a whole day, and otherwise one for each whole second
/// of the span's fraction and one for the start of the day.
pub open spec fn kept_of_empty_day(window: RequestWindow) -> int {
    if window.span_days >= 1 {
        86_400
    } else {
        window.fraction_nanos / NANOS_PER_SECOND + 1
    }
}

/// A first day without records is cut to the second: the series holds the
/// day's placeholders from midnight through the last whole second of the
/// span, and nothing else. A span of three quarters of an hour keeps 2701 of
/// them, the last one at 00:45:00.
pub proof fn lemma_empty_first_day_is_cut(window: RequestWindow)
    requires
        window.wf(),
        window.fits(),
    ensures
        absorb_day(window, initial_progress(), Seq::empty()).series == placeholders(
            window.first_day() * 86_400,
            kept_of_empty_day(window),
        ),
        1 <= kept_of_empty_day(window) <= 86_400,
        absorb_day(window, initial_progress(), Seq::empty()).finished <==> window.day_limit()
            == 1,
{
    let day = window.first_day();
    let seq = day_sequence(day, Seq::empty());
    let k = kept_of_empty_day(window);
    lemma_empty_day_is_filled(day);
    let d = Deadline::after(seq[0].timestamp, window);
    assert(seq[0].timestamp.secs == day * 86_400 && seq[0].timestamp.nanos == 0);
    assert(d.secs == day * 86_400 + window.span_days * 86_400 + window.fraction_nanos as int
        / 1_000_000_000);
    assert forall|i: int| 0 <= i < k implies within(d)(#[trigger] seq[i]) by {
        assert(seq[i].timestamp.secs == day * 86_400 + i);
    }
    assert forall|i: int| k <= i < seq.len() implies !within(d)(#[trigger] seq[i]) by {
        assert(seq[i].timestamp.secs == day * 86_400 + i);
    }
    lemma_filter_prefix(seq, within(d), k);
    assert(seq.take(k) =~= placeholders(day * 86_400, k)) by {
        assert forall|i: int| 0 <= i < k implies seq.take(k)[i] == placeholders(
            day * 86_400,
            k,
        )[i] by {
            assert(seq[i].timestamp.secs == day * 86_400 + i);
        }
    }
    if k < 86_400 {
        assert(!d.admits(seq[k].timestamp)) by {
            assert(seq[k].timestamp.secs == day * 86_400 + k);
        }
        assert(overruns(seq, d));
    } else {
        assert(!overruns(seq, d)) by {
            if overruns(seq, d) {
                let w = choose|w: int|
                    0 <= w < seq.len() && !d.admits(#[trigger] seq[w].timestamp);
                assert(within(d)(seq[w]));
            }
        }
    }
}

} // verus!
