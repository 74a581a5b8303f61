//! The retrieval of one day of records from a remote store.
//!
//! A day is asked for once. Where its cache file exists nothing is sent.
//! Otherwise a first query asks for the day's records page by page: each
//! answer carries a cursor for the next page, and an empty page ends the
//! retrieval. Only then are the records stored, all of them as one unit.
//!
//! [`DayFetch`] holds the decisions. Its caller sends what it is told to
//! send and reports what came back.
//!
//! The store keeps the wall-clock digits of the local time under a label of
//! universal time. A query therefore names the day by its local midnights,
//! written out as they stand, and no offset is applied to them.

use vstd::prelude::*;
use vstd::string::StringExecFns;
use crate::calendar::{civil_date_of, date_of, date_of_timestamp, CivilDate};
use crate::text::{push_signed_decimal, push_two_digits, signed_decimal, two_digits};
use crate::time::Timestamp;

verus! {

/// The number of records asked for in one page.
pub const PAGE_SIZE: u32 = 1000;

/// How long the store is asked to keep a cursor alive between two pages.
pub const CURSOR_LIFETIME: &'static str = "2m";

/// The collection that holds the telemetry.
pub const INDEX_NAME: &'static str = "pcs_recyclekan";

/// The field by which the records of a day are selected.
pub const TIME_FIELD: &'static str = "JPtime";

/// The midnight that opens the day `date`, as a query writes it.
pub open spec fn midnight_text(date: CivilDate) -> Seq<char> {
    signed_decimal(date.year as int) + "-"@ + two_digits(date.month as nat) + "-"@ + two_digits(
        date.day as nat,
    ) + "T00:00:00"@
}

/// Writes the midnight that opens the day `date`.
pub fn midnight_literal(date: &CivilDate) -> (text: String)
    ensures
        text@ == midnight_text(*date),
{
    let mut text = String::new();
    push_signed_decimal(&mut text, date.year as i64);
    text.append("-");
    push_two_digits(&mut text, date.month as u64);
    text.append("-");
    push_two_digits(&mut text, date.day as u64);
    text.append("T00:00:00");
    text
}

/// The bounds of the query for one day: records from `gte` on and before `lt`.
#[derive(Debug)]
pub struct QueryRange {
    pub gte: String,
    pub lt: String,
}

/// The dates whose midnights bound the day that holds the second `secs`:
/// the date of that day and the date one day later. `None` where the
/// calendar lacks one of them.
pub open spec fn bounding_dates(secs: int) -> Option<(CivilDate, CivilDate)> {
    if secs + 86_400 > i64::MAX {
        None
    } else {
        match (date_of(civil_date_of(secs)), date_of(civil_date_of(secs + 86_400))) {
            (Some(from), Some(to)) => Some((from, to)),
            _ => None,
        }
    }
}

/// The bounds of the query for the day that holds `dt`.
pub fn query_range(dt: &Timestamp) -> (r: Option<QueryRange>)
    ensures
        r is Some <==> bounding_dates(dt.secs as int) is Some,
        r matches Some(range) ==> range.gte@ == midnight_text(
            bounding_dates(dt.secs as int).unwrap().0,
        ) && range.lt@ == midnight_text(bounding_dates(dt.secs as int).unwrap().1),
{
    let next_secs: i64 = match dt.secs.checked_add(86_400) {
        Some(s) => s,
        None => {
            return None;
        },
    };
    let next = Timestamp::new(next_secs, dt.nanos);
    match date_of_timestamp(dt) {
        Some(from) => match date_of_timestamp(&next) {
            Some(to) => Some(QueryRange { gte: midnight_literal(&from), lt: midnight_literal(&to) }),
            None => None,
        },
        None => None,
    }
}

/// Why a retrieval was given up.
#[derive(Clone, Copy, Debug, PartialEq, Eq, Structural)]
pub enum FetchError {
    /// No credentials were supplied.
    ConfigMissing,
    /// A query or its answer failed on the way.
    Transport,
}

/// Where a retrieval stands.
#[derive(Clone, Copy, Debug, PartialEq, Eq, Structural)]
pub enum FetchPhase {
    /// A page has been asked for and is awaited.
    AwaitingPage,
    /// Nothing more is to be sent: the day is in the cache, or is handed
    /// out to be put there.
    Complete,
    /// The retrieval was given up.
    Failed(FetchError),
}

/// What the caller of a retrieval is to do next.
#[derive(Debug)]
pub enum FetchAction<H> {
    /// The day is cached: read the file. Nothing is sent.
    UseCache,
    /// Send the first query: for the records of `index` whose `field` is at
    /// or after `gte` and before `lt`, in pages of `page_size`, with a
    /// cursor that the store keeps for `keep_alive` between two pages.
    Search {
        index: &'static str,
        field: &'static str,
        gte: String,
        lt: String,
        page_size: u32,
        keep_alive: &'static str,
    },
    /// Ask for the next page with `cursor`, to be kept for `keep_alive`.
    Scroll { cursor: String, keep_alive: &'static str },
    /// All pages are in: store `records` as one unit.
    Store { records: Vec<H> },
    /// Give up with `cause`. Nothing is stored.
    Abort { cause: FetchError },
    /// The retrieval is over; there is nothing to do.
    Idle,
}

/// A `FetchAction` as contracts see it.
pub enum ActionModel<H> {
    UseCache,
    Search {
        index: Seq<char>,
        field: Seq<char>,
        gte: Seq<char>,
        lt: Seq<char>,
        page_size: int,
        keep_alive: Seq<char>,
    },
    Scroll { cursor: Seq<char>, keep_alive: Seq<char> },
    Store { records: Seq<H> },
    Abort { cause: FetchError },
    Idle,
}

impl<H> View for FetchAction<H> {
    type V = ActionModel<H>;

    open spec fn view(&self) -> ActionModel<H> {
        match *self {
            FetchAction::UseCache => ActionModel::UseCache,
            FetchAction::Search { index, field, gte, lt, page_size, keep_alive } => {
                ActionModel::Search {
                    index: index@,
                    field: field@,
                    gte: gte@,
                    lt: lt@,
                    page_size: page_size as int,
                    keep_alive: keep_alive@,
                }
            },
            FetchAction::Scroll { cursor, keep_alive } => ActionModel::Scroll {
                cursor: cursor@,
                keep_alive: keep_alive@,
            },
            FetchAction::Store { records } => ActionModel::Store { records: records@ },
            FetchAction::Abort { cause } => ActionModel::Abort { cause },
            FetchAction::Idle => ActionModel::Idle,
        }
    }
}

impl<H> ActionModel<H> {
    /// Whether the action sends a query to the store.
    pub open spec fn is_query(self) -> bool {
        self is Search || self is Scroll
    }
}

/// What a caller reports back to a retrieval.
pub enum FetchEvent<H> {
    /// A page of records came, and with it the cursor for the next page.
    Page { records: Seq<H>, cursor: Seq<char> },
    /// The query failed.
    Failure,
}

/// The state of a retrieval, as contracts see it.
pub struct FetchModel<H> {
    pub phase: FetchPhase,
    /// The records received so far, page after page.
    pub records: Seq<H>,
    /// The number of queries that the retrieval has asked to be sent.
    pub queries: nat,
}

/// The state in which a retrieval begins, and what is to be done first.
///
/// Without credentials it is given up at once. With the day in the cache it
/// is complete at once and sends nothing. Otherwise the first query goes
/// out, for the day between `gte` and `lt`.
pub open spec fn begun<H>(gte: Seq<char>, lt: Seq<char>, configured: bool, cached: bool) -> (
    FetchModel<H>,
    ActionModel<H>,
) {
    if !configured {
        (
            FetchModel {
                phase: FetchPhase::Failed(FetchError::ConfigMissing),
                records: Seq::empty(),
                queries: 0,
            },
            ActionModel::Abort { cause: FetchError::ConfigMissing },
        )
    } else if cached {
        (
            FetchModel { phase: FetchPhase::Complete, records: Seq::empty(), queries: 0 },
            ActionModel::UseCache,
        )
    } else {
        (
            FetchModel { phase: FetchPhase::AwaitingPage, records: Seq::empty(), queries: 1 },
            ActionModel::Search {
                index: INDEX_NAME@,
                field: TIME_FIELD@,
                gte,
                lt,
                page_size: PAGE_SIZE as int,
                keep_alive: CURSOR_LIFETIME@,
            },
        )
    }
}

/// The state after `event`, and what is to be done next.
///
/// Only a retrieval that awaits a page takes anything in. An empty page ends
/// it: the records received are handed out to be stored, all of them and in
/// the order in which they came. Any other page is kept, and the next one is
/// asked for with the cursor that came along. A failure drops what was
/// received, so that nothing is stored.
pub open spec fn after_event<H>(m: FetchModel<H>, event: FetchEvent<H>) -> (
    FetchModel<H>,
    ActionModel<H>,
) {
    if m.phase != FetchPhase::AwaitingPage {
        (m, ActionModel::Idle)
    } else {
        match event {
            FetchEvent::Page { records, cursor } => if records.len() == 0 {
                (
                    FetchModel {
                        phase: FetchPhase::Complete,
                        records: Seq::empty(),
                        queries: m.queries,
                    },
                    ActionModel::Store { records: m.records },
                )
            } else {
                (
                    FetchModel {
                        phase: FetchPhase::AwaitingPage,
                        records: m.records + records,
                        queries: m.queries + 1,
                    },
                    ActionModel::Scroll { cursor, keep_alive: CURSOR_LIFETIME@ },
                )
            },
            FetchEvent::Failure => (
                FetchModel {
                    phase: FetchPhase::Failed(FetchError::Transport),
                    records: Seq::empty(),
                    queries: m.queries,
                },
                ActionModel::Abort { cause: FetchError::Transport },
            ),
        }
    }
}

/// The state after the events `events`, one after the other.
pub open spec fn after_events<H>(m: FetchModel<H>, events: Seq<FetchEvent<H>>) -> FetchModel<H>
    decreases events.len(),
{
    if events.len() == 0 {
        m
    } else {
        after_event(after_events(m, events.drop_last()), events.last()).0
    }
}

/// The records of the pages among `events`, joined in their order.
pub open spec fn pages_joined<H>(events: Seq<FetchEvent<H>>) -> Seq<H>
    decreases events.len(),
{
    if events.len() == 0 {
        Seq::empty()
    } else {
        match events.last() {
            FetchEvent::Page { records, cursor } => pages_joined(events.drop_last()) + records,
            FetchEvent::Failure => pages_joined(events.drop_last()),
        }
    }
}

/// The retrieval of one day.
pub struct DayFetch<H> {
    phase: FetchPhase,
    records: Vec<H>,
    queries: Ghost<nat>,
}

impl<H> View for DayFetch<H> {
    type V = FetchModel<H>;

    closed spec fn view(&self) -> FetchModel<H> {
        FetchModel { phase: self.phase, records: self.records@, queries: self.queries@ }
    }
}

impl<H> DayFetch<H> {
    /// Begins the retrieval of the day bounded by `range`.
    pub fn begin(range: QueryRange, configured: bool, cached: bool) -> (r: (
        DayFetch<H>,
        FetchAction<H>,
    ))
        ensures
            r.0@ == begun::<H>(range.gte@, range.lt@, configured, cached).0,
            r.1@ == begun::<H>(range.gte@, range.lt@, configured, cached).1,
    {
        if !configured {
            (
                DayFetch {
                    phase: FetchPhase::Failed(FetchError::ConfigMissing),
                    records: Vec::new(),
                    queries: Ghost(0),
                },
                FetchAction::Abort { cause: FetchError::ConfigMissing },
            )
        } else if cached {
            (
                DayFetch { phase: FetchPhase::Complete, records: Vec::new(), queries: Ghost(0) },
                FetchAction::UseCache,
            )
        } else {
            (
                DayFetch {
                    phase: FetchPhase::AwaitingPage,
                    records: Vec::new(),
                    queries: Ghost(1),
                },
                FetchAction::Search {
                    index: INDEX_NAME,
                    field: TIME_FIELD,
                    gte: range.gte,
                    lt: range.lt,
                    page_size: PAGE_SIZE,
                    keep_alive: CURSOR_LIFETIME,
                },
            )
        }
    }

    /// Where the retrieval stands.
    pub fn phase(&self) -> (p: FetchPhase)
        ensures
            p == self@.phase,
    {
        self.phase
    }

    /// The number of records received and not yet handed out.
    pub fn records_held(&self) -> (n: usize)
        ensures
            n == self@.records.len(),
    {
        self.records.len()
    }

    /// Takes in a page of records and the cursor that came with it.
    pub fn on_page(self, page: Vec<H>, cursor: String) -> (r: (DayFetch<H>, FetchAction<H>))
        ensures
            r.0@ == after_event(self@, FetchEvent::Page { records: page@, cursor: cursor@ }).0,
            r.1@ == after_event(self@, FetchEvent::Page { records: page@, cursor: cursor@ }).1,
    {
        let mut page = page;
        let mut state = self;
        match state.phase {
            FetchPhase::AwaitingPage => {
                if page.len() == 0 {
                    let mut records: Vec<H> = Vec::new();
                    records.append(&mut state.records);
                    state.phase = FetchPhase::Complete;
                    (state, FetchAction::Store { records })
                } else {
                    state.records.append(&mut page);
                    state.queries = Ghost((state.queries@ + 1) as nat);
                    (state, FetchAction::Scroll { cursor, keep_alive: CURSOR_LIFETIME })
                }
            },
            _ => (state, FetchAction::Idle),
        }
    }

    /// Takes in the failure of a query.
    pub fn on_failure(self) -> (r: (DayFetch<H>, FetchAction<H>))
        ensures
            r.0@ == after_event(self@, FetchEvent::<H>::Failure).0,
            r.1@ == after_event(self@, FetchEvent::<H>::Failure).1,
    {
        let mut state = self;
        match state.phase {
            FetchPhase::AwaitingPage => {
                state.phase = FetchPhase::Failed(FetchError::Transport);
                state.records = Vec::new();
                (state, FetchAction::Abort { cause: FetchError::Transport })
            },
            _ => (state, FetchAction::Idle),
        }
    }
}

/// A retrieval that finds its day in the cache never asks for a query to be
/// sent, whatever is reported to it afterwards, and stays complete.
pub proof fn lemma_cached_day_sends_nothing<H>(
    gte: Seq<char>,
    lt: Seq<char>,
    events: Seq<FetchEvent<H>>,
)
    ensures
        begun::<H>(gte, lt, true, true).1 is UseCache,
        after_events(begun::<H>(gte, lt, true, true).0, events).queries == 0,
        after_events(begun::<H>(gte, lt, true, true).0, events).phase == FetchPhase::Complete,
        events.len() > 0 ==> after_event(
            after_events(begun::<H>(gte, lt, true, true).0, events.drop_last()),
            events.last(),
        ).1 is Idle,
    decreases events.len(),
{
    if events.len() > 0 {
        lemma_cached_day_sends_nothing::<H>(gte, lt, events.drop_last());
    }
}

/// While a retrieval awaits a page it holds every record that was reported
/// to it, in order, and it has asked for one query more than it has
/// received pages. The records are handed out to be stored with the first
/// empty page, all of them at once, and at no other event.
pub proof fn lemma_store_is_whole<H>(
    gte: Seq<char>,
    lt: Seq<char>,
    events: Seq<FetchEvent<H>>,
    next: FetchEvent<H>,
)
    ensures
        ({
            let m = after_events(begun::<H>(gte, lt, true, false).0, events);
            let stored = after_event(m, next).1;
            &&& m.phase == FetchPhase::AwaitingPage ==> m.records == pages_joined(events)
                && m.queries == events.len() + 1
            &&& stored is Store <==> m.phase == FetchPhase::AwaitingPage && (next matches FetchEvent::Page {
                records,
                cursor,
            } && records.len() == 0)
            &&& stored matches ActionModel::Store { records } ==> records == pages_joined(events)
        }),
    decreases events.len(),
{
    if events.len() > 0 {
        lemma_store_is_whole::<H>(gte, lt, events.drop_last(), events.last());
    }
}

/// Once a query has failed nothing is handed out to be stored any more.
pub proof fn lemma_failure_stores_nothing<H>(
    m: FetchModel<H>,
    events: Seq<FetchEvent<H>>,
    next: FetchEvent<H>,
)
    requires
        m.phase is Failed,
    ensures
        after_events(m, events) == m,
        after_event(after_events(m, events), next).1 is Idle,
    decreases events.len(),
{
    if events.len() > 0 {
        lemma_failure_stores_nothing(m, events.drop_last(), events.last());
    }
}

} // verus!
