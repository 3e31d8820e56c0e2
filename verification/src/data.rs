//! The decisions of the background data thread: when to scan transcripts, when to fetch
//! limits, and what to publish.
//!
//! The thread itself sleeps, reads files and talks to the network; at each turn it asks here
//! what is due. The UI thread never blocks on I/O: it is handed a [`ScanView`] and a
//! [`LimitsView`].

use vstd::prelude::*;

use crate::aggregate::{
    are_day_sums, are_midnights, by_model, clock_day, daily_over, days_before, days_events,
    each_day_fits, events_between, first_of_days, is_model_table, last_days, lemma_day_sums,
    lie_between, may_be_today, model_ranges_fit, model_rows, model_sums_fit, ranges_fit, summary,
    sums_fit, totals,
    DayBounds, DayTotals, ModelTotals, Totals,
};
use crate::limits::{LimitsReading, Window};
use crate::pricing::{Prices, PricingTable};
use crate::store::{events_of, UsageStore};
use crate::time::{
    local_date, second_in_range, Date, Duration, Instant, Timestamp, Zone, DAY_SECS,
};

verus! {

/// Totals in the form in which they are shown.
#[derive(Debug, Clone, PartialEq, Eq)]
pub struct Estimate {
    pub tokens: u64,
    /// The estimated cost, as an amount of money.
    pub cost: String,
    /// Tokens that have no price.
    pub unpriced: u64,
}

/// How many files of how many have been scanned.
#[derive(Debug, Clone, Copy, PartialEq, Eq, Structural)]
pub struct Progress {
    pub done: usize,
    pub total: usize,
}

/// The totals of one day, as they are shown.
#[derive(Debug, Clone, PartialEq, Eq)]
pub struct DayEstimate {
    pub date: Date,
    pub estimate: Estimate,
}

/// The totals of one model, as they are shown.
#[derive(Debug, Clone, PartialEq, Eq)]
pub struct ModelEstimate {
    pub model: String,
    pub estimate: Estimate,
}

/// What the panel shows of the transcripts.
#[derive(Debug, Clone)]
pub struct ScanView {
    pub loading: bool,
    pub progress: Progress,
    pub today: Estimate,
    pub daily: Vec<DayEstimate>,
    pub by_model: Vec<ModelEstimate>,
    pub responses: usize,
    pub root_exists: bool,
    pub last_scan: Option<Instant>,
    pub error: Option<String>,
}

impl ScanView {
    /// Nothing has been scanned.
    pub fn new() -> (v: ScanView)
        ensures
            !v.loading,
            v.progress == (Progress { done: 0, total: 0 }),
            v.today.tokens == 0 && v.today.cost@ == "0.00"@ && v.today.unpriced == 0,
            v.daily@.len() == 0,
            v.by_model@.len() == 0,
            v.responses == 0,
            !v.root_exists,
            v.last_scan is None,
            v.error is None,
    {
        ScanView {
            loading: false,
            progress: Progress { done: 0, total: 0 },
            today: Estimate { tokens: 0, cost: "0.00".to_owned(), unpriced: 0 },
            daily: Vec::new(),
            by_model: Vec::new(),
            responses: 0,
            root_exists: false,
            last_scan: None,
            error: None,
        }
    }

    /// Takes over what a scan that ended at `now` has found.
    pub fn publish(&mut self, found: Found, now: Instant)
        ensures
            *final(self) == (ScanView {
                loading: false,
                progress: old(self).progress,
                today: found.today,
                daily: found.daily,
                by_model: found.by_model,
                responses: found.responses,
                root_exists: found.root_exists,
                last_scan: Some(now),
                error: found.error,
            }),
    {
        self.loading = false;
        self.today = found.today;
        self.daily = found.daily;
        self.by_model = found.by_model;
        self.responses = found.responses;
        self.root_exists = found.root_exists;
        self.last_scan = Some(now);
        self.error = found.error;
    }
}

/// What a scan has found, as it is shown.
#[derive(Debug, Clone, PartialEq, Eq)]
pub struct Found {
    pub today: Estimate,
    pub daily: Vec<DayEstimate>,
    pub by_model: Vec<ModelEstimate>,
    pub responses: usize,
    pub root_exists: bool,
    pub error: Option<String>,
}

/// What the panel shows of the limits.
#[derive(Debug, Clone)]
pub struct LimitsView<P> {
    pub reading: Option<LimitsReading<Window<P>>>,
    pub last_attempt: Option<Instant>,
    pub last_success: Option<Instant>,
    pub error: Option<String>,
    pub token_source: Option<String>,
    pub fetching: bool,
    pub last_refresh_failure: Option<Instant>,
}

/// Who is to be told that there is new data.
pub trait Notifier: Send + 'static {
    fn notify(&self);
}

/// What wakes the data thread.
#[derive(Debug, Clone, Copy, PartialEq, Eq, Structural)]
pub struct WakeState {
    pub visible: bool,
    pub refresh_now: bool,
    pub quit: bool,
}

impl WakeState {
    pub fn new() -> (w: WakeState)
        ensures
            w == (WakeState { visible: false, refresh_now: false, quit: false }),
    {
        WakeState { visible: false, refresh_now: false, quit: false }
    }

    /// Notes whether the panel is visible. A panel that becomes visible asks for fresh data.
    /// Says whether the thread is to be woken.
    pub fn set_visible(&mut self, visible: bool) -> (notify: bool)
        ensures
            notify == (old(self).visible != visible),
            *final(self) == (WakeState {
                visible,
                refresh_now: old(self).refresh_now || (visible && !old(self).visible),
                ..*old(self)
            }),
    {
        if self.visible != visible {
            self.visible = visible;
            if visible {
                self.refresh_now = true;
            }
            true
        } else {
            false
        }
    }

    pub fn refresh_now(&mut self)
        ensures
            *final(self) == (WakeState { refresh_now: true, ..*old(self) }),
    {
        self.refresh_now = true;
    }

    pub fn quit(&mut self)
        ensures
            *final(self) == (WakeState { quit: true, ..*old(self) }),
    {
        self.quit = true;
    }

    /// Whether the thread may sleep until the next rescan.
    pub fn may_sleep(&self) -> (r: bool)
        ensures
            r == (!self.refresh_now && !self.quit),
    {
        !self.refresh_now && !self.quit
    }

    /// What to do after the sleep: nothing more (`None`), or scan, by request or not. A
    /// request is met once.
    pub fn woken(&mut self) -> (forced: Option<bool>)
        ensures
            forced is None <==> old(self).quit,
            forced matches Some(f) ==> f == old(self).refresh_now,
            *final(self) == if old(self).quit {
                *old(self)
            } else {
                WakeState { refresh_now: false, ..*old(self) }
            },
    {
        if self.quit {
            return None;
        }
        let forced = self.refresh_now;
        self.refresh_now = false;
        Some(forced)
    }
}

/// The live settings and how often they have been replaced.
#[derive(Debug, Clone)]
pub struct Live<S> {
    pub version: u64,
    pub value: S,
}

impl<S> Live<S> {
    pub fn new(value: S) -> (r: Live<S>)
        ensures
            r == (Live { version: 0, value }),
    {
        Live { version: 0, value }
    }

    /// Replace the live settings; bumps the version so the window applies them.
    pub fn update_settings(&mut self, value: S)
        requires
            old(self).version < u64::MAX,
        ensures
            final(self).version == old(self).version + 1,
            final(self).value == value,
    {
        self.version += 1;
        self.value = value;
    }
}

/// How often to scan and to fetch.
#[derive(Debug, Clone, Copy, PartialEq, Eq, Structural)]
pub struct Timing {
    pub rescan_visible_secs: u64,
    pub rescan_hidden_secs: u64,
    pub limits_visible_secs: u64,
    pub limits_hidden_secs: u64,
    pub limits_min_gap_secs: u64,
}

impl Timing {
    /// The time between scans, in nanoseconds.
    pub open spec fn rescan_nanos(self, visible: bool) -> int {
        (if visible {
            self.rescan_visible_secs
        } else {
            self.rescan_hidden_secs
        }) * 1_000_000_000
    }

    /// The time between fetches of the limits, in nanoseconds: the period of the visible or
    /// hidden panel, but at least the minimum gap.
    pub open spec fn limits_nanos(self, visible: bool) -> int {
        let period = if visible {
            self.limits_visible_secs
        } else {
            self.limits_hidden_secs
        };
        (if period >= self.limits_min_gap_secs {
            period
        } else {
            self.limits_min_gap_secs
        }) * 1_000_000_000
    }

    /// The minimum gap between fetches of the limits, in nanoseconds.
    pub open spec fn gap_nanos(self) -> int {
        self.limits_min_gap_secs * 1_000_000_000
    }

    /// The time to sleep before the next scan.
    pub fn rescan_period(&self, visible: bool) -> (d: Duration)
        ensures
            d.nanos == self.rescan_nanos(visible),
    {
        Duration::from_secs(
            if visible {
                self.rescan_visible_secs
            } else {
                self.rescan_hidden_secs
            },
        )
    }
}

/// When the limits were last asked for.
#[derive(Debug, Clone, Copy, PartialEq, Eq, Structural)]
pub struct FetchClock {
    pub last_attempt: Option<Instant>,
}

/// At least `nanos` have passed since the last attempt, or there was none.
pub open spec fn rested(last: Option<Instant>, now: Instant, nanos: int) -> bool {
    match last {
        Some(t) => now.since(t) >= nanos,
        None => true,
    }
}

impl FetchClock {
    pub fn new() -> (c: FetchClock)
        ensures
            c.last_attempt is None,
    {
        FetchClock { last_attempt: None }
    }

    /// Whether a fetch is due at the start of a turn; if so, it counts as attempted now.
    pub fn turn(&mut self, timing: &Timing, visible: bool, now: Instant) -> (fetch: bool)
        ensures
            fetch == rested(old(self).last_attempt, now, timing.limits_nanos(visible)),
            final(self).last_attempt == if fetch {
                Some(now)
            } else {
                old(self).last_attempt
            },
    {
        let secs: u64 = if visible {
            timing.limits_visible_secs
        } else {
            timing.limits_hidden_secs
        };
        let period = Duration::from_secs(
            if secs >= timing.limits_min_gap_secs {
                secs
            } else {
                timing.limits_min_gap_secs
            },
        );
        let due = match self.last_attempt {
            None => true,
            Some(t) => now.duration_since(t).nanos >= period.nanos,
        };
        if due {
            self.last_attempt = Some(now);
        }
        due
    }

    /// Whether a fetch is due after a scan. A forced refresh (panel just opened) may fetch
    /// limits early, but never more often than the minimum gap.
    pub fn after_scan(&mut self, timing: &Timing, forced: bool, now: Instant) -> (fetch: bool)
        ensures
            fetch == (forced && rested(old(self).last_attempt, now, timing.gap_nanos())),
            final(self).last_attempt == if fetch {
                Some(now)
            } else {
                old(self).last_attempt
            },
    {
        let gap = Duration::from_secs(timing.limits_min_gap_secs);
        let rested = match self.last_attempt {
            None => true,
            Some(t) => now.duration_since(t).nanos >= gap.nanos,
        };
        if forced && rested {
            self.last_attempt = Some(now);
            true
        } else {
            false
        }
    }
}

/// One question to the [`FetchClock`].
pub enum Question {
    Turn { visible: bool },
    AfterScan { forced: bool },
}

/// Whether the answer is to fetch.
pub open spec fn says_fetch(
    last: Option<Instant>,
    timing: Timing,
    question: Question,
    now: Instant,
) -> bool {
    match question {
        Question::Turn { visible } => rested(last, now, timing.limits_nanos(visible)),
        Question::AfterScan { forced } => forced && rested(last, now, timing.gap_nanos()),
    }
}

/// The last attempt after a number of questions, each with its time.
pub open spec fn last_attempt_after(timing: Timing, asked: Seq<(Question, Instant)>) -> Option<
    Instant,
>
    decreases asked.len(),
{
    if asked.len() == 0 {
        None
    } else {
        let last = last_attempt_after(timing, asked.drop_last());
        if says_fetch(last, timing, asked.last().0, asked.last().1) {
            Some(asked.last().1)
        } else {
            last
        }
    }
}

/// The fetch at position `i` was made.
pub open spec fn fetched_at(timing: Timing, asked: Seq<(Question, Instant)>, i: int) -> bool {
    0 <= i < asked.len() && says_fetch(
        last_attempt_after(timing, asked.take(i)),
        timing,
        asked[i].0,
        asked[i].1,
    )
}

proof fn lemma_attempt_kept(timing: Timing, asked: Seq<(Question, Instant)>, i: int, n: int)
    requires
        fetched_at(timing, asked, i),
        i < n <= asked.len(),
        forall|k: int| i < k < n ==> !fetched_at(timing, asked, k),
    ensures
        last_attempt_after(timing, asked.take(n)) == Some(asked[i].1),
    decreases n,
{
    assert(asked.take(n).drop_last() =~= asked.take(n - 1));
    if n > i + 1 {
        lemma_attempt_kept(timing, asked, i, n - 1);
        assert(!fetched_at(timing, asked, n - 1));
    }
}

/// The limits are never fetched more often than the minimum gap allows, whatever the panel
/// does: between two fetches in a row, at least the gap has passed.
pub proof fn fetches_keep_the_minimum_gap(
    timing: Timing,
    asked: Seq<(Question, Instant)>,
    i: int,
    j: int,
)
    requires
        i < j,
        fetched_at(timing, asked, i),
        fetched_at(timing, asked, j),
        forall|k: int| i < k < j ==> !fetched_at(timing, asked, k),
    ensures
        asked[j].1.since(asked[i].1) >= timing.gap_nanos(),
{
    lemma_attempt_kept(timing, asked, i, j);
}

/// Whether the outcome of a scan without an error is to be published.
pub fn worth_publishing(added: usize, updated: usize, reset: usize, forced: bool) -> (r: bool)
    ensures
        r == (added > 0 || updated > 0 || reset > 0 || forced),
{
    added > 0 || updated > 0 || reset > 0 || forced
}

/// Whether the progress of a scan is to be shown again: the last time is more than 120 ms
/// ago.
pub fn progress_due(last: Instant, now: Instant) -> (r: bool)
    ensures
        r == (now.since(last) > 120_000_000),
{
    now.duration_since(last).nanos > 120_000_000
}

/// What a fetch of the limits brought.
#[derive(Debug, Clone)]
pub struct FetchOutcome<P> {
    pub reading: Option<LimitsReading<Window<P>>>,
    pub error: Option<String>,
    pub source: Option<String>,
    /// Whether the stored token was refreshed, if that was tried.
    pub refreshed: Option<bool>,
}

impl<P> LimitsView<P> {
    pub fn new() -> (v: LimitsView<P>)
        ensures
            v.reading is None,
            v.last_attempt is None,
            v.last_success is None,
            v.error is None,
            v.token_source is None,
            !v.fetching,
            v.last_refresh_failure is None,
    {
        LimitsView {
            reading: None,
            last_attempt: None,
            last_success: None,
            error: None,
            token_source: None,
            fetching: false,
            last_refresh_failure: None,
        }
    }

    /// Notes that a fetch begins. Says whether it may refresh the stored token: only if the
    /// user allows it, and not too soon after a failure.
    pub fn begin_fetch(&mut self, auto_refresh: bool, retry_secs: u64, now: Instant) -> (allow: bool)
        ensures
            allow == (auto_refresh && rested(
                old(self).last_refresh_failure,
                now,
                retry_secs * 1_000_000_000,
            )),
            *final(self) == (LimitsView {
                fetching: true,
                last_attempt: Some(now),
                ..*old(self)
            }),
    {
        self.fetching = true;
        self.last_attempt = Some(now);
        let retry = Duration::from_secs(retry_secs);
        let rested = match self.last_refresh_failure {
            None => true,
            Some(t) => now.duration_since(t).nanos >= retry.nanos,
        };
        auto_refresh && rested
    }

    /// Takes in what a fetch brought. A reading replaces the last one; without one the last
    /// reading stays, with an error beside it.
    pub fn finish_fetch(&mut self, outcome: FetchOutcome<P>, now: Instant)
        ensures
            !final(self).fetching,
            final(self).last_attempt == old(self).last_attempt,
            final(self).last_refresh_failure == if outcome.refreshed == Some(false) {
                Some(now)
            } else {
                old(self).last_refresh_failure
            },
            final(self).token_source == if outcome.source is Some {
                outcome.source
            } else {
                old(self).token_source
            },
            outcome.reading is Some ==> final(self).reading == outcome.reading
                && final(self).last_success == Some(now) && final(self).error is None,
            outcome.reading is None ==> final(self).reading == old(self).reading
                && final(self).last_success == old(self).last_success
                && final(self).error is Some,
            outcome.reading is None && outcome.error is Some ==> final(self).error == outcome.error,
            outcome.reading is None && outcome.error is None ==> final(self).error->0@
                == "no reading"@,
    {
        self.fetching = false;
        if let Some(false) = outcome.refreshed {
            self.last_refresh_failure = Some(now);
        }
        if let Some(source) = outcome.source {
            self.token_source = Some(source);
        }
        match outcome.reading {
            Some(reading) => {
                self.reading = Some(reading);
                self.last_success = Some(now);
                self.error = None;
            },
            None => {
                self.error = match outcome.error {
                    Some(e) => Some(e),
                    None => Some("no reading".to_owned()),
                };
            },
        }
    }
}

/// What is published after a scan.
#[derive(Debug, Clone)]
pub struct Gathered<P> {
    pub today: Totals<P>,
    pub daily: Vec<DayTotals<P>>,
    pub by_model: Vec<ModelTotals<P>>,
    pub responses: usize,
}

/// The last seven days at `now`, and the end of today, lie within the calendar.
pub open spec fn week_in_range(zone: Zone, now: Timestamp) -> bool {
    match zone {
        Zone::Fixed(east) => second_in_range(now.secs + east - 6 * DAY_SECS) && second_in_range(
            now.secs + east + DAY_SECS,
        ),
        Zone::Local => now.well_inside() && second_in_range(now.secs - 8 * DAY_SECS),
    }
}

/// The sums over today, over each of the last seven days, and over each model in those days
/// fit 64 bits.
pub open spec fn week_fits<P>(
    store: UsageStore,
    zone: Zone,
    now: Timestamp,
    prices: Prices<P>,
) -> bool {
    match zone {
        Zone::Fixed(east) => {
            let date = clock_day(east as int, now);
            let week = days_events(store, east as int, days_before(date, 6), date);
            each_day_fits(store, east as int, date, 7, prices) && model_sums_fit(week, prices)
        },
        Zone::Local => sums_fit(events_of(store@), prices) && model_sums_fit(
            events_of(store@),
            prices,
        ),
    }
}

/// Totals of today, of each of those days, and of each model in the time from the start of
/// the first to the end of the last of the week.
pub fn gather_over<P: Copy>(
    store: &UsageStore,
    pricing: &PricingTable<P>,
    today: DayBounds,
    days: &Vec<DayBounds>,
    week: DayBounds,
) -> (g: Gathered<P>)
    requires
        store.wf(),
        sums_fit(events_between(*store, today.start, today.end), pricing@),
        forall|i: int|
            0 <= i < days@.len() ==> sums_fit(
                events_between(*store, (#[trigger] days@[i]).start, days@[i].end),
                pricing@,
            ),
        model_sums_fit(events_between(*store, week.start, week.end), pricing@),
    ensures
        g.responses == store@.len(),
        g.today@ == summary(events_between(*store, today.start, today.end), pricing@),
        g.daily@.len() == days@.len(),
        forall|i: int|
            0 <= i < days@.len() ==> (#[trigger] g.daily@[i]).date == days@[i].date
                && g.daily@[i].totals@ == summary(
                events_between(*store, days@[i].start, days@[i].end),
                pricing@,
            ),
        is_model_table(
            model_rows(g.by_model@),
            events_between(*store, week.start, week.end),
            pricing@,
        ),
{
    Gathered {
        today: totals(store, pricing, today.start, today.end),
        daily: daily_over(store, pricing, days),
        by_model: by_model(store, pricing, week.start, week.end),
        responses: store.len(),
    }
}

/// Totals of today, of each of the last seven days, and of each model in those days. In the
/// machine's own time zone which days these are, and where each begins and ends, depends on
/// the machine.
pub fn gather<P: Copy>(
    store: &UsageStore,
    pricing: &PricingTable<P>,
    zone: Zone,
    now: Timestamp,
) -> (g: Gathered<P>)
    requires
        store.wf(),
        zone.valid(),
        now.valid(),
        week_in_range(zone, now),
        week_fits(*store, zone, now, pricing@),
    ensures
        g.responses == store@.len(),
        g.daily@.len() == 7,
        forall|i: int|
            0 <= i < 7 ==> (#[trigger] g.daily@[i]).date == days_before(g.daily@[6].date, 6 - i),
        zone matches Zone::Fixed(east) ==> ({
            let date = clock_day(east as int, now);
            &&& g.today@ == summary(days_events(*store, east as int, date, date), pricing@)
            &&& g.daily@[6].date == date
            &&& forall|i: int|
                0 <= i < 7 ==> (#[trigger] g.daily@[i]).totals@ == summary(
                    days_events(*store, east as int, g.daily@[i].date, g.daily@[i].date),
                    pricing@,
                )
            &&& is_model_table(
                model_rows(g.by_model@),
                days_events(*store, east as int, days_before(date, 6), date),
                pricing@,
            )
        }),
        g.today@ == g.daily@[6].totals@,
        exists|midnights: Seq<Timestamp>|
            are_midnights(midnights, zone, g.daily@[0].date, 7) && #[trigger] are_day_sums(
                g.daily@,
                *store,
                midnights,
                pricing@,
            ) && is_model_table(
                model_rows(g.by_model@),
                events_between(*store, midnights[0], midnights[7]),
                pricing@,
            ),
        zone is Local ==> may_be_today(g.daily@[6].date, now),
{
    let date = local_date(zone, now);
    let days = last_days(zone, date, 7);
    let today = days[6];
    let week = DayBounds { date, start: days[0].start, end: today.end };
    proof {
        match zone {
            Zone::Fixed(east) => {
                assert(days_before(date, 0) == date);
                assert forall|i: int| 0 <= i < 7 implies sums_fit(
                    events_between(*store, (#[trigger] days@[i]).start, days@[i].end),
                    pricing@,
                ) by {
                    let day = days_before(date, 6 - i);
                    assert(sums_fit(days_events(*store, east as int, day, day), pricing@));
                }
            },
            Zone::Local => {
                model_ranges_fit(*store, week.start, week.end, pricing@);
                assert forall|i: int| 0 <= i < 7 implies sums_fit(
                    events_between(*store, (#[trigger] days@[i]).start, days@[i].end),
                    pricing@,
                ) by {
                    ranges_fit(*store, days@[i].start, days@[i].end, pricing@);
                }
            },
        }
    }
    let g = gather_over(store, pricing, today, &days, week);
    proof {
        let midnights = choose|midnights: Seq<Timestamp>|
            are_midnights(midnights, zone, first_of_days(date, 7), 7) && #[trigger] lie_between(
                days@,
                midnights,
            );
        lemma_day_sums(g.daily@, days@, *store, midnights, pricing@);
        assert(g.daily@[0].date == first_of_days(date, 7));
        assert(g.daily@[6].totals@ == summary(
            events_between(*store, days@[6].start, days@[6].end),
            pricing@,
        ));
        assert(days@[0].start == midnights[0] && days@[6].end == midnights[7]);
    }
    g
}

/// The periods are those of the settings: of the visible panel while it is visible, of the hidden
/// one while it is hidden. Limits are never fetched more often than the minimum gap allows.
pub proof fn periods_are_those_of_the_settings(t: Timing)
    ensures
        t.rescan_nanos(true) == t.rescan_visible_secs * 1_000_000_000,
        t.rescan_nanos(false) == t.rescan_hidden_secs * 1_000_000_000,
        t.gap_nanos() == t.limits_min_gap_secs * 1_000_000_000,
        t.limits_nanos(true) >= t.limits_visible_secs * 1_000_000_000,
        t.limits_nanos(true) >= t.limits_min_gap_secs * 1_000_000_000,
        t.limits_nanos(false) >= t.limits_hidden_secs * 1_000_000_000,
        t.limits_nanos(false) >= t.limits_min_gap_secs * 1_000_000_000,
        t.limits_nanos(true) == t.limits_visible_secs * 1_000_000_000 || t.limits_nanos(true)
            == t.limits_min_gap_secs * 1_000_000_000,
        t.limits_nanos(false) == t.limits_hidden_secs * 1_000_000_000 || t.limits_nanos(false)
            == t.limits_min_gap_secs * 1_000_000_000,
{
}

/// A rest is over when the time has passed, and at once if nothing was tried before.
pub proof fn when_a_rest_is_over(last: Instant, now: Instant, nanos: int)
    requires
        nanos >= 0,
    ensures
        rested(None, now, nanos),
        now.nanos >= last.nanos ==> (rested(Some(last), now, nanos) <==> now.nanos - last.nanos
            >= nanos),
        now.nanos < last.nanos ==> (rested(Some(last), now, nanos) <==> nanos == 0),
{
}

/// A fetch is made when its period has passed, or after a scan by request when the gap has.
pub proof fn when_limits_are_fetched(
    last: Option<Instant>,
    timing: Timing,
    visible: bool,
    forced: bool,
    now: Instant,
)
    ensures
        says_fetch(last, timing, Question::Turn { visible }, now) <==> (last matches Some(t)
            ==> now.since(t) >= timing.limits_nanos(visible)),
        says_fetch(last, timing, Question::AfterScan { forced }, now) <==> forced && (
        last matches Some(t) ==> now.since(t) >= timing.limits_min_gap_secs * 1_000_000_000),
{
}

/// The week of a moment can be gathered where all of its days lie within the calendar.
pub proof fn which_weeks_lie_in_the_calendar(east: i32, now: Timestamp)
    requires
        -86_400 < east < 86_400,
    ensures
        week_in_range(Zone::Fixed(east), now) <==> -8_334_601_228_800 + 6 * 86_400 <= now.secs + east
            <= 8_210_266_876_799 - 86_400,
{
}

/// The week of a moment fits if each of its seven days, and each model in all of them, does.
pub proof fn which_weeks_fit<P>(
    store: UsageStore,
    east: i32,
    now: Timestamp,
    prices: Prices<P>,
)
    requires
        -86_400 < east < 86_400,
        week_in_range(Zone::Fixed(east), now),
    ensures
        ({
            let today = ((now.secs + east) / 86_400 + 719_163) as i32;
            let first = Date { day: (today - 6) as i32 };
            let last = Date { day: today };
            let week = days_events(store, east as int, first, last);
            week_fits(store, Zone::Fixed(east), now, prices) <==> (forall|back: int|
                0 <= back < 7 ==> sums_fit(
                    days_events(
                        store,
                        east as int,
                        #[trigger] days_before(last, back),
                        days_before(last, back),
                    ),
                    prices,
                )) && model_sums_fit(week, prices)
        }),
        week_fits(store, Zone::Local, now, prices) <==> sums_fit(events_of(store@), prices)
            && model_sums_fit(events_of(store@), prices),
{
}

/// The last attempt is the last question that was answered by a fetch.
pub proof fn attempts_are_remembered(
    timing: Timing,
    asked: Seq<(Question, Instant)>,
    question: Question,
    now: Instant,
)
    ensures
        ({
            let last = last_attempt_after(timing, asked);
            let next = last_attempt_after(timing, asked.push((question, now)));
            &&& says_fetch(last, timing, question, now) ==> next == Some(now)
            &&& !says_fetch(last, timing, question, now) ==> next == last
            &&& last_attempt_after(timing, Seq::empty()) is None
        }),
{
    assert(asked.push((question, now)).drop_last() =~= asked);
}

} // verus!
