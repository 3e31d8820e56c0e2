//! Builds what the panel shows from the shared data. Pure logic.

use vstd::prelude::*;

use crate::data::{Estimate, LimitsView, ScanView};
use crate::figures::{figure, figure_of};
use crate::limits::{Credits, LimitsReading, ScopedLimit, SurfaceShare, Window};
use crate::product;
use crate::settings::Settings;
use crate::text::{decimal, decimal_of, opt_text, str_eq, texts};
use crate::time::{
    date_text, format_date, is_local_text, local_text, nanos_between, signed_duration_since,
    ClockStyle, Duration, Instant, Span, Timestamp, NANOS,
};

verus! {

#[derive(Debug, Clone, Copy, PartialEq, Eq, Structural)]
pub enum BarState {
    Fresh,
    Stale,
    Expired,
    Missing,
}

#[derive(Debug, Clone, PartialEq)]
pub struct BarRow<P> {
    pub label: String,
    pub right: String,
    /// How full the bar is, if that is known.
    pub pct: Option<P>,
    pub state: BarState,
}

#[derive(Debug, Clone, PartialEq)]
pub struct ViewModel<P> {
    pub bars: Vec<BarRow<P>>,
    pub today: String,
    pub today_sub: String,
    pub footer: String,
    pub footer_warn: bool,
    /// Expanded-only rows: (left, right). Empty left = section header in right.
    pub detail: Vec<(String, String)>,
    pub expanded: bool,
}

/// Heights in logical pixels.
pub const ROW_BAR: u32 = 44;

pub const ROW_TEXT: u32 = 17;

pub const PAD: u32 = 16;

/// What a [`BarRow`] says.
#[verifier::ext_equal]
pub struct Bar<P> {
    pub label: Seq<char>,
    pub right: Seq<char>,
    pub pct: Option<P>,
    pub state: BarState,
}

impl<P> View for BarRow<P> {
    type V = Bar<P>;

    open spec fn view(&self) -> Bar<P> {
        Bar { label: self.label@, right: self.right@, pct: self.pct, state: self.state }
    }
}

/// The views of a list of bars.
pub open spec fn bars_of<P>(bars: Seq<BarRow<P>>) -> Seq<Bar<P>> {
    bars.map_values(|b: BarRow<P>| b@)
}

/// The views of a list of pairs.
pub open spec fn rows_of(rows: Seq<(String, String)>) -> Seq<(Seq<char>, Seq<char>)> {
    rows.map_values(|r: (String, String)| (r.0@, r.1@))
}

/// What a [`ViewModel`] says.
#[verifier::ext_equal]
pub struct Shown<P> {
    pub bars: Seq<Bar<P>>,
    pub today: Seq<char>,
    pub today_sub: Seq<char>,
    pub footer: Seq<char>,
    pub footer_warn: bool,
    pub detail: Seq<(Seq<char>, Seq<char>)>,
    pub expanded: bool,
}

impl<P> View for ViewModel<P> {
    type V = Shown<P>;

    open spec fn view(&self) -> Shown<P> {
        Shown {
            bars: bars_of(self.bars@),
            today: self.today@,
            today_sub: self.today_sub@,
            footer: self.footer@,
            footer_warn: self.footer_warn,
            detail: rows_of(self.detail@),
            expanded: self.expanded,
        }
    }
}

impl<P> Shown<P> {
    /// Panel height in logical pixels: padding, the bars, two lines for today, the details
    /// where they are shown, and the footer.
    pub open spec fn height(self) -> int {
        PAD + 4 + self.bars.len() * ROW_BAR + 8 + 2 * ROW_TEXT + if self.expanded {
            6 + self.detail.len() * ROW_TEXT
        } else {
            0
        } + 6 + ROW_TEXT + PAD - 4
    }
}

impl<P> ViewModel<P> {
    /// Panel height in logical pixels.
    pub fn height(&self) -> (h: u128)
        ensures
            h == self@.height(),
    {
        let mut h: u128 = PAD as u128 + 4;
        h += self.bars.len() as u128 * ROW_BAR as u128;
        h += 8 + ROW_TEXT as u128 * 2;
        if self.expanded {
            h += 6 + self.detail.len() as u128 * ROW_TEXT as u128;
        }
        h += 6 + ROW_TEXT as u128;
        h + PAD as u128 - 4
    }
}

/// A count of tokens as it is shown.
pub open spec fn tokens_text(n: nat) -> Seq<char> {
    if n >= 10_000_000 {
        figure(n, 1_000_000, 0) + "M"@
    } else if n >= 1_000_000 {
        figure(n, 1_000_000, 1) + "M"@
    } else if n >= 10_000 {
        figure(n, 1_000, 0) + "k"@
    } else if n >= 1_000 {
        figure(n, 1_000, 1) + "k"@
    } else {
        decimal(n)
    }
}

pub fn fmt_tokens(n: u64) -> (r: String)
    ensures
        r@ == tokens_text(n as nat),
{
    if n >= 1_000_000 {
        let mut s = figure_of(
            n,
            1_000_000,
            if n >= 10_000_000 {
                0
            } else {
                1
            },
        );
        s.append("M");
        s
    } else if n >= 1_000 {
        let mut s = figure_of(
            n,
            1_000,
            if n >= 10_000 {
                0
            } else {
                1
            },
        );
        s.append("k");
        s
    } else {
        decimal_of(n as u128)
    }
}

/// A number of two digits or more, with a leading zero where it has only one.
pub open spec fn two_digits(n: nat) -> Seq<char> {
    if n < 10 {
        "0"@ + decimal(n)
    } else {
        decimal(n)
    }
}

/// So many seconds, in days and hours, hours and minutes, or minutes.
pub open spec fn duration_text(secs: nat) -> Seq<char> {
    if secs >= 86_400 {
        decimal(secs / 86_400) + "d "@ + decimal(secs % 86_400 / 3600) + "h"@
    } else if secs >= 3600 {
        decimal(secs / 3600) + "h "@ + two_digits(secs % 3600 / 60) + "m"@
    } else {
        decimal(secs % 3600 / 60) + "m"@
    }
}

/// The whole seconds of a length of time; none if it is negative.
pub open spec fn whole_seconds(nanos: int) -> nat {
    if nanos < 0 {
        0
    } else {
        (nanos / NANOS as int) as nat
    }
}

pub fn fmt_duration(d: Span) -> (r: String)
    requires
        d.valid(),
    ensures
        r@ == duration_text(whole_seconds(d.total())),
{
    let secs: u128 = if d.secs > 0 {
        d.secs as u128
    } else {
        0
    };
    assert(secs == whole_seconds(d.total()));
    if secs >= 86_400 {
        let mut s = decimal_of(secs / 86_400);
        s.append("d ");
        s.append(decimal_of(secs % 86_400 / 3600).as_str());
        s.append("h");
        s
    } else if secs >= 3600 {
        let m: u128 = secs % 3600 / 60;
        let mut s = decimal_of(secs / 3600);
        s.append("h ");
        let ghost before = s@;
        if m < 10 {
            s.append("0");
        }
        s.append(decimal_of(m).as_str());
        assert(s@ =~= before + two_digits(m as nat));
        s.append("m");
        s
    } else {
        let mut s = decimal_of(secs % 3600 / 60);
        s.append("m");
        s
    }
}

/// How long ago something was.
pub open spec fn age_text(secs: nat) -> Seq<char> {
    if secs < 60 {
        decimal(secs) + "s ago"@
    } else if secs < 3600 {
        decimal(secs / 60) + "m ago"@
    } else {
        decimal(secs / 3600) + "h "@ + decimal(secs % 3600 / 60) + "m ago"@
    }
}

fn fmt_age(d: Duration) -> (r: String)
    ensures
        r@ == age_text(d.nanos as nat / NANOS as nat),
{
    let secs: u128 = d.nanos / 1_000_000_000;
    if secs < 60 {
        let mut s = decimal_of(secs);
        s.append("s ago");
        s
    } else if secs < 3600 {
        let mut s = decimal_of(secs / 60);
        s.append("m ago");
        s
    } else {
        let mut s = decimal_of(secs / 3600);
        s.append("h ");
        s.append(decimal_of(secs % 3600 / 60).as_str());
        s.append("m ago");
        s
    }
}

/// A reading of that age (none if there never was one) is too old.
pub open spec fn is_stale(age: Option<int>, stale_nanos: int) -> bool {
    age matches Some(a) ==> a > stale_nanos
}

/// The bar for a limit window, where `clock` is the local time of its reset.
pub open spec fn window_bar<P>(
    label: Seq<char>,
    window: Option<Window<P>>,
    stale: bool,
    now: Timestamp,
    short: bool,
    clock: Seq<char>,
) -> Bar<P> {
    match window {
        None => Bar { label, right: "no data"@, pct: None, state: BarState::Missing },
        Some(w) => if w.resets_at is Some && !now.earlier(w.resets_at->0) {
            Bar {
                label,
                right: "window reset - no newer reading"@,
                pct: None,
                state: BarState::Expired,
            }
        } else {
            Bar {
                label,
                right: match w.resets_at {
                    Some(t) => if short {
                        "resets in "@ + duration_text(whole_seconds(nanos_between(t, now)))
                    } else {
                        "resets "@ + clock
                    },
                    None => Seq::empty(),
                },
                pct: Some(w.shown),
                state: if stale {
                    BarState::Stale
                } else {
                    BarState::Fresh
                },
            }
        },
    }
}

/// The bar for a limit window, where `clock` is the local time of its reset.
pub fn bar<P: Copy>(
    label: String,
    window: Option<Window<P>>,
    stale: bool,
    now: Timestamp,
    short: bool,
    clock: &str,
) -> (r: BarRow<P>)
    requires
        now.valid(),
        window matches Some(w) ==> (w.resets_at matches Some(t) ==> t.valid()),
    ensures
        r@ == window_bar(label@, window, stale, now, short, clock@),
{
    let w = match window {
        Some(w) => w,
        None => {
            return BarRow {
                label,
                right: "no data".to_owned(),
                pct: None,
                state: BarState::Missing,
            };
        },
    };
    if let Some(t) = w.resets_at {
        if !now.is_before(t) {
            return BarRow {
                label,
                right: "window reset - no newer reading".to_owned(),
                pct: None,
                state: BarState::Expired,
            };
        }
    }
    let right = match w.resets_at {
        Some(t) => if short {
            let mut s = "resets in ".to_owned();
            s.append(fmt_duration(signed_duration_since(t, now)).as_str());
            s
        } else {
            let mut s = "resets ".to_owned();
            s.append(clock);
            s
        },
        None => String::new(),
    };
    assert(w.resets_at is None ==> right@ =~= Seq::empty());
    BarRow {
        label,
        right,
        pct: Some(w.shown),
        state: if stale {
            BarState::Stale
        } else {
            BarState::Fresh
        },
    }
}

/// Totals as they are shown.
pub open spec fn totals_text(e: Estimate) -> Seq<char> {
    tokens_text(e.tokens as nat) + " tokens - est. $"@ + e.cost@ + if e.unpriced > 0 {
        " (+"@ + tokens_text(e.unpriced as nat) + " unpriced)"@
    } else {
        Seq::empty()
    }
}

fn totals_line(e: &Estimate) -> (r: String)
    ensures
        r@ == totals_text(*e),
{
    let mut s = fmt_tokens(e.tokens);
    s.append(" tokens - est. $");
    s.append(e.cost.as_str());
    let ghost before = s@;
    if e.unpriced > 0 {
        s.append(" (+");
        s.append(fmt_tokens(e.unpriced).as_str());
        s.append(" unpriced)");
    }
    assert(s@ =~= totals_text(*e));
    s
}

/// What a bar is for.
#[derive(Debug, Clone)]
pub enum Slot<P> {
    /// A limit window, with the time left until it resets (`short`) or the time at which it
    /// does.
    Limit { label: String, window: Option<Window<P>>, short: bool },
    /// Usage credits, which are real money and so earn a place on the collapsed face.
    Credits { right: String, share: P },
}

/// What a [`Slot`] says.
#[verifier::ext_equal]
pub enum SlotView<P> {
    Limit { label: Seq<char>, window: Option<Window<P>>, short: bool },
    Credits { right: Seq<char>, share: P },
}

impl<P> View for Slot<P> {
    type V = SlotView<P>;

    open spec fn view(&self) -> SlotView<P> {
        match *self {
            Slot::Limit { label, window, short } => SlotView::Limit {
                label: label@,
                window,
                short,
            },
            Slot::Credits { right, share } => SlotView::Credits { right: right@, share },
        }
    }
}

/// The views of a list of slots.
pub open spec fn slot_views<P>(slots: Seq<Slot<P>>) -> Seq<SlotView<P>> {
    slots.map_values(|s: Slot<P>| s@)
}

/// A slot for the weekly window `window`.
pub open spec fn weekly<P>(label: Seq<char>, window: Option<Window<P>>) -> SlotView<P> {
    SlotView::Limit { label, window, short: false }
}

/// The slots for the per-model weekly windows.
pub open spec fn scoped_slots<P>(limits: Seq<ScopedLimit<Window<P>>>) -> Seq<SlotView<P>>
    decreases limits.len(),
{
    if limits.len() == 0 {
        Seq::empty()
    } else {
        let l = limits.last();
        let before = scoped_slots(limits.drop_last());
        if l.kind@ == "weekly_scoped"@ {
            before.push(
                weekly(
                    "Weekly "@ + match l.scope {
                        Some(s) => s@,
                        None => "model"@,
                    },
                    Some(l.window),
                ),
            )
        } else {
            before
        }
    }
}

/// The slot for usage credits, where they are enabled.
pub open spec fn credit_slots<P>(credits: Option<Credits<Window<P>>>) -> Seq<SlotView<P>> {
    match credits {
        Some(c) => if c.enabled {
            seq![
                SlotView::Credits {
                    right: match c.limit {
                        Some(limit) => c.used@ + " of "@ + limit@ + " this month"@,
                        None => c.used@ + " this month"@,
                    },
                    share: c.share.shown,
                },
            ]
        } else {
            Seq::empty()
        },
        None => Seq::empty(),
    }
}

/// The slot for a weekly window that is only shown if there is one.
pub open spec fn extra_slot<P>(label: Seq<char>, window: Option<Window<P>>) -> Seq<SlotView<P>> {
    if window is Some {
        seq![weekly(label, window)]
    } else {
        Seq::empty()
    }
}

/// The slots of the expanded panel.
pub open spec fn expanded_slots<P>(r: LimitsReading<Window<P>>) -> Seq<SlotView<P>> {
    extra_slot("Weekly Opus"@, r.seven_day_opus) + extra_slot("Weekly Sonnet"@, r.seven_day_sonnet)
        + extra_slot("Weekly (credits incl.)"@, r.seven_day_overage_included)
}

/// The slots of the panel, in order.
pub open spec fn slots_of<P>(
    reading: Option<LimitsReading<Window<P>>>,
    expanded: bool,
) -> Seq<SlotView<P>> {
    let session = SlotView::Limit {
        label: "Session (5 h)"@,
        window: match reading {
            Some(r) => r.five_hour,
            None => None,
        },
        short: true,
    };
    let week = weekly(
        "Weekly (7 d)"@,
        match reading {
            Some(r) => r.seven_day,
            None => None,
        },
    );
    seq![session, week] + match reading {
        Some(r) => scoped_slots(r.limits@) + credit_slots(r.credits) + if expanded {
            expanded_slots(r)
        } else {
            Seq::empty()
        },
        None => Seq::empty(),
    }
}

/// The bar of a slot, where `clock` is the local time at which its window resets.
pub open spec fn slot_bar<P>(slot: SlotView<P>, stale: bool, now: Timestamp, clock: Seq<char>) -> Bar<
    P,
> {
    match slot {
        SlotView::Limit { label, window, short } => window_bar(
            label,
            window,
            stale,
            now,
            short,
            clock,
        ),
        SlotView::Credits { right, share } => Bar {
            label: "Usage credits (billed)"@,
            right,
            pct: Some(share),
            state: if stale {
                BarState::Stale
            } else {
                BarState::Fresh
            },
        },
    }
}

/// The window of a slot resets at a moment within the calendar.
pub open spec fn slot_valid<P>(slot: SlotView<P>) -> bool {
    slot matches SlotView::Limit { window, .. } ==> (window matches Some(w) ==> (
    w.resets_at matches Some(t) ==> t.valid()))
}

/// Every window that is shown resets at a moment within the calendar.
pub open spec fn resets_valid<P>(slots: Seq<SlotView<P>>) -> bool {
    forall|i: int|
        0 <= i < slots.len() ==> slot_valid(#[trigger] slots[i])
}

/// The bar of a slot shows when its window resets, as a local time.
pub open spec fn shows_clock<P>(slot: SlotView<P>, now: Timestamp) -> Option<Timestamp> {
    match slot {
        SlotView::Limit { window: Some(w), short: false, .. } => match w.resets_at {
            Some(t) => if now.earlier(t) {
                Some(t)
            } else {
                None
            },
            None => None,
        },
        _ => None,
    }
}

/// Each reset that is shown as a local time has a label, which says what a clock less than a
/// day away from UTC shows then.
pub open spec fn are_clocks<P>(
    clocks: Seq<Seq<char>>,
    slots: Seq<SlotView<P>>,
    now: Timestamp,
) -> bool {
    clocks.len() == slots.len() && forall|i: int|
        0 <= i < slots.len() ==> (shows_clock(#[trigger] slots[i], now) matches Some(t)
            ==> is_local_text(clocks[i], t, ClockStyle::WeekdayTime.format()))
}

fn push_extra<P: Copy>(slots: &mut Vec<Slot<P>>, label: &str, window: Option<Window<P>>)
    ensures
        slot_views(final(slots)@) == slot_views(old(slots)@) + extra_slot(label@, window),
{
    if window.is_some() {
        slots.push(Slot::Limit { label: label.to_owned(), window, short: false });
    }
    assert(slot_views(slots@) =~= slot_views(old(slots)@) + extra_slot(label@, window));
}

fn push_scoped<P: Copy>(slots: &mut Vec<Slot<P>>, limits: &Vec<ScopedLimit<Window<P>>>)
    ensures
        slot_views(final(slots)@) == slot_views(old(slots)@) + scoped_slots(limits@),
{
    let ghost before = slot_views(slots@);
    let mut i: usize = 0;
    assert(limits@.take(0) =~= Seq::empty());
    assert(before + scoped_slots(limits@.take(0)) =~= before);
    while i < limits.len()
        invariant
            i <= limits@.len(),
            slot_views(slots@) == before + scoped_slots(limits@.take(i as int)),
        decreases limits@.len() - i,
    {
        let l = &limits[i];
        let ghost done = scoped_slots(limits@.take(i as int));
        assert(limits@.take(i + 1).drop_last() =~= limits@.take(i as int));
        assert(limits@.take(i + 1).last() == l);
        if str_eq(l.kind.as_str(), "weekly_scoped") {
            let mut label = "Weekly ".to_owned();
            match &l.scope {
                Some(s) => label.append(s.as_str()),
                None => label.append("model"),
            }
            let slot = Slot::Limit { label, window: Some(l.window), short: false };
            assert(slot_views(slots@.push(slot)) =~= slot_views(slots@).push(slot@));
            slots.push(slot);
            assert(before + done.push(slot@) =~= (before + done).push(slot@));
        }
        i += 1;
    }
    assert(limits@.take(i as int) =~= limits@);
}

/// The slots of the panel.
fn make_slots<P: Copy>(reading: &Option<LimitsReading<Window<P>>>, expanded: bool) -> (r: Vec<
    Slot<P>,
>)
    ensures
        slot_views(r@) == slots_of(*reading, expanded),
{
    let (five_hour, seven_day) = match reading {
        Some(r) => (r.five_hour, r.seven_day),
        None => (None, None),
    };
    let mut slots: Vec<Slot<P>> = Vec::new();
    slots.push(
        Slot::Limit { label: "Session (5 h)".to_owned(), window: five_hour, short: true },
    );
    slots.push(
        Slot::Limit { label: "Weekly (7 d)".to_owned(), window: seven_day, short: false },
    );
    let ghost head = slot_views(slots@);
    if let Some(r) = reading {
        push_scoped(&mut slots, &r.limits);
        let ghost with_scoped = slot_views(slots@);
        if let Some(c) = &r.credits {
            if c.enabled {
                let mut right = c.used.clone();
                if let Some(limit) = &c.limit {
                    right.append(" of ");
                    right.append(limit.as_str());
                }
                right.append(" this month");
                slots.push(Slot::Credits { right, share: c.share.shown });
            }
        }
        assert(slot_views(slots@) =~= with_scoped + credit_slots(r.credits));
        let ghost with_credits = slot_views(slots@);
        if expanded {
            push_extra(&mut slots, "Weekly Opus", r.seven_day_opus);
            push_extra(&mut slots, "Weekly Sonnet", r.seven_day_sonnet);
            push_extra(&mut slots, "Weekly (credits incl.)", r.seven_day_overage_included);
            assert(slot_views(slots@) =~= with_credits + expanded_slots(*r));
        }
    }
    assert(slot_views(slots@) =~= slots_of(*reading, expanded));
    slots
}

/// The bars of a list of slots, each with the local time at which its window resets.
pub open spec fn slot_bars<P>(
    slots: Seq<SlotView<P>>,
    stale: bool,
    now: Timestamp,
    clocks: Seq<Seq<char>>,
) -> Seq<Bar<P>> {
    Seq::new(slots.len(), |i: int| slot_bar(slots[i], stale, now, clocks[i]))
}

fn make_bars<P: Copy>(
    slots: Vec<Slot<P>>,
    stale: bool,
    now: Timestamp,
    clocks: &Vec<String>,
) -> (r: Vec<BarRow<P>>)
    requires
        now.valid(),
        resets_valid(slot_views(slots@)),
        clocks@.len() >= slots@.len(),
    ensures
        bars_of(r@) == slot_bars(slot_views(slots@), stale, now, texts(clocks@)),
{
    let ghost all = slots@;
    let ghost wanted = slot_bars(slot_views(all), stale, now, texts(clocks@));
    let mut bars: Vec<BarRow<P>> = Vec::new();
    let size: usize = clocks.len();
    let mut i: usize = 0;
    for slot in it: slots
        invariant
            it.seq() == all,
            i == it.index(),
            now.valid(),
            resets_valid(slot_views(all)),
            size == clocks@.len(),
            size >= all.len(),
            wanted == slot_bars(slot_views(all), stale, now, texts(clocks@)),
            bars_of(bars@) =~= wanted.take(i as int),
    {
        proof {
            let v = slot_views(all)[i as int];
            assert(v == slot@);
            assert(slot_valid(v));
            assert(texts(clocks@)[i as int] == clocks@[i as int]@);
        }
        let row = match slot {
            Slot::Limit { label, window, short } => bar(
                label,
                window,
                stale,
                now,
                short,
                clocks[i].as_str(),
            ),
            Slot::Credits { right, share } => BarRow {
                label: "Usage credits (billed)".to_owned(),
                right,
                pct: Some(share),
                state: if stale {
                    BarState::Stale
                } else {
                    BarState::Fresh
                },
            },
        };
        assert(row@ == wanted[i as int]);
        assert(bars_of(bars@.push(row)) =~= bars_of(bars@).push(row@));
        bars.push(row);
        i += 1;
    }
    assert(wanted.take(all.len() as int) =~= wanted);
    bars
}

/// The two lines on today's usage.
pub open spec fn today_lines(scan: ScanView) -> (Seq<char>, Seq<char>) {
    if scan.loading {
        (
            "Scanning transcripts..."@,
            if scan.progress.total > 0 {
                decimal(scan.progress.done as nat) + " / "@ + decimal(scan.progress.total as nat)
                    + " files"@
            } else {
                Seq::empty()
            },
        )
    } else if !scan.root_exists {
        ("No "@ + product::title_case() + " Code transcripts found"@, Seq::empty())
    } else {
        (
            "Today: "@ + totals_text(scan.today),
            product::title_case() + " Code on this PC - list-price estimate, not billing"@,
        )
    }
}

fn make_today(scan: &ScanView) -> (r: (String, String))
    ensures
        (r.0@, r.1@) == today_lines(*scan),
{
    if scan.loading {
        let mut sub = String::new();
        if scan.progress.total > 0 {
            sub = decimal_of(scan.progress.done as u128);
            sub.append(" / ");
            sub.append(decimal_of(scan.progress.total as u128).as_str());
            sub.append(" files");
        }
        assert(scan.progress.total == 0 ==> sub@ =~= Seq::empty());
        ("Scanning transcripts...".to_owned(), sub)
    } else if !scan.root_exists {
        let sub = String::new();
        assert(sub@ =~= Seq::empty());
        let mut line = "No ".to_owned();
        line.append(product::title().as_str());
        line.append(" Code transcripts found");
        (line, sub)
    } else {
        let mut line = "Today: ".to_owned();
        line.append(totals_line(&scan.today).as_str());
        let mut sub = product::title();
        sub.append(" Code on this PC - list-price estimate, not billing");
        (line, sub)
    }
}

/// The footer and whether it is a warning.
pub open spec fn footer_of(
    error: Option<Seq<char>>,
    age: Option<int>,
    fetching: bool,
    stale_nanos: int,
) -> (Seq<char>, bool) {
    match (error, age) {
        (None, Some(a)) => ("limits fetched "@ + age_text(whole_seconds(a)), a > stale_nanos),
        (Some(e), Some(a)) => (
            "last fetch failed ("@ + e + "); showing reading from "@ + age_text(whole_seconds(a)),
            true,
        ),
        (Some(e), None) => ("limits unavailable: "@ + e, true),
        (None, None) => (
            if fetching {
                "fetching limits..."@
            } else {
                "limits not fetched yet"@
            },
            false,
        ),
    }
}

/// The nanoseconds of an optional length of time.
pub open spec fn opt_nanos(d: Option<Duration>) -> Option<int> {
    match d {
        Some(d) => Some(d.nanos as int),
        None => None,
    }
}

fn make_footer(error: &Option<String>, age: Option<Duration>, fetching: bool, stale_after: Duration)
    -> (r: (String, bool))
    ensures
        (r.0@, r.1) == footer_of(
            opt_text(*error),
            opt_nanos(age),
            fetching,
            stale_after.nanos as int,
        ),
{
    match (error, age) {
        (None, Some(a)) => {
            let mut s = "limits fetched ".to_owned();
            s.append(fmt_age(a).as_str());
            (s, a.nanos > stale_after.nanos)
        },
        (Some(e), Some(a)) => {
            let mut s = "last fetch failed (".to_owned();
            s.append(e.as_str());
            s.append("); showing reading from ");
            s.append(fmt_age(a).as_str());
            (s, true)
        },
        (Some(e), None) => {
            let mut s = "limits unavailable: ".to_owned();
            s.append(e.as_str());
            (s, true)
        },
        (None, None) => (
            if fetching {
                "fetching limits...".to_owned()
            } else {
                "limits not fetched yet".to_owned()
            },
            false,
        ),
    }
}

/// The header of a section.
pub open spec fn header(text: Seq<char>) -> (Seq<char>, Seq<char>) {
    (Seq::empty(), text)
}

/// The rows of the surfaces that have used something.
pub open spec fn surface_rows(list: Seq<SurfaceShare>) -> Seq<(Seq<char>, Seq<char>)>
    decreases list.len(),
{
    if list.len() == 0 {
        Seq::empty()
    } else {
        let b = list.last();
        let before = surface_rows(list.drop_last());
        if b.used {
            before.push((b.display_name@, b.percent@ + "% of this week's use"@))
        } else {
            before
        }
    }
}

/// The section on surfaces.
pub open spec fn surface_section(list: Seq<SurfaceShare>) -> Seq<(Seq<char>, Seq<char>)> {
    if list.len() == 0 {
        Seq::empty()
    } else {
        seq![header("Weekly window by surface"@)] + surface_rows(list)
    }
}

/// The section on models: the first five.
pub open spec fn model_section(scan: ScanView) -> Seq<(Seq<char>, Seq<char>)> {
    let n = scan.by_model@.len();
    if n == 0 {
        Seq::empty()
    } else {
        seq![header("By model - last 7 days"@)] + Seq::new(
            if n < 5 {
                n
            } else {
                5
            },
            |i: int| (scan.by_model@[i].model@, totals_text(scan.by_model@[i].estimate)),
        )
    }
}

/// The section on days, each under its label.
pub open spec fn day_section(scan: ScanView, days: Seq<Seq<char>>) -> Seq<(Seq<char>, Seq<char>)> {
    if scan.daily@.len() == 0 {
        Seq::empty()
    } else {
        seq![header("Last 7 days"@)] + Seq::new(
            scan.daily@.len(),
            |i: int| (days[i], totals_text(scan.daily@[i].estimate)),
        )
    }
}

/// The rows of the expanded panel.
pub open spec fn detail_of<P>(
    scan: ScanView,
    reading: Option<LimitsReading<Window<P>>>,
    expanded: bool,
    days: Seq<Seq<char>>,
) -> Seq<(Seq<char>, Seq<char>)> {
    if expanded {
        let surfaces = match reading {
            Some(r) => surface_section(r.breakdown@),
            None => Seq::empty(),
        };
        let hint = header("click to collapse - right-click for menu"@);
        surfaces + model_section(scan) + day_section(scan, days) + seq![hint]
    } else {
        Seq::empty()
    }
}

fn push_header(rows: &mut Vec<(String, String)>, text: &str)
    ensures
        rows_of(final(rows)@) == rows_of(old(rows)@).push(header(text@)),
{
    let empty = String::new();
    assert(empty@ =~= Seq::<char>::empty());
    let row = (empty, text.to_owned());
    assert(rows_of(rows@.push(row)) =~= rows_of(rows@).push((row.0@, row.1@)));
    rows.push(row);
}

fn push_surfaces(rows: &mut Vec<(String, String)>, list: &Vec<SurfaceShare>)
    ensures
        rows_of(final(rows)@) == rows_of(old(rows)@) + surface_section(list@),
{
    if list.len() == 0 {
        assert(rows_of(rows@) + surface_section(list@) =~= rows_of(rows@));
        return;
    }
    push_header(rows, "Weekly window by surface");
    let ghost before = rows_of(rows@);
    let mut i: usize = 0;
    assert(list@.take(0) =~= Seq::empty());
    assert(before + surface_rows(list@.take(0)) =~= before);
    while i < list.len()
        invariant
            i <= list@.len(),
            rows_of(rows@) == before + surface_rows(list@.take(i as int)),
        decreases list@.len() - i,
    {
        let b = &list[i];
        let ghost done = surface_rows(list@.take(i as int));
        assert(list@.take(i + 1).drop_last() =~= list@.take(i as int));
        assert(list@.take(i + 1).last() == b);
        if b.used {
            let mut right = b.percent.clone();
            right.append("% of this week's use");
            let row = (b.display_name.clone(), right);
            assert(rows_of(rows@.push(row)) =~= rows_of(rows@).push((row.0@, row.1@)));
            rows.push(row);
            assert(before + done.push((row.0@, row.1@)) =~= (before + done).push(
                (row.0@, row.1@),
            ));
        }
        i += 1;
    }
    assert(list@.take(i as int) =~= list@);
    assert(rows_of(rows@) =~= rows_of(old(rows)@) + surface_section(list@));
}

fn push_models(rows: &mut Vec<(String, String)>, scan: &ScanView)
    ensures
        rows_of(final(rows)@) == rows_of(old(rows)@) + model_section(*scan),
{
    if scan.by_model.len() == 0 {
        assert(rows_of(rows@) + model_section(*scan) =~= rows_of(rows@));
        return;
    }
    push_header(rows, "By model - last 7 days");
    let ghost start = rows_of(old(rows)@);
    let n: usize = if scan.by_model.len() < 5 {
        scan.by_model.len()
    } else {
        5
    };
    let ghost section = model_section(*scan);
    assert(section.take(1) =~= seq![header("By model - last 7 days"@)]);
    assert(rows_of(rows@) =~= start + section.take(1));
    let mut i: usize = 0;
    while i < n
        invariant
            i <= n <= scan.by_model@.len(),
            section == model_section(*scan),
            section.len() == n + 1,
            n >= 1,
            n == 5 || n == scan.by_model@.len(),
            rows_of(rows@) == start + section.take(i + 1),
        decreases n - i,
    {
        let m = &scan.by_model[i];
        let row = (m.model.clone(), totals_line(&m.estimate));
        assert(section[i + 1] == (row.0@, row.1@));
        assert(rows_of(rows@.push(row)) =~= rows_of(rows@).push((row.0@, row.1@)));
        rows.push(row);
        assert(start + section.take(i + 2) =~= (start + section.take(i + 1)).push(section[i + 1]));
        i += 1;
    }
    assert(section.take(n + 1) =~= section);
}

fn push_days(rows: &mut Vec<(String, String)>, scan: &ScanView, days: &Vec<String>)
    requires
        days@.len() >= scan.daily@.len(),
    ensures
        rows_of(final(rows)@) == rows_of(old(rows)@) + day_section(*scan, texts(days@)),
{
    if scan.daily.len() == 0 {
        assert(rows_of(rows@) + day_section(*scan, texts(days@)) =~= rows_of(rows@));
        return;
    }
    push_header(rows, "Last 7 days");
    let ghost start = rows_of(old(rows)@);
    let ghost section = day_section(*scan, texts(days@));
    assert(section.take(1) =~= seq![header("Last 7 days"@)]);
    assert(rows_of(rows@) =~= start + section.take(1));
    let mut i: usize = 0;
    while i < scan.daily.len()
        invariant
            i <= scan.daily@.len(),
            scan.daily@.len() >= 1,
            days@.len() >= scan.daily@.len(),
            section == day_section(*scan, texts(days@)),
            section.len() == scan.daily@.len() + 1,
            rows_of(rows@) == start + section.take(i + 1),
        decreases scan.daily@.len() - i,
    {
        let row = (days[i].clone(), totals_line(&scan.daily[i].estimate));
        assert(section[i + 1] == (row.0@, row.1@));
        assert(rows_of(rows@.push(row)) =~= rows_of(rows@).push((row.0@, row.1@)));
        rows.push(row);
        assert(start + section.take(i + 2) =~= (start + section.take(i + 1)).push(section[i + 1]));
        i += 1;
    }
    assert(section.take(i + 1) =~= section);
}

fn make_detail<P>(
    scan: &ScanView,
    reading: &Option<LimitsReading<Window<P>>>,
    expanded: bool,
    days: &Vec<String>,
) -> (r: Vec<(String, String)>)
    requires
        expanded ==> days@.len() >= scan.daily@.len(),
    ensures
        rows_of(r@) == detail_of(*scan, *reading, expanded, texts(days@)),
{
    let mut rows: Vec<(String, String)> = Vec::new();
    assert(rows_of(rows@) =~= Seq::empty());
    if expanded {
        if let Some(r) = reading {
            push_surfaces(&mut rows, &r.breakdown);
        }
        push_models(&mut rows, scan);
        push_days(&mut rows, scan, days);
        push_header(&mut rows, "click to collapse - right-click for menu");
        assert(rows_of(rows@) =~= detail_of(*scan, *reading, expanded, texts(days@)));
    }
    rows
}

/// What the panel shows, where `clocks` holds the local time at which the window of each slot
/// resets and `days` the label of each day.
pub open spec fn shown<P>(
    scan: ScanView,
    limits: LimitsView<P>,
    stale_after_secs: u64,
    now: Timestamp,
    now_i: Instant,
    expanded: bool,
    clocks: Seq<Seq<char>>,
    days: Seq<Seq<char>>,
) -> Shown<P> {
    let stale_nanos = stale_after_secs * NANOS;
    let age = match limits.last_success {
        Some(t) => Some(now_i.since(t)),
        None => None,
    };
    let (today, today_sub) = today_lines(scan);
    let (footer, footer_warn) = footer_of(
        opt_text(limits.error),
        age,
        limits.fetching,
        stale_nanos,
    );
    Shown {
        bars: slot_bars(
            slots_of(limits.reading, expanded),
            is_stale(age, stale_nanos),
            now,
            clocks,
        ),
        today,
        today_sub,
        footer,
        footer_warn,
        detail: detail_of(scan, limits.reading, expanded, days),
        expanded,
    }
}

/// What the panel shows, with these labels for the resets of the slots and for the days.
pub fn build_with<P: Copy, F>(
    scan: &ScanView,
    limits: &LimitsView<P>,
    settings: &Settings<F>,
    now: Timestamp,
    now_i: Instant,
    expanded: bool,
    clocks: &Vec<String>,
    days: &Vec<String>,
) -> (r: ViewModel<P>)
    requires
        now.valid(),
        resets_valid(slots_of(limits.reading, expanded)),
        clocks@.len() >= slots_of(limits.reading, expanded).len(),
        expanded ==> days@.len() >= scan.daily@.len(),
    ensures
        r@ == shown(
            *scan,
            *limits,
            settings.stale_after_secs,
            now,
            now_i,
            expanded,
            texts(clocks@),
            texts(days@),
        ),
{
    let stale_after = Duration::from_secs(settings.stale_after_secs);
    let age = match limits.last_success {
        Some(t) => Some(now_i.duration_since(t)),
        None => None,
    };
    let stale = match age {
        Some(a) => a.nanos > stale_after.nanos,
        None => true,
    };
    let slots = make_slots(&limits.reading, expanded);
    assert(slot_views(slots@).len() == slots@.len());
    let bars = make_bars(slots, stale, now, clocks);
    let (today, today_sub) = make_today(scan);
    let (footer, footer_warn) = make_footer(&limits.error, age, limits.fetching, stale_after);
    let detail = make_detail(scan, &limits.reading, expanded, days);
    ViewModel { bars, today, today_sub, footer, footer_warn, detail, expanded }
}

/// The label of each day.
pub open spec fn day_labels(scan: ScanView) -> Seq<Seq<char>> {
    Seq::new(scan.daily@.len(), |i: int| date_text(scan.daily@[i].date.day, "%a %d %b"@))
}

fn make_day_labels(scan: &ScanView) -> (r: Vec<String>)
    requires
        days_valid(*scan),
    ensures
        texts(r@) == day_labels(*scan),
{
    let mut days: Vec<String> = Vec::new();
    let mut i: usize = 0;
    while i < scan.daily.len()
        invariant
            i <= scan.daily@.len(),
            forall|k: int| 0 <= k < scan.daily@.len() ==> (#[trigger] scan.daily@[k]).date.valid(),
            texts(days@) =~= day_labels(*scan).take(i as int),
        decreases scan.daily@.len() - i,
    {
        let label = format_date(scan.daily[i].date, "%a %d %b");
        assert(texts(days@.push(label)) =~= texts(days@).push(label@));
        days.push(label);
        i += 1;
    }
    assert(day_labels(*scan).take(i as int) =~= day_labels(*scan));
    days
}

/// The reset that the bar of a slot shows as a local time.
fn clock_of<P: Copy>(slot: &Slot<P>, now: Timestamp) -> (r: Option<Timestamp>)
    ensures
        r == shows_clock(slot@, now),
{
    match slot {
        Slot::Limit { window: Some(w), short: false, .. } => match w.resets_at {
            Some(t) => if now.is_before(t) {
                Some(t)
            } else {
                None
            },
            None => None,
        },
        _ => None,
    }
}

/// The local time at which the window of each slot resets, where it is shown.
fn make_clocks<P: Copy>(slots: &Vec<Slot<P>>, now: Timestamp) -> (r: Vec<String>)
    requires
        resets_valid(slot_views(slots@)),
    ensures
        are_clocks(texts(r@), slot_views(slots@), now),
{
    let mut clocks: Vec<String> = Vec::new();
    let mut i: usize = 0;
    while i < slots.len()
        invariant
            i <= slots@.len(),
            resets_valid(slot_views(slots@)),
            clocks@.len() == i,
            forall|k: int|
                0 <= k < i ==> (shows_clock(#[trigger] slot_views(slots@)[k], now) matches Some(t)
                    ==> is_local_text(clocks@[k]@, t, ClockStyle::WeekdayTime.format())),
        decreases slots@.len() - i,
    {
        let ghost slot = slot_views(slots@)[i as int];
        assert(slot == slots@[i as int]@);
        assert(slot_valid(slot));
        clocks.push(
            match clock_of(&slots[i], now) {
                Some(t) => local_text(t, ClockStyle::WeekdayTime),
                None => String::new(),
            },
        );
        i += 1;
    }
    clocks
}

/// The days of a scan lie within the calendar.
pub open spec fn days_valid(scan: ScanView) -> bool {
    forall|i: int| 0 <= i < scan.daily@.len() ==> (#[trigger] scan.daily@[i]).date.valid()
}

/// Whether [`build`] has an answer.
pub fn can_build<P: Copy>(
    scan: &ScanView,
    limits: &LimitsView<P>,
    now: Timestamp,
    expanded: bool,
) -> (r: bool)
    ensures
        r == (now.valid() && resets_valid(slots_of(limits.reading, expanded)) && days_valid(
            *scan,
        )),
{
    let slots = make_slots(&limits.reading, expanded);
    let ghost all = slot_views(slots@);
    let mut i: usize = 0;
    while i < slots.len()
        invariant
            i <= slots@.len(),
            all == slot_views(slots@),
            all == slots_of(limits.reading, expanded),
            forall|k: int|
                0 <= k < i ==> slot_valid(#[trigger] all[k]),
        decreases slots@.len() - i,
    {
        let slot = &slots[i];
        assert(all[i as int] == slot@);
        if let Slot::Limit { window: Some(w), .. } = slot {
            if let Some(t) = w.resets_at {
                if !t.is_valid() {
                    assert(!slot_valid(all[i as int]));
                    return false;
                }
            }
        }
        assert(slot_valid(all[i as int]));
        i += 1;
    }
    i = 0;
    while i < scan.daily.len()
        invariant
            i <= scan.daily@.len(),
            forall|k: int| 0 <= k < i ==> (#[trigger] scan.daily@[k]).date.valid(),
        decreases scan.daily@.len() - i,
    {
        if !scan.daily[i].date.is_valid() {
            return false;
        }
        i += 1;
    }
    now.is_valid()
}

/// What the panel shows, with labels for the resets in the local time of this machine.
pub fn build<P: Copy, F>(
    scan: &ScanView,
    limits: &LimitsView<P>,
    settings: &Settings<F>,
    now: Timestamp,
    now_i: Instant,
    expanded: bool,
) -> (r: ViewModel<P>)
    requires
        now.valid(),
        resets_valid(slots_of(limits.reading, expanded)),
        days_valid(*scan),
    ensures
        exists|clocks: Seq<Seq<char>>|
            are_clocks(clocks, slots_of(limits.reading, expanded), now) && r@ == #[trigger] shown(
                *scan,
                *limits,
                settings.stale_after_secs,
                now,
                now_i,
                expanded,
                clocks,
                day_labels(*scan),
            ),
{
    let slots = make_slots(&limits.reading, expanded);
    assert(slot_views(slots@).len() == slots@.len());
    let clocks = make_clocks(&slots, now);
    let days = make_day_labels(scan);
    assert(days@.len() == texts(days@).len());
    build_with(scan, limits, settings, now, now_i, expanded, &clocks, &days)
}

/// Expanding the panel never makes it smaller, and adds at least a line.
pub proof fn expanded_panel_is_taller<P>(
    scan: ScanView,
    limits: LimitsView<P>,
    stale_after_secs: u64,
    now: Timestamp,
    now_i: Instant,
    clocks: Seq<Seq<char>>,
    days: Seq<Seq<char>>,
)
    ensures
        shown(scan, limits, stale_after_secs, now, now_i, true, clocks, days).height() > shown(
            scan,
            limits,
            stale_after_secs,
            now,
            now_i,
            false,
            clocks,
            days,
        ).height(),
{
    let a = shown(scan, limits, stale_after_secs, now, now_i, true, clocks, days);
    let b = shown(scan, limits, stale_after_secs, now, now_i, false, clocks, days);
    assert(a.bars.len() >= b.bars.len());
    assert(a.bars.len() * ROW_BAR >= b.bars.len() * ROW_BAR);
    assert(a.detail.len() * ROW_TEXT >= 0);
}

/// A window that has reset is never shown with a figure, and one without a reading never as
/// fresh.
pub proof fn old_figures_are_not_shown<P>(
    label: Seq<char>,
    window: Option<Window<P>>,
    stale: bool,
    now: Timestamp,
    short: bool,
    clock: Seq<char>,
)
    ensures
        ({
            let b = window_bar(label, window, stale, now, short, clock);
            &&& b.state is Missing <==> window is None
            &&& b.pct is Some <==> b.state is Fresh || b.state is Stale
            &&& window matches Some(w) ==> (w.resets_at matches Some(t) ==> (b.state is Expired
                <==> !now.earlier(t)))
            &&& b.state is Fresh ==> !stale
        }),
{
}

/// What is shown stands for just what its fields hold.
pub proof fn rows_are_taken_as_they_are<P>(b: BarRow<P>, m: ViewModel<P>)
    ensures
        b@.label == b.label@,
        b@.right == b.right@,
        b@.pct == b.pct,
        b@.state == b.state,
        m@.bars.len() == m.bars@.len(),
        forall|i: int| 0 <= i < m.bars@.len() ==> m@.bars[i] == (#[trigger] m.bars@[i])@,
        m@.today == m.today@,
        m@.today_sub == m.today_sub@,
        m@.footer == m.footer@,
        m@.footer_warn == m.footer_warn,
        m@.detail.len() == m.detail@.len(),
        forall|i: int|
            0 <= i < m.detail@.len() ==> m@.detail[i] == ((#[trigger] m.detail@[i]).0@, m.detail@[
                i
            ].1@),
        m@.expanded == m.expanded,
{
}

/// The panel has room for each bar, for each line, and for the details only where they are
/// shown.
pub proof fn height_has_room_for_everything<P>(m: Shown<P>)
    ensures
        !m.expanded ==> m.height() == 97 + 44 * m.bars.len(),
        m.expanded ==> m.height() == 97 + 44 * m.bars.len() + 6 + 17 * m.detail.len(),
{
}

/// The bar of a window bears its label. It shows the percentage of the window as long as the
/// window has not reset, and no percentage afterwards or without a window.
pub proof fn bars_show_their_windows<P>(
    label: Seq<char>,
    window: Option<Window<P>>,
    stale: bool,
    now: Timestamp,
    short: bool,
    clock: Seq<char>,
)
    ensures
        ({
            let b = window_bar(label, window, stale, now, short, clock);
            let over = window matches Some(w) && w.resets_at is Some && (now.secs
                > w.resets_at->0.secs || (now.secs == w.resets_at->0.secs && now.nanos
                >= w.resets_at->0.nanos));
            &&& b.label == label
            &&& window is None ==> b.pct is None && b.state is Missing && b.right == "no data"@
            &&& over ==> b.pct is None && b.state is Expired && b.right
                == "window reset - no newer reading"@
            &&& window is Some && !over ==> {
                let w = window->0;
                &&& b.pct == Some(w.shown)
                &&& b.state is Stale <==> stale
                &&& b.state is Fresh <==> !stale
                &&& w.resets_at is None ==> b.right.len() == 0
                &&& w.resets_at is Some && !short ==> b.right == "resets "@ + clock
                &&& w.resets_at is Some && short ==> b.right == "resets in "@ + duration_text(
                    whole_seconds(nanos_between(w.resets_at->0, now)),
                )
            }
        }),
{
}

/// The bar of a slot is that of its window, or of the usage credits with what was spent.
pub proof fn slots_make_their_bars<P>(
    slot: SlotView<P>,
    stale: bool,
    now: Timestamp,
    clock: Seq<char>,
)
    ensures
        ({
            let b = slot_bar(slot, stale, now, clock);
            &&& slot matches SlotView::Limit { label, window, short } ==> b == window_bar(
                label,
                window,
                stale,
                now,
                short,
                clock,
            )
            &&& slot matches SlotView::Credits { right, share } ==> {
                &&& b.label == "Usage credits (billed)"@
                &&& b.right == right
                &&& b.pct == Some(share)
                &&& b.state is Stale <==> stale
                &&& b.state is Fresh <==> !stale
            }
        }),
{
}

/// The limits of a reading that are weekly windows of one model or other scope.
pub open spec fn is_scoped<W>() -> spec_fn(ScopedLimit<W>) -> bool {
    |l: ScopedLimit<W>| l.kind@ == "weekly_scoped"@
}

proof fn lemma_scoped_slots<P>(limits: Seq<ScopedLimit<Window<P>>>)
    ensures
        scoped_slots(limits).len() == limits.filter(is_scoped()).len(),
        forall|i: int|
            0 <= i < limits.filter(is_scoped()).len() ==> {
                let l = limits.filter(is_scoped())[i];
                #[trigger] scoped_slots(limits)[i] == (SlotView::Limit {
                    label: if l.scope is Some {
                        "Weekly "@ + l.scope->0@
                    } else {
                        "Weekly "@ + "model"@
                    },
                    window: Some(l.window),
                    short: false,
                })
            },
    decreases limits.len(),
{
    reveal(Seq::filter);
    if limits.len() > 0 {
        lemma_scoped_slots(limits.drop_last());
    }
}

/// One where there is a window, and else none.
pub open spec fn present<W>(w: Option<W>) -> int {
    if w is Some {
        1
    } else {
        0
    }
}

/// Every panel has the session and the week first. Behind them stand the weekly windows of a
/// scope in the order of the reading, one bar for each; then the usage credits, if they are
/// enabled; and in the expanded panel one bar for each of the other weekly windows that there
/// is. Nothing else is shown.
pub proof fn which_slots_there_are<P>(r: LimitsReading<Window<P>>, expanded: bool)
    ensures
        ({
            let slots = slots_of(Some(r), expanded);
            let scoped = r.limits@.filter(is_scoped());
            let credits = r.credits is Some && r.credits->0.enabled;
            let at = 2 + scoped.len() + if credits {
                1int
            } else {
                0
            };
            let opus = at + present(r.seven_day_opus);
            let sonnet = opus + present(r.seven_day_sonnet);
            let week = SlotView::Limit {
                label: "Weekly (7 d)"@,
                window: r.seven_day,
                short: false,
            };
            &&& slots[0] == (SlotView::Limit {
                label: "Session (5 h)"@,
                window: r.five_hour,
                short: true,
            })
            &&& slots[1] == week
            &&& forall|i: int|
                0 <= i < scoped.len() ==> {
                    let s = #[trigger] slots[2 + i];
                    &&& s is Limit && s->window == Some(scoped[i].window) && !s->short
                    &&& scoped[i].scope matches Some(name) ==> s->label == "Weekly "@ + name@
                    &&& scoped[i].scope is None ==> s->label == "Weekly "@ + "model"@
                }
            &&& credits ==> {
                let s = slots[2 + scoped.len() as int];
                let c = r.credits->0;
                &&& s is Credits && s->share == c.share.shown
                &&& c.limit matches Some(l) ==> s->right == c.used@ + " of "@ + l@
                    + " this month"@
                &&& c.limit is None ==> s->right == c.used@ + " this month"@
            }
            &&& !expanded ==> slots.len() == at
            &&& expanded ==> slots.len() == sonnet + present(r.seven_day_overage_included)
            &&& expanded && r.seven_day_opus is Some ==> slots[at] == (SlotView::Limit {
                label: "Weekly Opus"@,
                window: r.seven_day_opus,
                short: false,
            })
            &&& expanded && r.seven_day_sonnet is Some ==> slots[opus] == (SlotView::Limit {
                label: "Weekly Sonnet"@,
                window: r.seven_day_sonnet,
                short: false,
            })
            &&& expanded && r.seven_day_overage_included is Some ==> slots[sonnet] == (
            SlotView::Limit {
                label: "Weekly (credits incl.)"@,
                window: r.seven_day_overage_included,
                short: false,
            })
        }),
{
    lemma_scoped_slots(r.limits@);
    let slots = slots_of(Some(r), expanded);
    let scoped = r.limits@.filter(is_scoped());
    assert forall|i: int| 0 <= i < scoped.len() implies {
        let s = #[trigger] slots[2 + i];
        &&& s is Limit && s->window == Some(scoped[i].window) && !s->short
        &&& scoped[i].scope matches Some(name) ==> s->label == "Weekly "@ + name@
        &&& scoped[i].scope is None ==> s->label == "Weekly "@ + "model"@
    } by {
        assert(slots[2 + i] == scoped_slots(r.limits@)[i]);
    }
}

/// Before there is a reading, the panel has the two main bars without a window.
pub proof fn without_a_reading<P>(expanded: bool)
    ensures
        ({
            let slots = slots_of(None::<LimitsReading<Window<P>>>, expanded);
            &&& slots.len() == 2
            &&& slots[0] == (SlotView::<P>::Limit {
                label: "Session (5 h)"@,
                window: None,
                short: true,
            })
            &&& slots[1] == (SlotView::<P>::Limit {
                label: "Weekly (7 d)"@,
                window: None,
                short: false,
            })
        }),
{
}

/// A window is shown as it stands in the reading: some bar bears the label and the percentage.
pub open spec fn has_bar<P>(m: Shown<P>, label: Seq<char>, pct: P) -> bool {
    exists|i: int|
        0 <= i < m.bars.len() && (#[trigger] m.bars[i]).label == label && m.bars[i].pct == Some(pct)
}

/// The window has not reset at `now`.
pub open spec fn is_running<P>(w: Window<P>, now: Timestamp) -> bool {
    w.resets_at matches Some(t) ==> now.secs < t.secs || (now.secs == t.secs && now.nanos
        < t.nanos)
}

/// Expanding the panel keeps all its bars and adds one for each of the other weekly windows:
/// each of these that is still running is shown with its own percentage under its own label.
pub proof fn expanding_adds_the_other_windows<P>(
    scan: ScanView,
    limits: LimitsView<P>,
    stale_after_secs: u64,
    now: Timestamp,
    now_i: Instant,
    clocks: Seq<Seq<char>>,
    days: Seq<Seq<char>>,
)
    requires
        limits.reading is Some,
    ensures
        ({
            let r = limits.reading->0;
            let small = shown(scan, limits, stale_after_secs, now, now_i, false, clocks, days);
            let large = shown(scan, limits, stale_after_secs, now, now_i, true, clocks, days);
            &&& large.bars.len() == small.bars.len() + present(r.seven_day_opus) + present(
                r.seven_day_sonnet,
            ) + present(r.seven_day_overage_included)
            &&& large.bars.take(small.bars.len() as int) == small.bars
            &&& r.seven_day_opus matches Some(w) ==> (is_running(w, now) ==> has_bar(
                large,
                "Weekly Opus"@,
                w.shown,
            ))
            &&& r.seven_day_sonnet matches Some(w) ==> (is_running(w, now) ==> has_bar(
                large,
                "Weekly Sonnet"@,
                w.shown,
            ))
            &&& r.seven_day_overage_included matches Some(w) ==> (is_running(w, now) ==> has_bar(
                large,
                "Weekly (credits incl.)"@,
                w.shown,
            ))
        }),
{
    let r = limits.reading->0;
    let small = shown(scan, limits, stale_after_secs, now, now_i, false, clocks, days);
    let large = shown(scan, limits, stale_after_secs, now, now_i, true, clocks, days);
    which_slots_there_are(r, true);
    which_slots_there_are(r, false);
    assert(large.bars.take(small.bars.len() as int) =~= small.bars);
    let at = small.bars.len() as int;
    let opus = at + present(r.seven_day_opus);
    let sonnet = opus + present(r.seven_day_sonnet);
    if let Some(w) = r.seven_day_opus {
        if is_running(w, now) {
            assert(large.bars[at].label == "Weekly Opus"@ && large.bars[at].pct == Some(w.shown));
        }
    }
    if let Some(w) = r.seven_day_sonnet {
        if is_running(w, now) {
            assert(large.bars[opus].label == "Weekly Sonnet"@ && large.bars[opus].pct == Some(
                w.shown,
            ));
        }
    }
    if let Some(w) = r.seven_day_overage_included {
        if is_running(w, now) {
            assert(large.bars[sonnet].label == "Weekly (credits incl.)"@
                && large.bars[sonnet].pct == Some(w.shown));
        }
    }
}

/// The windows of a reading that are still running are always shown, with their own percentages
/// under their own labels: the session, the week, and that of every scope; so are enabled
/// usage credits.
pub proof fn main_windows_are_always_shown<P>(
    scan: ScanView,
    limits: LimitsView<P>,
    stale_after_secs: u64,
    now: Timestamp,
    now_i: Instant,
    expanded: bool,
    clocks: Seq<Seq<char>>,
    days: Seq<Seq<char>>,
    i: int,
)
    requires
        limits.reading is Some,
    ensures
        ({
            let r = limits.reading->0;
            let m = shown(scan, limits, stale_after_secs, now, now_i, expanded, clocks, days);
            &&& r.five_hour matches Some(w) ==> (is_running(w, now) ==> has_bar(
                m,
                "Session (5 h)"@,
                w.shown,
            ))
            &&& r.seven_day matches Some(w) ==> (is_running(w, now) ==> has_bar(
                m,
                "Weekly (7 d)"@,
                w.shown,
            ))
            &&& 0 <= i < r.limits@.len() && r.limits@[i].kind@ == "weekly_scoped"@ && is_running(
                r.limits@[i].window,
                now,
            ) ==> has_bar(
                m,
                if r.limits@[i].scope is Some {
                    "Weekly "@ + r.limits@[i].scope->0@
                } else {
                    "Weekly "@ + "model"@
                },
                r.limits@[i].window.shown,
            )
            &&& r.credits matches Some(c) ==> (c.enabled ==> has_bar(
                m,
                "Usage credits (billed)"@,
                c.share.shown,
            ))
        }),
{
    let r = limits.reading->0;
    let m = shown(scan, limits, stale_after_secs, now, now_i, expanded, clocks, days);
    let slots = slots_of(limits.reading, expanded);
    which_slots_there_are(r, expanded);
    assert(m.bars.len() == slots.len());
    assert(m.bars[0].label == "Session (5 h)"@);
    assert(m.bars[1].label == "Weekly (7 d)"@);
    let scoped = r.limits@.filter(is_scoped());
    if 0 <= i < r.limits@.len() && r.limits@[i].kind@ == "weekly_scoped"@ && is_running(
        r.limits@[i].window,
        now,
    ) {
        r.limits@.lemma_filter_contains(is_scoped(), i);
        let k = choose|k: int| 0 <= k < scoped.len() && scoped[k] == r.limits@[i];
        assert(slots[2 + k] is Limit);
        assert(m.bars[2 + k].pct == Some(r.limits@[i].window.shown));
    }
    if r.credits is Some && r.credits->0.enabled {
        let k = 2 + scoped.len() as int;
        assert(slots[k] is Credits);
        assert(m.bars[k].label == "Usage credits (billed)"@);
    }
}

/// Bars are drawn as stale exactly when the last successful fetch lies longer back than the
/// settings allow, or never was.
pub proof fn bars_go_stale<P>(
    scan: ScanView,
    limits: LimitsView<P>,
    stale_after_secs: u64,
    now: Timestamp,
    now_i: Instant,
    expanded: bool,
    clocks: Seq<Seq<char>>,
    days: Seq<Seq<char>>,
    i: int,
)
    ensures
        ({
            let m = shown(scan, limits, stale_after_secs, now, now_i, expanded, clocks, days);
            let stale = match limits.last_success {
                Some(t) => now_i.nanos - t.nanos > stale_after_secs * 1_000_000_000,
                None => true,
            };
            0 <= i < m.bars.len() && m.bars[i].pct is Some ==> (m.bars[i].state is Stale <==> stale)
                && (m.bars[i].state is Fresh <==> !stale)
        }),
{
}

/// Labels of resets go to the bars that show one: those of windows that are still running, but
/// for the session, which shows the time left.
pub proof fn which_bars_show_a_clock<P>(slot: SlotView<P>, now: Timestamp)
    ensures
        shows_clock(slot, now) is Some <==> slot is Limit && !slot->short && slot->window is Some
            && slot->window->0.resets_at is Some && is_running(slot->window->0, now),
        shows_clock(slot, now) is Some ==> shows_clock(slot, now) == slot->window->0.resets_at,
{
}

/// Each bar has its own label for its reset.
pub proof fn clocks_go_with_their_bars<P>(
    slots: Seq<SlotView<P>>,
    stale: bool,
    now: Timestamp,
    clocks: Seq<Seq<char>>,
    i: int,
)
    requires
        0 <= i < slots.len(),
    ensures
        slot_bars(slots, stale, now, clocks).len() == slots.len(),
        slot_bars(slots, stale, now, clocks)[i] == slot_bar(slots[i], stale, now, clocks[i]),
{
}

/// A count of tokens is shown in full below a thousand; above in thousands or millions, with one
/// decimal place below ten of them, by the nearest such figure; only where doubles get coarse is
/// it not always the nearest, but still less than one unit of the last place off.
pub proof fn token_counts_are_close(n: nat)
    requires
        n < 0x20_0000_0000_0000,
    ensures
        n < 1_000 ==> tokens_text(n) == decimal(n),
        1_000 <= n < 10_000 ==> exists|x: nat|
            tokens_text(n) == #[trigger] crate::figures::with_places(x, 1) + "k"@ && -1_000 <= 2 * (
            x * 1_000 - n * 10) <= 1_000,
        10_000 <= n < 1_000_000 ==> exists|x: nat|
            tokens_text(n) == #[trigger] crate::figures::with_places(x, 0) + "k"@ && -1_000 <= 2 * (
            x * 1_000 - n) <= 1_000,
        1_000_000 <= n < 10_000_000 ==> exists|x: nat|
            tokens_text(n) == #[trigger] crate::figures::with_places(x, 1) + "M"@ && -1_000_000 <= 2
                * (x * 1_000_000 - n * 10) <= 1_000_000,
        10_000_000 <= n ==> exists|x: nat|
            tokens_text(n) == #[trigger] crate::figures::with_places(x, 0) + "M"@ && -1_000_000 < x
                * 1_000_000 - n < 1_000_000 && (n < 45_000_000_000_000 ==> -1_000_000 <= 2 * (x
                * 1_000_000 - n) <= 1_000_000),
{
    if 1_000 <= n < 10_000 {
        crate::figures::figures_are_nearest(n, 1_000, 1);
        let x = crate::figures::rounded(n, 1_000, 10);
        assert(tokens_text(n) == crate::figures::with_places(x, 1) + "k"@);
    }
    if 10_000 <= n < 1_000_000 {
        crate::figures::figures_are_nearest(n, 1_000, 0);
        let x = crate::figures::rounded(n, 1_000, 1);
        assert(tokens_text(n) == crate::figures::with_places(x, 0) + "k"@);
    }
    if 1_000_000 <= n < 10_000_000 {
        crate::figures::figures_are_nearest(n, 1_000_000, 1);
        let x = crate::figures::rounded(n, 1_000_000, 10);
        assert(tokens_text(n) == crate::figures::with_places(x, 1) + "M"@);
    }
    if 10_000_000 <= n {
        crate::figures::figures_are_close(n, 1_000_000, 0);
        if n < 45_000_000_000_000 {
            crate::figures::figures_are_nearest(n, 1_000_000, 0);
        }
        let x = crate::figures::rounded(n, 1_000_000, 1);
        assert(tokens_text(n) == crate::figures::with_places(x, 0) + "M"@);
    }
}

/// A length of time is shown in days and whole hours, in hours and whole minutes, or in whole
/// minutes: what is shown is never more than the time, and less than one more of the smaller
/// unit short of it.
pub proof fn durations_are_shown_in_whole_units(secs: nat)
    ensures
        secs >= 86_400 ==> exists|d: nat, h: nat|
            duration_text(secs) == #[trigger] (decimal(d) + "d "@ + decimal(h) + "h"@) && h < 24
                && d * 86_400 + h * 3_600 <= secs < d * 86_400 + h * 3_600 + 3_600,
        3_600 <= secs < 86_400 ==> exists|h: nat, m: nat|
            duration_text(secs) == #[trigger] (decimal(h) + "h "@ + two_digits(m) + "m"@) && m < 60
                && h * 3_600 + m * 60 <= secs < h * 3_600 + m * 60 + 60,
        secs < 3_600 ==> exists|m: nat|
            duration_text(secs) == #[trigger] (decimal(m) + "m"@) && m * 60 <= secs < m * 60 + 60,
{
    if secs >= 86_400 {
        let d = secs / 86_400;
        let h = secs % 86_400 / 3600;
        assert(duration_text(secs) == decimal(d) + "d "@ + decimal(h) + "h"@);
    } else if secs >= 3_600 {
        let h = secs / 3600;
        let m = secs % 3600 / 60;
        assert(duration_text(secs) == decimal(h) + "h "@ + two_digits(m) + "m"@);
    } else {
        let m = secs % 3600 / 60;
        assert(duration_text(secs) == decimal(m) + "m"@);
    }
}

/// Minutes are shown with two digits, and a zero first where they have one.
pub proof fn minutes_have_two_digits(m: nat)
    requires
        m < 60,
    ensures
        two_digits(m).len() == 2,
        crate::text::number_of(two_digits(m)) == m,
{
    reveal_strlit("0");
    reveal_with_fuel(decimal, 3);
    reveal_with_fuel(crate::text::number_of, 3);
    crate::text::decimal_notation_reads_back(m);
    if m < 10 {
        let s = two_digits(m);
        assert(s.drop_last() =~= seq!['0']);
        assert(s.drop_last().drop_last() =~= Seq::<char>::empty());
    }
}

/// Negative lengths of time show as none, others by their whole seconds.
pub proof fn only_whole_seconds_count(nanos: int)
    ensures
        nanos < 0 ==> whole_seconds(nanos) == 0,
        nanos >= 0 ==> whole_seconds(nanos) * 1_000_000_000 <= nanos < (whole_seconds(nanos) + 1)
            * 1_000_000_000,
{
}

/// An age is shown in seconds, in whole minutes, or in hours and whole minutes.
pub proof fn ages_are_shown_in_whole_units(secs: nat)
    ensures
        secs < 60 ==> age_text(secs) == decimal(secs) + "s ago"@,
        60 <= secs < 3_600 ==> exists|m: nat|
            age_text(secs) == #[trigger] (decimal(m) + "m ago"@) && m * 60 <= secs < m * 60 + 60,
        secs >= 3_600 ==> exists|h: nat, m: nat|
            age_text(secs) == #[trigger] (decimal(h) + "h "@ + decimal(m) + "m ago"@) && m < 60
                && h * 3_600 + m * 60 <= secs < h * 3_600 + m * 60 + 60,
{
    if 60 <= secs < 3_600 {
        let m = secs / 60;
        assert(age_text(secs) == decimal(m) + "m ago"@);
    } else if secs >= 3_600 {
        let h = secs / 3600;
        let m = secs % 3600 / 60;
        assert(age_text(secs) == decimal(h) + "h "@ + decimal(m) + "m ago"@);
    }
}

/// Totals show their tokens and their cost, and the tokens without a price where there are any.
pub proof fn totals_show_tokens_and_cost(e: Estimate)
    ensures
        e.unpriced == 0 ==> totals_text(e) == tokens_text(e.tokens as nat) + " tokens - est. $"@
            + e.cost@,
        e.unpriced > 0 ==> totals_text(e) == tokens_text(e.tokens as nat) + " tokens - est. $"@
            + e.cost@ + (" (+"@ + tokens_text(e.unpriced as nat) + " unpriced)"@),
{
    assert(tokens_text(e.tokens as nat) + " tokens - est. $"@ + e.cost@ + Seq::<char>::empty()
        =~= tokens_text(e.tokens as nat) + " tokens - est. $"@ + e.cost@);
}

/// While a scan is under way its progress is shown and no totals; then that nothing was found,
/// or the totals of today. Limits have no part in it.
pub proof fn what_is_said_of_today(scan: ScanView)
    ensures
        ({
            let (first, second) = today_lines(scan);
            &&& scan.loading ==> first == "Scanning transcripts..."@
            &&& scan.loading && scan.progress.total == 0 ==> second.len() == 0
            &&& scan.loading && scan.progress.total > 0 ==> second == decimal(
                scan.progress.done as nat,
            ) + " / "@ + decimal(scan.progress.total as nat) + " files"@
            &&& !scan.loading && !scan.root_exists ==> first == "No "@ + product::title_case()
                + " Code transcripts found"@ && second.len() == 0
            &&& !scan.loading && scan.root_exists ==> first == "Today: "@ + totals_text(scan.today)
                && second == product::title_case()
                + " Code on this PC - list-price estimate, not billing"@
        }),
{
}

/// The footer tells how old the reading is, and why there is no newer one. It warns exactly when
/// the last fetch failed or the reading is too old.
pub proof fn what_the_footer_says(
    error: Option<Seq<char>>,
    age: Option<int>,
    fetching: bool,
    stale_nanos: int,
)
    ensures
        ({
            let (text, warn) = footer_of(error, age, fetching, stale_nanos);
            let secs = whole_seconds(age->0);
            &&& warn <==> error is Some || (age is Some && age->0 > stale_nanos)
            &&& error is None && age is Some ==> text == "limits fetched "@ + age_text(secs)
            &&& error is Some && age is Some ==> text == "last fetch failed ("@ + error->0
                + "); showing reading from "@ + age_text(secs)
            &&& error is Some && age is None ==> text == "limits unavailable: "@ + error->0
            &&& error is None && age is None && fetching ==> text == "fetching limits..."@
            &&& error is None && age is None && !fetching ==> text == "limits not fetched yet"@
        }),
{
}

/// The surfaces that have used something.
pub open spec fn has_used() -> spec_fn(SurfaceShare) -> bool {
    |b: SurfaceShare| b.used
}

proof fn lemma_surface_rows(list: Seq<SurfaceShare>)
    ensures
        surface_rows(list).len() == list.filter(has_used()).len(),
        forall|i: int|
            0 <= i < list.filter(has_used()).len() ==> #[trigger] surface_rows(list)[i] == (
                list.filter(has_used())[i].display_name@,
                list.filter(has_used())[i].percent@ + "% of this week's use"@,
            ),
    decreases list.len(),
{
    reveal(Seq::filter);
    if list.len() > 0 {
        lemma_surface_rows(list.drop_last());
    }
}

/// The section on surfaces has a row with name and share for each that has used something, in
/// order, under a header; without any surface there is no section.
pub proof fn surfaces_that_used_something_are_listed(list: Seq<SurfaceShare>)
    ensures
        list.len() == 0 ==> surface_section(list).len() == 0,
        list.len() > 0 ==> {
            let rows = surface_section(list);
            let used = list.filter(has_used());
            &&& rows.len() == used.len() + 1
            &&& rows[0].0.len() == 0 && rows[0].1 == "Weekly window by surface"@
            &&& forall|i: int|
                0 <= i < used.len() ==> (#[trigger] rows[i + 1]).0 == used[i].display_name@
                    && rows[i + 1].1 == used[i].percent@ + "% of this week's use"@
        },
{
    lemma_surface_rows(list);
    let rows = surface_section(list);
    let used = list.filter(has_used());
    if list.len() > 0 {
        assert forall|i: int| 0 <= i < used.len() implies (#[trigger] rows[i + 1]).0
            == used[i].display_name@ && rows[i + 1].1 == used[i].percent@
            + "% of this week's use"@ by {
            assert(rows[i + 1] == surface_rows(list)[i]);
        }
    }
}

/// The section on models has a row for each of the first five, and that on days for every day,
/// each with its totals, under a header.
pub proof fn models_and_days_are_listed(scan: ScanView, days: Seq<Seq<char>>)
    ensures
        scan.by_model@.len() == 0 ==> model_section(scan).len() == 0,
        scan.by_model@.len() > 0 ==> {
            let rows = model_section(scan);
            &&& scan.by_model@.len() <= 5 ==> rows.len() == scan.by_model@.len() + 1
            &&& scan.by_model@.len() > 5 ==> rows.len() == 6
            &&& rows[0].0.len() == 0 && rows[0].1 == "By model - last 7 days"@
            &&& forall|i: int|
                0 <= i < rows.len() - 1 ==> (#[trigger] rows[i + 1]).0 == scan.by_model@[i].model@
                    && rows[i + 1].1 == totals_text(scan.by_model@[i].estimate)
        },
        scan.daily@.len() == 0 ==> day_section(scan, days).len() == 0,
        scan.daily@.len() > 0 ==> {
            let rows = day_section(scan, days);
            &&& rows.len() == scan.daily@.len() + 1
            &&& rows[0].0.len() == 0 && rows[0].1 == "Last 7 days"@
            &&& forall|i: int|
                0 <= i < scan.daily@.len() ==> (#[trigger] rows[i + 1]).0 == days[i] && rows[i
                    + 1].1 == totals_text(scan.daily@[i].estimate)
        },
{
}

/// The expanded panel has the sections on surfaces, models and days, in this order, and a hint
/// at the end; the collapsed one has no details.
pub proof fn details_are_shown_when_expanded<P>(
    scan: ScanView,
    reading: Option<LimitsReading<Window<P>>>,
    days: Seq<Seq<char>>,
)
    ensures
        detail_of(scan, reading, false, days).len() == 0,
        ({
            let rows = detail_of(scan, reading, true, days);
            let surfaces = if reading is Some {
                surface_section(reading->0.breakdown@)
            } else {
                Seq::empty()
            };
            &&& rows == surfaces + model_section(scan) + day_section(scan, days) + seq![
                rows.last(),
            ]
            &&& rows.last().0.len() == 0
            &&& rows.last().1 == "click to collapse - right-click for menu"@
        }),
{
}

/// What the panel says of today, of the limits and in its details goes by the scan, by the
/// outcome of the last fetch, and by both.
pub proof fn the_panel_shows_everything<P>(
    scan: ScanView,
    limits: LimitsView<P>,
    stale_after_secs: u64,
    now: Timestamp,
    now_i: Instant,
    expanded: bool,
    clocks: Seq<Seq<char>>,
    days: Seq<Seq<char>>,
)
    ensures
        ({
            let m = shown(scan, limits, stale_after_secs, now, now_i, expanded, clocks, days);
            let age = match limits.last_success {
                Some(t) => Some(
                    if now_i.nanos >= t.nanos {
                        now_i.nanos - t.nanos
                    } else {
                        0
                    },
                ),
                None => None,
            };
            let error = match limits.error {
                Some(e) => Some(e@),
                None => None,
            };
            &&& (m.today, m.today_sub) == today_lines(scan)
            &&& (m.footer, m.footer_warn) == footer_of(
                error,
                age,
                limits.fetching,
                stale_after_secs * 1_000_000_000,
            )
            &&& m.detail == detail_of(scan, limits.reading, expanded, days)
            &&& m.expanded == expanded
        }),
{
}

/// Each day is labelled with its own date.
pub proof fn days_bear_their_dates(scan: ScanView, i: int)
    requires
        0 <= i < scan.daily@.len(),
    ensures
        day_labels(scan).len() == scan.daily@.len(),
        day_labels(scan)[i] == date_text(scan.daily@[i].date.day, "%a %d %b"@),
{
}

/// The largest counts of tokens are shown in millions as well.
pub proof fn large_token_counts_are_close(n: nat)
    requires
        0x20_0000_0000_0000 <= n <= u64::MAX,
    ensures
        exists|x: nat|
            tokens_text(n) == #[trigger] crate::figures::with_places(x, 0) + "M"@ && -1_002_048 < x
                * 1_000_000 - n < 1_002_048,
{
    crate::figures::large_figures_are_close(n, 0);
    let x = crate::figures::rounded(n, 1_000_000, 1);
    assert(tokens_text(n) == crate::figures::with_places(x, 0) + "M"@);
}

/// Resets are asked to lie within the calendar where there are any, and days in any case.
pub proof fn what_must_lie_in_the_calendar<P>(slots: Seq<SlotView<P>>, scan: ScanView)
    ensures
        (forall|i: int|
            0 <= i < slots.len() ==> ((#[trigger] slots[i]) matches SlotView::Limit {
                window: Some(w),
                ..
            } ==> (w.resets_at matches Some(t) ==> t.valid()))) ==> resets_valid(slots),
        (forall|i: int| 0 <= i < scan.daily@.len() ==> (#[trigger] scan.daily@[i]).date.valid())
            ==> days_valid(scan),
{
}

/// Clocks are labelled if each reset that is shown as a local time is, with the day of the week.
pub proof fn which_labels_are_clocks<P>(
    clocks: Seq<Seq<char>>,
    slots: Seq<SlotView<P>>,
    now: Timestamp,
    i: int,
)
    requires
        are_clocks(clocks, slots, now),
    ensures
        clocks.len() == slots.len(),
        0 <= i < slots.len() ==> (shows_clock(slots[i], now) matches Some(t) ==> is_local_text(
            clocks[i],
            t,
            "%a %H:%M"@,
        )),
{
}

} // verus!
