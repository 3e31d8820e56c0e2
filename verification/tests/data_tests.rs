use usage_core::data::{
    gather, gather_over, progress_due, worth_publishing, Estimate, FetchClock, FetchOutcome, Found,
    LimitsView, Live, Progress, ScanView, Timing, WakeState,
};
use usage_core::aggregate::{last_days, span_bounds, today, totals, DayBounds};
use usage_core::model::{TokenUsage, UsageEvent};
use usage_core::pricing::PricingTable;
use usage_core::store::UsageStore;
use usage_core::time::{local_date, Instant, Timestamp, Zone};

fn at(secs: u128) -> Instant {
    Instant { nanos: secs * 1_000_000_000 }
}

fn timing() -> Timing {
    Timing {
        rescan_visible_secs: 15,
        rescan_hidden_secs: 300,
        limits_visible_secs: 60,
        limits_hidden_secs: 300,
        limits_min_gap_secs: 60,
    }
}

#[test]
fn wake_ups() {
    let mut w = WakeState::new();
    assert!(w.may_sleep());
    assert!(!w.set_visible(false));
    assert!(w.set_visible(true));
    assert!(w.visible && w.refresh_now && !w.may_sleep());
    assert_eq!(w.woken(), Some(true));
    assert!(!w.set_visible(true));
    assert_eq!(w.woken(), Some(false));
    assert!(w.set_visible(false));
    assert!(!w.refresh_now);
    w.refresh_now();
    assert_eq!(w.woken(), Some(true));
    w.quit();
    assert!(!w.may_sleep());
    assert_eq!(w.woken(), None);
}

#[test]
fn live_settings_count_their_versions() {
    let mut l = Live::new("a");
    assert_eq!(l.version, 0);
    l.update_settings("b");
    assert_eq!((l.version, l.value), (1, "b"));
}

#[test]
fn fetches_wait_for_their_period_and_the_gap() {
    let t = timing();
    let mut c = FetchClock::new();
    assert!(c.turn(&t, false, at(1000)));
    assert!(!c.turn(&t, false, at(1299)));
    assert!(!c.turn(&t, true, at(1059)));
    assert!(c.turn(&t, true, at(1060)));
    assert!(!c.after_scan(&t, true, at(1100)));
    assert!(!c.after_scan(&t, false, at(1200)));
    assert!(c.after_scan(&t, true, at(1120)));
    assert_eq!(c.last_attempt, Some(at(1120)));
    // A gap longer than the period counts.
    let slow = Timing { limits_min_gap_secs: 500, ..t };
    assert!(!c.turn(&slow, true, at(1619)));
    assert!(c.turn(&slow, true, at(1620)));
    let mut first = FetchClock::new();
    assert!(first.after_scan(&t, true, at(0)));
}

#[test]
fn no_two_fetches_are_closer_than_the_gap() {
    let t = Timing { limits_visible_secs: 5, ..timing() };
    let mut c = FetchClock::new();
    let mut last: Option<u128> = None;
    for s in 0..2000u128 {
        let fetch = if s % 3 == 0 {
            c.turn(&t, s % 2 == 0, at(s))
        } else {
            c.after_scan(&t, s % 5 != 0, at(s))
        };
        if fetch {
            assert!(last.map_or(true, |l| s - l >= 60));
            last = Some(s);
        }
    }
    assert!(last.is_some());
}

#[test]
fn rescan_periods() {
    assert_eq!(timing().rescan_period(true).nanos, 15_000_000_000);
    assert_eq!(timing().rescan_period(false).nanos, 300_000_000_000);
}

#[test]
fn publishing_and_progress() {
    assert!(!worth_publishing(0, 0, 0, false));
    assert!(worth_publishing(1, 0, 0, false));
    assert!(worth_publishing(0, 1, 0, false));
    assert!(worth_publishing(0, 0, 1, false));
    assert!(worth_publishing(0, 0, 0, true));
    let ms = |n: u128| Instant { nanos: n * 1_000_000 };
    assert!(!progress_due(ms(0), ms(120)));
    assert!(progress_due(ms(0), ms(121)));
}

fn outcome(error: Option<&str>, refreshed: Option<bool>) -> FetchOutcome<f64> {
    FetchOutcome {
        reading: None,
        error: error.map(String::from),
        source: None,
        refreshed,
    }
}

#[test]
fn a_failed_fetch_keeps_the_reading() {
    let mut v: LimitsView<f64> = LimitsView::new();
    assert!(v.begin_fetch(true, 3600, at(10)));
    assert!(v.fetching);
    assert_eq!(v.last_attempt, Some(at(10)));
    v.finish_fetch(outcome(Some("e"), Some(false)), at(12));
    assert!(!v.fetching);
    assert_eq!(v.error.as_deref(), Some("e"));
    assert_eq!(v.last_refresh_failure, Some(at(12)));
    assert_eq!(v.last_success, None);
    // Not again before the delay is over, and not at all against the settings.
    assert!(!v.begin_fetch(true, 3600, at(3611)));
    assert!(v.begin_fetch(true, 3600, at(3612)));
    assert!(!v.begin_fetch(false, 0, at(9999)));
    v.finish_fetch(FetchOutcome { source: Some("Env".into()), ..outcome(None, None) }, at(10_000));
    assert_eq!(v.error.as_deref(), Some("no reading"));
    assert_eq!(v.token_source.as_deref(), Some("Env"));
    assert_eq!(v.last_refresh_failure, Some(at(12)));
}

#[test]
fn a_week_is_gathered() {
    let mut s = UsageStore::new();
    let day: i64 = 86_400;
    let now = Timestamp { secs: 20_000 * day + 3600, nanos: 0 };
    for (i, age) in [0i64, 1, 6, 7].iter().enumerate() {
        s.upsert(
            UsageEvent {
                message_id: format!("{i}"),
                session_id: "s".into(),
                timestamp: Timestamp { secs: now.secs - age * day, nanos: 0 },
                model: format!("m{i}"),
                usage: TokenUsage { input: 10 + *age as u64, ..Default::default() },
                is_sidechain: false,
                fast: false,
            },
            0,
        );
    }
    let p: PricingTable<f64> = PricingTable::new("".into(), "".into(), "".into());
    let g = gather(&s, &p, Zone::Fixed(0), now);
    assert_eq!(g.responses, 4);
    assert_eq!(g.today.usage.input, 10);
    let inputs: Vec<u64> = g.daily.iter().map(|d| d.totals.usage.input).collect();
    assert_eq!(inputs, [16, 0, 0, 0, 0, 11, 10]);
    let models: Vec<&str> = g.by_model.iter().map(|m| m.model.as_str()).collect();
    assert_eq!(models, ["m2", "m1", "m0"]);
    assert_eq!(g.today.unpriced_tokens, 10);
    let local = gather(&s, &p, Zone::Local, now);
    assert_eq!(local.daily.len(), 7);
    assert_eq!(local.today, local.daily[6].totals);
    let days = last_days(Zone::Local, local.daily[6].date, 7);
    for (i, d) in days.iter().enumerate() {
        assert_eq!(local.daily[i].date, d.date);
        assert_eq!(local.daily[i].totals, totals(&s, &p, d.start, d.end));
        assert!(i == 0 || days[i - 1].end == d.start);
    }
    let models: u64 = local.by_model.iter().map(|m| m.totals.requests).sum();
    assert_eq!(models, totals(&s, &p, days[0].start, days[6].end).requests);
}

fn large(id: &str, secs: i64, input: u64, output: u64) -> UsageEvent {
    UsageEvent {
        message_id: id.into(),
        session_id: "s".into(),
        timestamp: Timestamp { secs, nanos: 0 },
        model: id.into(),
        usage: TokenUsage { input, output, ..Default::default() },
        is_sidechain: false,
        fast: false,
    }
}

#[test]
fn only_the_sums_that_are_asked_for_have_to_fit() {
    let day: i64 = 86_400;
    let now = Timestamp { secs: 20_000 * day + 3600, nanos: 0 };
    let mut s = UsageStore::new();
    s.upsert(large("a", now.secs, u64::MAX, 0), 0);
    s.upsert(large("b", now.secs - day, u64::MAX, 0), 0);
    let p: PricingTable<f64> = PricingTable::new("".into(), "".into(), "".into());
    assert_eq!(today(&s, &p, Zone::Fixed(0), now).usage.input, u64::MAX);
    let g = gather(&s, &p, Zone::Fixed(0), now);
    assert_eq!(g.by_model.len(), 2);
    assert_eq!(g.daily[5].totals.unpriced_tokens, u64::MAX);
}

#[test]
fn a_week_of_given_days() {
    let day: i64 = 86_400;
    let now = Timestamp { secs: 20_000 * day + 3600, nanos: 0 };
    let mut s = UsageStore::new();
    s.upsert(large("a", now.secs, 1, 2), 0);
    let p: PricingTable<f64> = PricingTable::new("".into(), "".into(), "".into());
    let zone = Zone::Fixed(0);
    let date = local_date(zone, now);
    let days = last_days(zone, date, 3);
    assert_eq!(days[2].date, date);
    assert_eq!((days[0].start.secs, days[0].end.secs), (19_998 * day, 19_999 * day));
    assert_eq!((days[0].end, days[1].end), (days[1].start, days[2].start));
    assert!(last_days(zone, date, 0).is_empty());
    let (start, end) = span_bounds(zone, date, 3);
    assert_eq!((start, end), (days[0].start, days[2].end));
    let g = gather_over(&s, &p, days[2], &days, DayBounds { date, start, end });
    assert_eq!(g.today.usage.output, 2);
    assert_eq!(g.daily.iter().map(|d| d.totals.requests).collect::<Vec<_>>(), [0, 0, 1]);
    assert_eq!(g.by_model[0].model, "a");
}

#[test]
fn scans_are_published() {
    let mut v = ScanView::new();
    assert!(!v.loading && !v.root_exists && v.last_scan.is_none());
    assert_eq!(v.today, Estimate { tokens: 0, cost: "0.00".into(), unpriced: 0 });
    v.loading = true;
    v.progress = Progress { done: 1, total: 2 };
    let today = Estimate { tokens: 3, cost: "1.00".into(), unpriced: 0 };
    let found = Found {
        today: today.clone(),
        daily: vec![],
        by_model: vec![],
        responses: 5,
        root_exists: true,
        error: Some("e".into()),
    };
    v.publish(found, at(9));
    assert!(!v.loading && v.root_exists);
    assert_eq!((v.today, v.responses, v.last_scan), (today, 5, Some(at(9))));
    assert_eq!(v.progress, Progress { done: 1, total: 2 });
    assert_eq!(v.error.as_deref(), Some("e"));
}
