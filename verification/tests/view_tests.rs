use usage_core::data::{
    DayEstimate, Estimate, LimitsView, ModelEstimate, Progress, ScanView,
};
use usage_core::limits::{Credits, LimitsReading, ScopedLimit, SurfaceShare, Window};
use usage_core::product;
use usage_core::settings::Settings;
use usage_core::time::{Date, Instant, Span, Timestamp};
use usage_core::view::{
    bar, build, build_with, can_build, fmt_duration, fmt_tokens, BarState,
};

fn now() -> Timestamp {
    Timestamp { secs: 1_789_000_000, nanos: 250_000_000 }
}

fn after(t: Timestamp, secs: i64) -> Timestamp {
    Timestamp { secs: t.secs + secs, nanos: t.nanos }
}

fn clock(secs: u128) -> Instant {
    Instant { nanos: secs * 1_000_000_000 }
}

fn settings() -> Settings<f64> {
    Settings::defaults(0.18, 0.06, "client".into())
}

fn window(pct: f64, resets_at: Timestamp) -> Option<Window<f64>> {
    Some(Window { used_percentage: pct, shown: pct.clamp(0.0, 100.0), resets_at: Some(resets_at) })
}

fn reading(now: Timestamp) -> LimitsReading<Window<f64>> {
    LimitsReading {
        fetched_at: now,
        five_hour: window(23.5, after(now, 133 * 60)),
        seven_day: window(41.0, after(now, 3 * 86_400)),
        seven_day_opus: None,
        seven_day_sonnet: None,
        seven_day_overage_included: None,
        overage: None,
        spend_limit: None,
        other: vec![],
        limits: vec![],
        credits: None,
        breakdown: vec![],
        raw: String::new(),
    }
}

fn estimate(tokens: u64, cost: &str, unpriced: u64) -> Estimate {
    Estimate { tokens, cost: cost.into(), unpriced }
}

fn scan() -> ScanView {
    ScanView {
        loading: false,
        progress: Progress { done: 0, total: 0 },
        today: estimate(0, "0.00", 0),
        daily: vec![],
        by_model: vec![],
        responses: 0,
        root_exists: false,
        last_scan: None,
        error: None,
    }
}

#[test]
fn fresh_reading_renders_bars_and_countdown() {
    let now_i = clock(100);
    let mut limits = LimitsView::new();
    limits.reading = Some(reading(now()));
    limits.last_success = Some(now_i);
    let vm = build(&scan(), &limits, &settings(), now(), now_i, false);
    assert_eq!(vm.bars.len(), 2);
    assert_eq!(vm.bars[0].state, BarState::Fresh);
    assert_eq!(vm.bars[0].pct, Some(23.5));
    assert_eq!(vm.bars[0].right, "resets in 2h 13m");
    assert!(vm.bars[1].right.starts_with("resets "));
    assert!(!vm.footer_warn);
    let local = chrono::DateTime::from_timestamp(now().secs + 3 * 86_400, 0)
        .unwrap()
        .with_timezone(&chrono::Local);
    assert_eq!(vm.bars[1].right, format!("resets {}", local.format("%a %H:%M")));
}

#[test]
fn old_reading_is_stale_and_passed_reset_is_expired() {
    let now_i = clock(10_000);
    let mut r = reading(now());
    r.seven_day = window(41.0, after(now(), -60));
    let mut limits = LimitsView::new();
    limits.reading = Some(r);
    limits.last_success = Some(clock(10_000 - 3600));
    let vm = build(&scan(), &limits, &settings(), now(), now_i, false);
    assert_eq!(vm.bars[0].state, BarState::Stale);
    assert_eq!(vm.bars[1].state, BarState::Expired);
    assert_eq!(vm.bars[1].pct, None);
    assert_eq!(vm.bars[1].right, "window reset - no newer reading");
    assert!(vm.footer_warn);
    assert_eq!(vm.footer, "limits fetched 1h 0m ago");
}

#[test]
fn no_reading_and_error_footer() {
    let mut limits: LimitsView<f64> = LimitsView::new();
    limits.error = Some("no OAuth token available".into());
    let vm = build(&scan(), &limits, &settings(), now(), clock(0), false);
    assert_eq!(vm.bars[0].state, BarState::Missing);
    assert!(vm.footer.contains("no OAuth token"));
    assert!(vm.footer_warn);
}

#[test]
fn loading_state_and_expanded_height() {
    let mut scan = scan();
    scan.loading = true;
    scan.progress = Progress { done: 3, total: 26 };
    let limits: LimitsView<f64> = LimitsView::new();
    let vm = build(&scan, &limits, &settings(), now(), clock(0), false);
    assert_eq!(vm.today, "Scanning transcripts...");
    assert_eq!(vm.today_sub, "3 / 26 files");
    let collapsed = vm.height();
    let vm2 = build(&scan, &limits, &settings(), now(), clock(0), true);
    assert!(vm2.height() > collapsed);
    assert_eq!(collapsed, 20 + 2 * 44 + 42 + 23 + 12);
    assert_eq!(vm2.height(), collapsed + 6 + 17);
}

#[test]
fn formatting() {
    assert_eq!(fmt_tokens(999), "999");
    assert_eq!(fmt_tokens(1_500), "1.5k");
    assert_eq!(fmt_tokens(25_000), "25k");
    assert_eq!(fmt_tokens(3_260_000), "3.3M");
    assert_eq!(fmt_duration(Span { secs: 7980, nanos: 0 }), "2h 13m");
    assert_eq!(fmt_duration(Span { secs: 90_000, nanos: 0 }), "1d 1h");
    assert_eq!(fmt_duration(Span { secs: -5, nanos: 0 }), "0m");
}

fn by_float(n: u64) -> String {
    if n >= 10_000_000 {
        format!("{:.0}M", n as f64 / 1e6)
    } else if n >= 1_000_000 {
        format!("{:.1}M", n as f64 / 1e6)
    } else if n >= 10_000 {
        format!("{:.0}k", n as f64 / 1e3)
    } else if n >= 1_000 {
        format!("{:.1}k", n as f64 / 1e3)
    } else {
        n.to_string()
    }
}

#[test]
fn figures_are_those_of_doubles() {
    for n in 0..120_000 {
        assert_eq!(fmt_tokens(n), by_float(n));
    }
    let mut n: u64 = 88172645463325252;
    for _ in 0..60_000 {
        n ^= n << 13;
        n ^= n >> 7;
        n ^= n << 17;
        for shift in [0, 8, 11, 12, 20, 30, 40] {
            assert_eq!(fmt_tokens(n >> shift), by_float(n >> shift));
        }
    }
    for k in 0..3_000u64 {
        for n in [k * 50_000 + 1_000_000, k * 500_000 + 10_000_000, k * 500_000 + 9_999_999] {
            assert_eq!(fmt_tokens(n), by_float(n));
        }
    }
    for n in [u64::MAX, u64::MAX - 1, 1 << 53, (1 << 53) + 1, (1 << 54) + 2, (1 << 63) + 1024] {
        assert_eq!(fmt_tokens(n), by_float(n));
    }
    assert_eq!(fmt_tokens(1_250), "1.2k");
    assert_eq!(fmt_tokens(1_350), "1.4k");
    assert_eq!(fmt_tokens(1_450), "1.4k");
    assert_eq!(fmt_tokens(10_500), "10k");
    assert_eq!(fmt_tokens(999_999), "1000k");
}

#[test]
fn durations_and_ages() {
    let d = |secs: i64| fmt_duration(Span { secs, nanos: 0 });
    assert_eq!(d(0), "0m");
    assert_eq!(d(59), "0m");
    assert_eq!(d(3599), "59m");
    assert_eq!(d(3600), "1h 00m");
    assert_eq!(d(86_399), "23h 59m");
    assert_eq!(d(86_400), "1d 0h");
    let footer = |secs: u128, error: Option<&str>, fetching: bool| {
        let mut limits: LimitsView<f64> = LimitsView::new();
        limits.last_success = Some(clock(0));
        limits.error = error.map(String::from);
        limits.fetching = fetching;
        let vm = build(&scan(), &limits, &settings(), now(), clock(secs), false);
        (vm.footer, vm.footer_warn)
    };
    assert_eq!(footer(59, None, false), ("limits fetched 59s ago".into(), false));
    assert_eq!(footer(899, None, true), ("limits fetched 14m ago".into(), false));
    assert_eq!(footer(901, None, false), ("limits fetched 15m ago".into(), true));
    assert_eq!(
        footer(7260, Some("e"), false),
        ("last fetch failed (e); showing reading from 2h 1m ago".into(), true)
    );
    let mut limits: LimitsView<f64> = LimitsView::new();
    let vm = build(&scan(), &limits, &settings(), now(), clock(0), false);
    assert_eq!((vm.footer.as_str(), vm.footer_warn), ("limits not fetched yet", false));
    limits.fetching = true;
    let vm = build(&scan(), &limits, &settings(), now(), clock(0), false);
    assert_eq!(vm.footer, "fetching limits...");
}

#[test]
fn every_row_of_the_expanded_panel() {
    let mut r = reading(now());
    r.seven_day_opus = window(5.0, after(now(), 10));
    r.seven_day_overage_included = window(6.0, after(now(), 10));
    let scoped = |kind: &str, scope: Option<&str>| ScopedLimit {
        kind: kind.into(),
        group: "weekly".into(),
        severity: "normal".into(),
        scope: scope.map(String::from),
        is_active: true,
        window: Window { used_percentage: 7.0, shown: 7.0, resets_at: None },
    };
    r.limits = vec![
        scoped("weekly_scoped", Some("Fable")),
        scoped("daily", Some("Fable")),
        scoped("weekly_scoped", None),
    ];
    r.credits = Some(Credits {
        enabled: true,
        used: "$1.00".into(),
        limit: Some("$5.00".into()),
        share: Window { used_percentage: 120.0, shown: 100.0, resets_at: None },
        limit_reached: false,
    });
    let share = |name: &str, used: bool| SurfaceShare {
        display_name: name.into(),
        used,
        percent: "12".into(),
    };
    r.breakdown = vec![share("CLI", true), share("Web", false)];
    let mut limits = LimitsView::new();
    limits.reading = Some(r);
    limits.last_success = Some(clock(5));
    let mut scan = scan();
    scan.root_exists = true;
    scan.today = estimate(1_500, "0.12", 2_000);
    for i in 0..7 {
        scan.by_model.push(ModelEstimate { model: format!("m{i}"), estimate: estimate(i, "1.00", 0) });
    }
    // 9 and 10 September 2026.
    for day in [739_868, 739_869] {
        scan.daily.push(DayEstimate { date: Date { day }, estimate: estimate(1, "2.00", 0) });
    }
    let clocks: Vec<String> = (0..8).map(|i| format!("c{i}")).collect();
    let days = vec!["d0".to_string(), "d1".to_string()];
    let vm = build_with(&scan, &limits, &settings(), now(), clock(5), true, &clocks, &days);
    let bars: Vec<(&str, &str)> =
        vm.bars.iter().map(|b| (b.label.as_str(), b.right.as_str())).collect();
    assert_eq!(
        bars,
        [
            ("Session (5 h)", "resets in 2h 13m"),
            ("Weekly (7 d)", "resets c1"),
            ("Weekly Fable", ""),
            ("Weekly model", ""),
            ("Usage credits (billed)", "$1.00 of $5.00 this month"),
            ("Weekly Opus", "resets c5"),
            ("Weekly (credits incl.)", "resets c6"),
        ]
    );
    assert_eq!(vm.bars[4].pct, Some(100.0));
    assert_eq!(vm.today, "Today: 1.5k tokens - est. $0.12 (+2.0k unpriced)");
    assert_eq!(
        vm.today_sub,
        format!("{} Code on this PC - list-price estimate, not billing", product::title())
    );
    let row = |a: &str, b: &str| (a.to_string(), b.to_string());
    assert_eq!(
        vm.detail,
        [
            row("", "Weekly window by surface"),
            row("CLI", "12% of this week's use"),
            row("", "By model - last 7 days"),
            row("m0", "0 tokens - est. $1.00"),
            row("m1", "1 tokens - est. $1.00"),
            row("m2", "2 tokens - est. $1.00"),
            row("m3", "3 tokens - est. $1.00"),
            row("m4", "4 tokens - est. $1.00"),
            row("", "Last 7 days"),
            row("d0", "1 tokens - est. $2.00"),
            row("d1", "1 tokens - est. $2.00"),
            row("", "click to collapse - right-click for menu"),
        ]
    );
    let vm = build(&scan, &limits, &settings(), now(), clock(5), true);
    assert_eq!(vm.detail[9].0, "Wed 09 Sep");
    assert_eq!(vm.detail[10].0, "Thu 10 Sep");
    let vm = build(&scan, &limits, &settings(), now(), clock(5), false);
    assert_eq!(vm.bars.len(), 5);
    assert!(vm.detail.is_empty());
}

#[test]
fn no_transcripts() {
    let limits: LimitsView<f64> = LimitsView::new();
    let vm = build(&scan(), &limits, &settings(), now(), clock(0), false);
    assert_eq!(vm.today, format!("No {} Code transcripts found", product::title()));
    assert_eq!(vm.today_sub, "");
    let mut loading = scan();
    loading.loading = true;
    let vm = build(&loading, &limits, &settings(), now(), clock(0), false);
    assert_eq!(vm.today_sub, "");
}

#[test]
fn bars_at_the_moment_of_reset() {
    let w = window(50.0, now());
    let b = bar("x".into(), w, false, now(), true, "c");
    assert_eq!(b.state, BarState::Expired);
    let just_before = Timestamp { nanos: now().nanos - 1, ..now() };
    let b = bar("x".into(), w, false, just_before, true, "c");
    assert_eq!((b.state, b.right.as_str()), (BarState::Fresh, "resets in 0m"));
    let b = bar("x".into(), w, true, just_before, false, "c");
    assert_eq!((b.state, b.right.as_str()), (BarState::Stale, "resets c"));
    let b = bar::<f64>("x".into(), None, false, now(), true, "c");
    assert_eq!((b.state, b.right.as_str(), b.pct), (BarState::Missing, "no data", None));
}

#[test]
fn resets_at_the_ends_of_the_calendar() {
    let last = Timestamp { secs: 8_210_266_876_799, nanos: 0 };
    let mut r = reading(now());
    r.five_hour = window(1.0, last);
    let mut limits = LimitsView::new();
    limits.reading = Some(r.clone());
    // The session window shows the time left, which there is.
    assert!(can_build(&scan(), &limits, now(), false));
    let vm = build(&scan(), &limits, &settings(), now(), clock(0), false);
    assert!(vm.bars[0].right.starts_with("resets in 95"));
    // The weekly window shows a local time, which every zone has.
    r.seven_day = window(1.0, last);
    limits.reading = Some(r.clone());
    assert!(can_build(&scan(), &limits, now(), false));
    let vm = build(&scan(), &limits, &settings(), now(), clock(0), false);
    assert_eq!(vm.bars[1].right.len(), "resets Fri 00:00".len());
    // A window that has reset shows no time.
    r.seven_day = window(1.0, Timestamp { secs: -8_334_601_228_800, nanos: 0 });
    r.seven_day_opus = window(1.0, Timestamp { secs: i64::MAX, nanos: 0 });
    limits.reading = Some(r);
    assert!(can_build(&scan(), &limits, now(), false));
    assert!(!can_build(&scan(), &limits, now(), true));
    assert!(!can_build(&scan(), &limits, Timestamp { secs: i64::MIN, nanos: 0 }, false));
    let mut s = scan();
    s.daily.push(DayEstimate { date: Date { day: i32::MAX }, estimate: estimate(1, "2.00", 0) });
    assert!(!can_build(&s, &limits, now(), false));
}

#[test]
fn bars_show_no_less_than_nothing_and_no_more_than_all() {
    for (used, shown) in [(150.0, 100.0), (-3.0, 0.0), (100.0, 100.0), (0.0, 0.0), (41.5, 41.5)] {
        let w = window(used, after(now(), 60));
        assert_eq!(bar("x".into(), w, false, now(), true, "").pct, Some(shown));
        let mut r = reading(now());
        r.seven_day = w;
        let mut limits = LimitsView::new();
        limits.reading = Some(r);
        let vm = build(&scan(), &limits, &settings(), now(), clock(0), false);
        assert_eq!(vm.bars[1].pct, Some(shown));
    }
}
