use usage_core::aggregate::{SessionTotals, Totals};
use usage_core::cli::{
    can_list, fmt_tokens, parse_number, read_options, reading_lines, session_line, session_lines,
    state_word, totals_line, Options, PrintedWindow,
};
use usage_core::limits::{Credits, LimitsReading, ScopedLimit, SurfaceShare};
use usage_core::model::TokenUsage;
use usage_core::snapshot::WindowState;
use usage_core::time::{local_text, ClockStyle, Timestamp};

fn options(args: &[&str]) -> Options {
    read_options(&args.iter().map(|a| a.to_string()).collect())
}

#[test]
fn options_and_defaults() {
    assert_eq!(
        options(&[]),
        Options { days: 7, json: false, limits: false, raw: false, refresh: true }
    );
    assert_eq!(
        options(&["--json", "--days", "30", "--limits", "--raw", "--no-refresh"]),
        Options { days: 30, json: true, limits: true, raw: true, refresh: false }
    );
    assert_eq!(options(&["--days"]).days, 7);
    assert_eq!(options(&["--days", "x"]).days, 7);
    assert_eq!(options(&["--days", "x", "--days", "3"]).days, 7);
    assert_eq!(options(&["--days", "0"]).days, 0);
    assert!(!options(&["json"]).json);
}

#[test]
fn numbers_are_read_as_std_reads_them() {
    for s in [
        "", "+", "-1", "0", "00012", "+5", "++5", "1 ", "99999999999999999999999",
        "18446744073709551615", "18446744073709551616", "４", "1_000",
    ] {
        assert_eq!(parse_number(s), s.parse::<usize>().ok(), "{s}");
    }
}

fn by_float(n: u64) -> String {
    if n >= 1_000_000 {
        format!("{:.2}M", n as f64 / 1e6)
    } else if n >= 1_000 {
        format!("{:.1}k", n as f64 / 1e3)
    } else {
        n.to_string()
    }
}

#[test]
fn token_counts() {
    for n in (0..3_000_000).step_by(7) {
        assert_eq!(fmt_tokens(n), by_float(n));
    }
    let mut n: u64 = 1181783497276652981;
    for _ in 0..20_000 {
        n ^= n << 13;
        n ^= n >> 7;
        n ^= n << 17;
        for shift in [0, 11, 12, 24, 36] {
            assert_eq!(fmt_tokens(n >> shift), by_float(n >> shift));
        }
    }
    assert_eq!(fmt_tokens(1_005_000), "1.00M");
    assert_eq!(fmt_tokens(12_345_678), "12.35M");
    assert_eq!(fmt_tokens(999), "999");
}

#[test]
fn a_line_of_totals() {
    let u = TokenUsage {
        input: 1014,
        output: 1370,
        cache_creation: 31356,
        cache_read: 35556,
        ..Default::default()
    };
    let expected = format!(
        "{:>8} tok  (in {:>7} | out {:>7} | cache write {:>7} | cache read {:>7})  {:>4} req  est ${:>7.2}",
        "69.3k", "1.0k", "1.4k", "31.4k", "35.6k", 4, 0.34
    );
    assert_eq!(totals_line(&u, 4, "0.34", 0), expected);
    assert_eq!(totals_line(&u, 4, "0.34", 2000), expected + "  (+2.0k unpriced)");
    let wide = totals_line(&u, 123_456, "12345678.90", 0);
    assert!(wide.ends_with("  123456 req  est $12345678.90"));
}

#[test]
fn words_for_states() {
    assert_eq!(state_word(WindowState::Fresh), "fresh");
    assert_eq!(state_word(WindowState::Stale), "STALE");
    assert_eq!(state_word(WindowState::Expired), "EXPIRED (window reset since capture)");
}

fn printed(percent: f64, resets: Option<&str>) -> PrintedWindow {
    PrintedWindow { percent: format!("{percent:.1}"), resets: resets.map(String::from) }
}

fn empty_reading() -> LimitsReading<PrintedWindow> {
    LimitsReading {
        fetched_at: Timestamp { secs: 0, nanos: 0 },
        five_hour: None,
        seven_day: None,
        seven_day_opus: None,
        seven_day_sonnet: None,
        seven_day_overage_included: None,
        overage: None,
        spend_limit: None,
        other: vec![],
        limits: vec![],
        credits: None,
        breakdown: vec![],
        raw: "{}".into(),
    }
}

#[test]
fn a_reading_is_printed() {
    let mut r = empty_reading();
    let absent = |name: &str| format!("{name:<28} absent");
    let windows = [
        "five_hour", "seven_day", "seven_day_opus", "seven_day_sonnet",
        "seven_day_overage_included", "overage", "spend_limit",
    ];
    let mut expected: Vec<String> = windows.iter().map(|n| absent(n)).collect();
    expected.push("--- limits array ---".into());
    assert_eq!(reading_lines(&r, false), expected);

    r.five_hour = Some(printed(23.45, Some("noon")));
    r.seven_day = Some(printed(100.0, None));
    r.other = vec![("extra".into(), printed(5.0, None))];
    let scoped = |active: bool, scope: Option<&str>| ScopedLimit {
        kind: "weekly_scoped".into(),
        group: "weekly".into(),
        severity: "normal".into(),
        scope: scope.map(String::from),
        is_active: active,
        window: printed(7.25, None),
    };
    r.limits = vec![scoped(true, Some("Fable")), scoped(false, None)];
    r.credits = Some(Credits {
        enabled: true,
        used: "$1.00".into(),
        limit: None,
        share: printed(20.0, None),
        limit_reached: true,
    });
    r.breakdown =
        vec![SurfaceShare { display_name: "CLI".into(), used: true, percent: "12".into() }];
    let (name, pct) = ("five_hour", 23.45);
    expected[0] = format!("{name:<28} {pct:6.1}%  resets noon");
    let (name, pct) = ("seven_day", 100.0);
    expected[1] = format!("{name:<28} {pct:6.1}%  resets ?");
    let (name, pct) = ("extra", 5.0);
    expected.insert(7, format!("{name:<28} {pct:6.1}%  (unlisted window)"));
    let scoped_line = |scope: &str, tail: &str| {
        format!(
            "{:<14} {:<8} {:>5.1}%  {:<8} {}{}",
            "weekly_scoped", "weekly", 7.25, "normal", scope, tail
        )
    };
    expected.push(scoped_line("Fable", "  (active)"));
    expected.push(scoped_line("-", ""));
    expected.push(
        "--- usage credits (billed) --- enabled=true $1.00 of no limit (20.0%)  LIMIT REACHED"
            .into(),
    );
    expected.push("--- weekly window by surface ---".into());
    expected.push(format!("{:<14} {:>3.0}%", "CLI", 12.0));
    expected.push("--- raw body ---".into());
    expected.push("{}".into());
    assert_eq!(reading_lines(&r, true), expected);
}

fn session(name: &str, secs: i64) -> SessionTotals<f64> {
    SessionTotals {
        session: name.into(),
        first: Timestamp { secs, nanos: 0 },
        last: Timestamp { secs: secs + 3600, nanos: 0 },
        totals: Totals::new(),
    }
}

#[test]
fn the_first_ten_sessions_are_listed() {
    let rows: Vec<SessionTotals<f64>> =
        (0..12).map(|i| session(&format!("{i:02}-session"), 1_789_000_000)).collect();
    let totals: Vec<String> = (0..12).map(|i| format!("t{i}")).collect();
    assert!(can_list(&rows));
    let lines = session_lines(&rows, &totals);
    assert_eq!(lines.len(), 10);
    for (i, line) in lines.iter().enumerate() {
        let style = ClockStyle::MonthDayTime;
        let (first, last) = (local_text(rows[i].first, style), local_text(rows[i].last, style));
        assert_eq!(*line, format!("  {i:02}-sessi  {first} -> {last}  t{i}"));
    }
    assert!(session_lines(&Vec::<SessionTotals<f64>>::new(), &vec![]).is_empty());
}

#[test]
fn session_names_are_cut_between_characters() {
    assert_eq!(session_line("short", "a", "b", "c"), "  short  a -> b  c");
    assert_eq!(session_line("12345678", "", "", ""), "  12345678   ->   ");
    assert_eq!(session_line("éééééé", "a", "b", "c"), "  éééé  a -> b  c");
    assert!(can_list(&vec![session("éééééé", 0), session("éééé", 0)]));
    assert!(!can_list(&vec![session("x", 0), session("aéééé", 0)]));
    assert!(!can_list(&vec![session("x", i64::MAX - 3600)]));
}
