use chrono::{DateTime, Local, NaiveDate, TimeDelta, TimeZone, Utc};
use usage_core::aggregate::trailing;
use usage_core::model::{TokenUsage, UsageEvent};
use usage_core::pricing::PricingTable;
use usage_core::snapshot::LimitSnapshot;
use usage_core::store::UsageStore;
use usage_core::text::trim;
use usage_core::time::{
    local_midnight, local_stamp, local_text, midnight_lookups, pick_midnight, ClockStyle, Date, Span,
    Timestamp, Zone,
};

/// The last second of 2016, and moments around it.
fn moments() -> Vec<Timestamp> {
    let end = 1_483_228_799;
    [
        (end, 0),
        (end, 500_000_000),
        (end, 1_000_000_000),
        (end, 1_500_000_000),
        (end, 1_999_999_999),
        (end + 1, 0),
        (end - 1, 999_999_999),
        (end + 40_000, 1),
        (end - 40_000, 1),
        (end - 86_400, 1_200_000_000),
        (0, 0),
    ]
    .iter()
    .map(|(secs, nanos)| Timestamp { secs: *secs, nanos: *nanos })
    .collect()
}

fn chrono_time(t: Timestamp) -> DateTime<Utc> {
    DateTime::from_timestamp(t.secs, t.nanos).unwrap()
}

fn spans() -> Vec<Span> {
    [
        (0, 1),
        (0, 499_999_999),
        (0, 500_000_000),
        (0, 500_000_001),
        (0, 999_999_999),
        (1, 0),
        (1, 500_000_000),
        (86_400, 0),
        (31_536_000, 7),
    ]
    .iter()
    .map(|(secs, nanos)| Span { secs: *secs, nanos: *nanos })
    .collect()
}

fn event(id: &str, timestamp: Timestamp) -> UsageEvent {
    UsageEvent {
        message_id: id.into(),
        session_id: "s".into(),
        timestamp,
        model: "m".into(),
        usage: TokenUsage { output: 1, ..Default::default() },
        is_sidechain: false,
        fast: false,
    }
}

#[test]
fn windows_begin_where_the_calendar_says() {
    let pricing: PricingTable<f64> = PricingTable::new("".into(), "".into(), "".into());
    for now in moments() {
        for span in spans() {
            let length = TimeDelta::seconds(span.secs) + TimeDelta::nanoseconds(span.nanos.into());
            let start = chrono_time(now) - length;
            let first =
                Timestamp { secs: start.timestamp(), nanos: start.timestamp_subsec_nanos() };
            let earlier = if first.nanos > 0 {
                Timestamp { nanos: first.nanos - 1, ..first }
            } else {
                Timestamp { secs: first.secs - 1, nanos: 999_999_999 }
            };
            let mut store = UsageStore::new();
            store.upsert(event("first", first), 0);
            store.upsert(event("earlier", earlier), 0);
            store.upsert(event("now", now), 0);
            let expected = if first.is_before(now) { 1 } else { 0 };
            assert_eq!(
                trailing(&store, &pricing, now, span).requests,
                expected,
                "{now:?} {span:?}"
            );
        }
    }
}

#[test]
fn ages_are_those_of_the_calendar() {
    for now in moments() {
        for captured_at in moments() {
            let s: LimitSnapshot<f64> = LimitSnapshot {
                captured_at,
                session_id: None,
                model: None,
                five_hour: None,
                seven_day: None,
                context_used_percentage: None,
            };
            let d = chrono_time(now).signed_duration_since(chrono_time(captured_at));
            let age = s.age(now);
            assert_eq!((age.secs, age.nanos), (d.num_seconds(), d.subsec_nanos()));
        }
    }
}

#[test]
fn validity_is_that_of_the_calendar() {
    let edges = [
        -8_334_601_228_801i64,
        -8_334_601_228_800,
        -61,
        -60,
        -1,
        0,
        59,
        60,
        119,
        8_210_266_876_799,
        8_210_266_876_800,
        i64::MIN,
        i64::MAX,
    ];
    for secs in edges {
        for nanos in [0, 999_999_999, 1_000_000_000, 1_999_999_999, 2_000_000_000, u32::MAX] {
            assert_eq!(
                Timestamp { secs, nanos }.is_valid(),
                DateTime::from_timestamp(secs, nanos).is_some(),
                "{secs} {nanos}"
            );
        }
    }
}

#[test]
fn white_space_is_trimmed_as_std_does() {
    for n in 0..=0x10_ffff {
        if let Some(c) = char::from_u32(n) {
            if c.is_whitespace() || n < 0x3100 {
                let s = format!("{c}a{c}b{c}{c}");
                assert_eq!(trim(&s), s.trim(), "{n:x}");
            }
        }
    }
    for s in ["", " ", "\u{3000}\t", "x"] {
        assert_eq!(trim(s), s.trim());
    }
}

#[test]
fn local_times_are_those_of_this_machine() {
    let styles = [
        (ClockStyle::Time, "%H:%M"),
        (ClockStyle::WeekdayTime, "%a %H:%M"),
        (ClockStyle::MonthDayTime, "%m-%d %H:%M"),
        (ClockStyle::DateTime, "%a %d %b %H:%M"),
    ];
    let ends = [-8_334_601_228_800, 8_210_266_876_799].map(|secs| Timestamp { secs, nanos: 0 });
    for t in moments().into_iter().chain(ends) {
        let local = chrono_time(t).with_timezone(&Local);
        assert_eq!(local_stamp(t), local.to_string());
        for (style, format) in styles {
            let shown = local_text(t, style);
            assert_eq!(shown, local.format(format).to_string());
            // Some clock less than a day away from UTC shows just that.
            let near = (-1439..1440).any(|minutes| {
                chrono_time(t)
                    .checked_add_signed(TimeDelta::minutes(minutes))
                    .is_some_and(|c| c.format(format).to_string() == shown)
            });
            assert!(near, "{t:?} {shown}");
        }
    }
}

#[test]
fn midnights_are_looked_for_up_to_two_hours() {
    for day in [736_999, 737_000, 737_001, 740_000] {
        let date = Date { day };
        let start = NaiveDate::from_num_days_from_ce_opt(day).unwrap().and_hms_opt(0, 0, 0).unwrap();
        let expected: Vec<Option<Timestamp>> = [0, 30, 60, 90, 120]
            .iter()
            .map(|m| Local.from_local_datetime(&(start + TimeDelta::minutes(*m))).earliest())
            .map(|t| t.map(|t| Timestamp { secs: t.timestamp(), nanos: 0 }))
            .collect();
        let found = midnight_lookups(Zone::Local, date);
        assert_eq!(found, expected);
        assert_eq!(local_midnight(Zone::Local, date), pick_midnight(date, &found));
        let utc = start.and_utc().timestamp();
        let found = midnight_lookups(Zone::Fixed(3600), date);
        let secs: Vec<i64> = found.iter().map(|t| t.unwrap().secs - utc).collect();
        assert_eq!(secs, [-3600, -1800, 0, 1800, 3600]);
    }
}
