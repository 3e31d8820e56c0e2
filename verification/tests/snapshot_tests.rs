use serde_json::Value;
use usage_core::product;
use usage_core::snapshot::{
    LimitSnapshot, LimitWindow, RawContext, RawFile, RawLimits, RawModel, RawWindow, WindowState,
};
use usage_core::time::{Span, Timestamp};

fn text(v: &Value) -> Option<String> {
    v.as_str().map(String::from)
}

fn window(v: &Value) -> Option<RawWindow<f64>> {
    v.as_object()?;
    Some(RawWindow {
        used_percentage: v["used_percentage"].as_f64(),
        resets_at: v["resets_at"].as_i64(),
    })
}

fn from_json(json: &str) -> LimitSnapshot<f64> {
    let v: Value = serde_json::from_str(json).unwrap();
    let model = v["model"].as_object().map(|_| RawModel {
        id: text(&v["model"]["id"]),
        display_name: text(&v["model"]["display_name"]),
    });
    let limits = &v["rate_limits"];
    LimitSnapshot::from_raw(RawFile {
        captured_at: v["captured_at"].as_i64().unwrap(),
        session_id: text(&v["session_id"]),
        model,
        context_window: v["context_window"]
            .as_object()
            .map(|c| RawContext { used_percentage: c["used_percentage"].as_f64() }),
        rate_limits: limits.as_object().map(|_| RawLimits {
            five_hour: window(&limits["five_hour"]),
            seven_day: window(&limits["seven_day"]),
        }),
    })
}

fn sample() -> String {
    r#"{"captured_at":1788999000,"session_id":"abc","model":{"id":"ID","display_name":"Opus 5"},"context_window":{"used_percentage":12.5},"rate_limits":{"five_hour":{"used_percentage":23.5,"resets_at":1789002600},"seven_day":{"used_percentage":41.2,"resets_at":1789434000}}}"#
        .replace("ID", &format!("{}-opus-5", product::name()))
}

fn at(secs: i64) -> Timestamp {
    Timestamp { secs, nanos: 0 }
}

#[test]
fn parses_hook_output() {
    let s = from_json(&sample());
    assert_eq!(s.session_id.as_deref(), Some("abc"));
    assert_eq!(s.model.as_deref(), Some("Opus 5"));
    assert_eq!(s.context_used_percentage, Some(12.5));
    let fh = s.five_hour.unwrap();
    assert_eq!(fh.used_percentage, 23.5);
    assert_eq!(fh.resets_at.secs, 1789002600);
    assert_eq!(s.seven_day.unwrap().used_percentage, 41.2);
}

#[test]
fn missing_windows_are_none() {
    let s = from_json(
        r#"{"captured_at":1,"rate_limits":{"five_hour":{"used_percentage":1,"resets_at":2}}}"#,
    );
    assert!(s.five_hour.is_some());
    assert!(s.seven_day.is_none());
    let s = from_json(r#"{"captured_at":1}"#);
    assert!(s.five_hour.is_none());
}

#[test]
fn window_states() {
    let s = from_json(&sample());
    let w = s.five_hour.unwrap();
    let fresh = Span::minutes(10);
    assert_eq!(s.state(&w, at(1788999000 + 60), fresh), WindowState::Fresh);
    assert_eq!(s.state(&w, at(1788999000 + 1800), fresh), WindowState::Stale);
    assert_eq!(s.state(&w, at(1789002600), fresh), WindowState::Expired);
}

#[test]
fn a_window_is_fresh_up_to_the_threshold() {
    let s = from_json(&sample());
    let w = s.five_hour.unwrap();
    let fresh = Span::minutes(10);
    assert_eq!(s.state(&w, at(1788999600), fresh), WindowState::Fresh);
    let just_after = Timestamp { secs: 1788999600, nanos: 1 };
    assert_eq!(s.state(&w, just_after, fresh), WindowState::Stale);
    let just_before_reset = Timestamp { secs: 1789002599, nanos: 999_999_999 };
    assert_eq!(s.state(&w, just_before_reset, fresh), WindowState::Stale);
}

#[test]
fn age_is_signed() {
    let s = from_json(r#"{"captured_at":1000}"#);
    assert_eq!(s.age(Timestamp { secs: 1001, nanos: 500_000_000 }), Span { secs: 1, nanos: 500_000_000 });
    assert_eq!(s.age(Timestamp { secs: 997, nanos: 500_000_000 }), Span { secs: -2, nanos: -500_000_000 });
}

#[test]
fn a_leap_second_counts_only_from_its_far_side() {
    let s: LimitSnapshot<f64> = LimitSnapshot {
        captured_at: Timestamp { secs: 1483228799, nanos: 1_500_000_000 },
        session_id: None,
        model: None,
        context_used_percentage: None,
        five_hour: None,
        seven_day: None,
    };
    assert_eq!(s.age(at(1483228859)), Span { secs: 58, nanos: 500_000_000 });
    // The next day begins at an earlier time of day.
    assert_eq!(s.age(at(1483228800)), Span { secs: 0, nanos: -500_000_000 });
}

#[test]
fn times_out_of_range() {
    let s = from_json(
        r#"{"captured_at":9223372036854775807,"rate_limits":{"five_hour":{"used_percentage":1,"resets_at":8210266876800},"seven_day":{"used_percentage":1,"resets_at":8210266876799}}}"#,
    );
    assert_eq!(s.captured_at, at(0));
    assert!(s.five_hour.is_none());
    assert_eq!(s.seven_day, Some(LimitWindow { used_percentage: 1.0, resets_at: at(8210266876799) }));
    let s = from_json(r#"{"captured_at":-8334601228800}"#);
    assert_eq!(s.captured_at, at(-8334601228800));
    let s = from_json(r#"{"captured_at":-8334601228801}"#);
    assert_eq!(s.captured_at, at(0));
}

#[test]
fn a_model_without_a_display_name_goes_by_its_id() {
    let s = from_json(r#"{"captured_at":1,"model":{"id":"x"}}"#);
    assert_eq!(s.model.as_deref(), Some("x"));
    let s = from_json(r#"{"captured_at":1,"model":{}}"#);
    assert_eq!(s.model, None);
}
