use usage_core::limits::{
    collect_windows, make_reset, make_window, parse_body, read_response, resolve_token, short,
    token_from_credentials_json, token_from_stored, FetchError, Measure, RawWindow, Reset,
    TokenSource, OAUTH_BETA_HEADER, USAGE_URL,
};
use usage_core::time::Timestamp;

fn at(secs: i64) -> Timestamp {
    Timestamp { secs, nanos: 0 }
}

fn percentage(w: &RawWindow) -> f64 {
    match &w.used {
        Measure::Fraction(s) => s.parse::<f64>().unwrap() * 100.0,
        Measure::Percent(s) => s.parse().unwrap(),
    }
}

fn reset(w: &RawWindow) -> Option<i64> {
    match &w.resets_at {
        Reset::Unknown => None,
        Reset::At(t) => Some(t.secs),
        Reset::Number(s) => {
            let n: f64 = s.parse().unwrap();
            Some((if n > 1e12 { n / 1000.0 } else { n }) as i64)
        }
    }
}

#[test]
fn credentials_token_and_expiry() {
    let text = r#"{"claudeAiOauth":{"accessToken":"sk-ant-oat01-xyz","expiresAt":1789000000000,"subscriptionType":"max"}}"#;
    let t = token_from_credentials_json(text, at(1788999000)).unwrap();
    assert_eq!(t.value, "sk-ant-oat01-xyz");
    assert_eq!(t.source, TokenSource::CredentialsFile);
    assert_eq!(t.expires_at, Some(at(1789000000)));
    let after = at(1789000001);
    assert_eq!(token_from_credentials_json(text, after).unwrap_err(), FetchError::TokenExpired);
    assert_eq!(token_from_credentials_json("{}", after).unwrap_err(), FetchError::NoToken);
    assert_eq!(token_from_credentials_json("nope", after).unwrap_err(), FetchError::NoToken);
    assert_eq!(token_from_credentials_json("[]", after).unwrap_err(), FetchError::NoToken);
}

#[test]
fn explicit_token_wins() {
    let t = resolve_token(Some(" abc "), None, None, at(0)).unwrap();
    assert_eq!(t.value, "abc");
    assert_eq!(t.source, TokenSource::Explicit);
}

#[test]
fn tokens_are_tried_in_order() {
    let file = r#"{"claudeAiOauth":{"accessToken":"c"}}"#;
    let t = resolve_token(Some("a"), Some("b"), Some(file), at(0)).unwrap();
    assert_eq!((t.value.as_str(), t.source), ("a", TokenSource::Explicit));
    let t = resolve_token(Some(" \t"), Some("b\n"), Some(file), at(0)).unwrap();
    assert_eq!((t.value.as_str(), t.source), ("b", TokenSource::Env));
    let t = resolve_token(None, Some(""), Some(file), at(0)).unwrap();
    assert_eq!((t.value.as_str(), t.source), ("c", TokenSource::CredentialsFile));
    assert_eq!(resolve_token(None, None, None, at(0)).unwrap_err(), FetchError::NoToken);
}

#[test]
fn stored_tokens_and_their_expiry() {
    assert_eq!(token_from_stored(None, Some(5), at(0)).unwrap_err(), FetchError::NoToken);
    assert!(token_from_stored(Some("x"), None, at(0)).unwrap().expires_at.is_none());
    // A moment before 1970 rounds down to its second.
    let t = token_from_stored(Some("x"), Some(-1), at(-2)).unwrap();
    assert_eq!(t.expires_at, Some(Timestamp { secs: -1, nanos: 999_000_000 }));
    assert_eq!(token_from_stored(Some("x"), Some(5000), at(5)).unwrap_err(), FetchError::TokenExpired);
    assert!(token_from_stored(Some("x"), Some(5001), at(5)).is_ok());
    // A time of expiry beyond the calendar is none.
    let t = token_from_stored(Some("x"), Some(i64::MAX), at(5)).unwrap();
    assert_eq!(t.expires_at, None);
}

#[test]
fn parses_fraction_utilization_and_epoch_seconds() {
    let body = r#"{"five_hour":{"utilization":0.235,"resets_at":1789002600},"seven_day":{"utilization":0.412,"resets_at":"2026-09-16T12:00:00Z"},"seven_day_opus":null,"extra_window":{"utilization":0.5,"resets_at":1789002600},"not_a_window":"x"}"#;
    let r = parse_body(body, at(7)).unwrap();
    let fh = r.five_hour.unwrap();
    assert!((percentage(&fh) - 23.5).abs() < 1e-9);
    assert_eq!(reset(&fh), Some(1789002600));
    let sd = r.seven_day.unwrap();
    assert!((percentage(&sd) - 41.2).abs() < 1e-9);
    let t = chrono::DateTime::from_timestamp(reset(&sd).unwrap(), 0).unwrap();
    assert_eq!(t.to_rfc3339(), "2026-09-16T12:00:00+00:00");
    assert!(r.seven_day_opus.is_none());
    assert_eq!(r.other.len(), 1);
    assert_eq!(r.other[0].0, "extra_window");
    assert_eq!(r.fetched_at, at(7));
    assert_eq!(r.raw, body);
}

#[test]
fn parses_percent_form_and_millis() {
    let body = r#"{"five_hour":{"used_percentage":50,"resets_at":1789002600000}}"#;
    let r = parse_body(body, at(0)).unwrap();
    let fh = r.five_hour.unwrap();
    assert_eq!(percentage(&fh), 50.0);
    assert_eq!(reset(&fh), Some(1789002600));
}

#[test]
fn rejects_bodies_without_windows() {
    assert!(matches!(parse_body(r#"{"ok":true}"#, at(0)), Err(FetchError::BadBody(_))));
    assert!(matches!(parse_body("nope", at(0)), Err(FetchError::BadBody(_))));
    assert_eq!(
        parse_body("[1]", at(0)).unwrap_err(),
        FetchError::BadBody("top level is not an object".into())
    );
    // A listed window that is not one of the two main ones does not make a reading.
    assert_eq!(
        parse_body(r#"{"overage":{"percent":1}}"#, at(0)).unwrap_err(),
        FetchError::BadBody("no limit windows found".into())
    );
}

#[test]
fn windows_go_where_they_belong() {
    let body = r#"{"five_hour":{"percent":1},"seven_day":{"percent":2},"seven_day_opus":{"percent":3},"seven_day_sonnet":{"percent":4},"seven_day_overage_included":{"percent":5},"overage":{"percent":6},"spend_limit":{"percent":7},"z":{"percent":8}}"#;
    let r = parse_body(body, at(0)).unwrap();
    let p = |w: Option<RawWindow>| percentage(&w.unwrap());
    assert_eq!(p(r.five_hour), 1.0);
    assert_eq!(p(r.seven_day), 2.0);
    assert_eq!(p(r.seven_day_opus), 3.0);
    assert_eq!(p(r.seven_day_sonnet), 4.0);
    assert_eq!(p(r.seven_day_overage_included), 5.0);
    assert_eq!(p(r.overage), 6.0);
    assert_eq!(p(r.spend_limit), 7.0);
    assert_eq!(percentage(&r.other[0].1), 8.0);
    assert!(r.limits.is_empty() && r.credits.is_none() && r.breakdown.is_empty());
}

#[test]
fn which_figure_of_a_window_counts() {
    let one = |window: &str| {
        let body = format!(r#"{{"x":{window}}}"#);
        parse_body(&body, at(0)).ok().map(|r| r.other[0].1.clone())
    };
    let w = one(r#"{"utilization":0.5,"percent":7}"#).unwrap();
    assert_eq!(w.used, Measure::Fraction("0.5".into()));
    let w = one(r#"{"utilization":"0.5","percent":7,"used_percentage":8}"#).unwrap();
    assert_eq!(w.used, Measure::Percent("7".into()));
    assert_eq!(w.resets_at, Reset::Unknown);
    // `percent` hides `used_percentage` even where it is no number.
    assert!(one(r#"{"percent":"7","used_percentage":8}"#).is_none());
    assert!(one(r#"{"resets_at":5}"#).is_none());
    assert_eq!(one(r#"{"percent":1,"resets_at":"soon"}"#).unwrap().resets_at, Reset::Unknown);
    assert_eq!(one(r#"{"percent":1,"resets_at":null}"#).unwrap().resets_at, Reset::Unknown);
    assert_eq!(one(r#"{"percent":1,"resets_at":1.5}"#).unwrap().resets_at, Reset::Number("1.5".into()));
}

#[test]
fn the_last_of_two_windows_of_one_name_counts() {
    let w = |n: &str| Some(RawWindow { used: Measure::Percent(n.into()), resets_at: Reset::Unknown });
    let members = vec![
        ("five_hour".to_string(), w("1")),
        ("five_hour".to_string(), w("2")),
        ("five_hour".to_string(), None),
    ];
    let r = collect_windows(members, "body", at(3)).unwrap();
    assert_eq!(r.five_hour, w("2"));
    assert_eq!(r.raw, "body");
}

#[test]
fn responses_by_status() {
    let now = at(0);
    let ok = r#"{"five_hour":{"percent":1}}"#;
    assert!(read_response(200, ok, now).is_ok());
    assert_eq!(read_response(401, "token has expired", now).unwrap_err(), FetchError::TokenExpired);
    assert_eq!(read_response(401, "exp", now).unwrap_err(), FetchError::Unauthorized("exp".into()));
    assert_eq!(read_response(429, ok, now).unwrap_err(), FetchError::RateLimited);
    let long = "é".repeat(201);
    assert_eq!(short(&long), "é".repeat(200));
    assert_eq!(short(&short(&long)), short(&long));
    assert_eq!((short(""), short("aé")), (String::new(), "aé".to_string()));
    assert_eq!(read_response(500, &long, now).unwrap_err(), FetchError::Http(500, "é".repeat(200)));
    assert_eq!(read_response(503, "x", now).unwrap_err(), FetchError::Http(503, "x".into()));
    assert_eq!(read_response(401, "", now).unwrap_err(), FetchError::Unauthorized("".into()));
}

#[test]
fn messages_of_errors() {
    assert_eq!(FetchError::NoToken.message(), "no OAuth token available");
    assert_eq!(FetchError::TokenExpired.message(), "stored access token has expired");
    assert_eq!(FetchError::Unauthorized("m".into()).message(), "unauthorized: m");
    assert_eq!(FetchError::RateLimited.message(), "usage endpoint rate limited");
    assert_eq!(FetchError::Http(503, "m".into()).message(), "HTTP 503: m");
    assert_eq!(FetchError::Network("m".into()).message(), "network: m");
    assert_eq!(FetchError::BadBody("m".into()).message(), "unexpected response: m");
    assert_eq!(USAGE_URL, "https://api.anthropic.com/api/oauth/usage");
    assert_eq!(OAUTH_BETA_HEADER, "oauth-2025-04-20");
}

#[test]
fn windows_from_their_members() {
    let text = |s: &str| Some(s.to_string());
    assert_eq!(make_reset(text("5"), Some(at(1))), Reset::Number("5".into()));
    assert_eq!(make_reset(None, Some(at(1))), Reset::At(at(1)));
    assert_eq!(make_reset(None, None), Reset::Unknown);
    let w = make_window(text("0.5"), text("40"), Reset::Unknown).unwrap();
    assert_eq!(w.used, Measure::Fraction("0.5".into()));
    let w = make_window(None, text("40"), Reset::At(at(2))).unwrap();
    assert_eq!(w, RawWindow { used: Measure::Percent("40".into()), resets_at: Reset::At(at(2)) });
    assert!(make_window(None, None, Reset::At(at(2))).is_none());
    // A member that is no number is none, and stands before its alternative.
    let r = parse_body(
        r#"{"five_hour":{"percent":"x","used_percentage":3},"seven_day":{"percent":2,"used_percentage":3}}"#,
        at(0),
    )
    .unwrap();
    assert!(r.five_hour.is_none());
    assert_eq!(r.seven_day.unwrap().used, Measure::Percent("2".into()));
}
