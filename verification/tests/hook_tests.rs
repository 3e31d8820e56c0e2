use serde_json::Value;
use usage_core::hook::{
    kept_snapshot, make_window, model_name, read_status, status_line, write_snapshot, Members,
};
use usage_core::time::Timestamp;

#[test]
fn reads_the_status_line_input() {
    let s = read_status(
        r#"{"session_id":"a","model":{"id":"x","display_name":"Opus 5"},"context_window":{"used_percentage":12.5},"rate_limits":{"five_hour":{"used_percentage":23.5,"resets_at":1789002600},"seven_day":{"used_percentage":41,"resets_at":1789434000}}}"#,
    )
    .unwrap();
    assert_eq!(s.model, "Opus 5");
    assert_eq!(s.context.as_deref(), Some("12.5"));
    let five = s.five_hour.clone().unwrap();
    assert_eq!(five.used, "23.5");
    assert_eq!(five.resets_at, Timestamp { secs: 1789002600, nanos: 0 });
    assert_eq!(s.seven_day.clone().unwrap().used, "41");
    assert!(s.has_limits());
}

#[test]
fn input_without_limits_is_not_kept() {
    let s = read_status(r#"{"model":{"id":"x"}}"#).unwrap();
    assert_eq!(s.model, "x");
    assert!(s.context.is_none());
    assert!(!s.has_limits());
    let s = read_status("[]").unwrap();
    assert_eq!(s.model, "?");
    let s = read_status(
        r#"{"model":{"display_name":5,"id":"y"},"rate_limits":{"five_hour":{"used_percentage":"1","resets_at":5},"seven_day":{"used_percentage":1,"resets_at":5.5}}}"#,
    )
    .unwrap();
    assert_eq!(s.model, "y");
    assert!(!s.has_limits());
    assert!(read_status("{").is_none());
}

#[test]
fn windows_need_a_figure_and_a_reset() {
    assert!(make_window(Some("1".into()), Some(0)).is_some());
    assert!(make_window(None, Some(0)).is_none());
    assert!(make_window(Some("1".into()), None).is_none());
    assert!(make_window(Some("1".into()), Some(i64::MAX)).is_none());
    assert_eq!(model_name(Some("a"), Some("b")), "a");
    assert_eq!(model_name(None, Some("b")), "b");
    assert_eq!(model_name(None, None), "?");
}

#[test]
fn lines_for_the_terminal() {
    assert_eq!(
        status_line(Some(("24", "14:10")), Some(("41", "Tue 14:00")), Some("12"), "Opus 5"),
        "5h 24% (resets 14:10) | 7d 41% (resets Tue 14:00) | ctx 12% | Opus 5"
    );
    assert_eq!(status_line(None, None, None, "?"), "?");
    assert_eq!(status_line(None, Some(("0", "x")), None, "m"), "7d 0% (resets x) | m");
}

#[test]
fn limits_are_kept_with_the_time() {
    let input = r#"{"version":"2.1","session_id":"a\"b","model":{"id":"x"},"cost":{"total":0.5},"other":1,"rate_limits":{"five_hour":{"used_percentage":23.5,"resets_at":1789002600}}}"#;
    let text = kept_snapshot(input, 1_788_999_000).unwrap();
    assert_eq!(
        text,
        r#"{"captured_at":1788999000,"context_window":null,"cost":{"total":0.5},"model":{"id":"x"},"rate_limits":{"five_hour":{"resets_at":1789002600,"used_percentage":23.5}},"session_id":"a\"b","version":"2.1"}"#
    );
    // It is what `serde_json` writes for such an object.
    let doc: Value = serde_json::from_str(&text).unwrap();
    assert_eq!(doc.to_string(), text);
    assert_eq!(kept_snapshot(input, -5).unwrap()[..18].to_string(), r#"{"captured_at":-5,"#);
    assert!(kept_snapshot(input, i64::MIN).unwrap().contains("-9223372036854775808,"));
    assert!(kept_snapshot(r#"{"model":{"id":"x"}}"#, 1).is_none());
    assert!(kept_snapshot("{", 1).is_none());
    assert!(kept_snapshot("[]", 1).is_none());
}

#[test]
fn snapshots_are_written_member_by_member() {
    let m = Members {
        context_window: None,
        cost: Some("1".into()),
        model: Some("{}".into()),
        rate_limits: Some("[2]".into()),
        session_id: None,
        version: Some("\"v\"".into()),
    };
    assert_eq!(
        write_snapshot(-7, &m),
        r#"{"captured_at":-7,"context_window":null,"cost":1,"model":{},"rate_limits":[2],"session_id":null,"version":"v"}"#
    );
}
