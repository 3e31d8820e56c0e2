use serde_json::Value;
use usage_core::parse::{
    parse_line, read_line, ParsedLine, RawCacheCreation, RawLine, RawMessage, RawOutputDetails,
    RawRecord, RawUsage,
};
use usage_core::product;
use usage_core::time::Timestamp;

type Shape<T> = Result<T, ()>;

fn field<'a>(v: &'a Value, name: &str) -> Option<&'a Value> {
    v.get(name).filter(|f| !f.is_null())
}

fn text(v: &Value, name: &str) -> Shape<Option<String>> {
    field(v, name).map(|f| f.as_str().map(String::from).ok_or(())).transpose()
}

fn flag(v: &Value, name: &str) -> Shape<Option<bool>> {
    field(v, name).map(|f| f.as_bool().ok_or(())).transpose()
}

fn count(v: &Value, name: &str) -> Shape<Option<u64>> {
    field(v, name).map(|f| f.as_u64().ok_or(())).transpose()
}

fn object<'a>(v: &'a Value, name: &str) -> Shape<Option<&'a Value>> {
    match field(v, name) {
        None => Ok(None),
        Some(f) if f.is_object() => Ok(Some(f)),
        Some(_) => Err(()),
    }
}

fn usage(v: &Value) -> Shape<RawUsage> {
    let cache_creation = match object(v, "cache_creation")? {
        None => None,
        Some(c) => Some(RawCacheCreation {
            ephemeral_5m_input_tokens: count(c, "ephemeral_5m_input_tokens")?,
            ephemeral_1h_input_tokens: count(c, "ephemeral_1h_input_tokens")?,
        }),
    };
    let output_tokens_details = match object(v, "output_tokens_details")? {
        None => None,
        Some(d) => Some(RawOutputDetails { thinking_tokens: count(d, "thinking_tokens")? }),
    };
    Ok(RawUsage {
        input_tokens: count(v, "input_tokens")?,
        output_tokens: count(v, "output_tokens")?,
        cache_creation_input_tokens: count(v, "cache_creation_input_tokens")?,
        cache_read_input_tokens: count(v, "cache_read_input_tokens")?,
        cache_creation,
        output_tokens_details,
        speed: text(v, "speed")?,
    })
}

fn message(v: &Value) -> Shape<RawMessage> {
    let usage = match object(v, "usage")? {
        None => None,
        Some(u) => Some(usage(u)?),
    };
    Ok(RawMessage { id: text(v, "id")?, model: text(v, "model")?, usage })
}

fn record(v: &Value) -> Shape<RawRecord> {
    if !v.is_object() {
        return Err(());
    }
    let message = match object(v, "message")? {
        None => None,
        Some(m) => Some(message(m)?),
    };
    Ok(RawRecord {
        kind: text(v, "type")?,
        timestamp: text(v, "timestamp")?,
        session_id: text(v, "sessionId")?,
        is_sidechain: flag(v, "isSidechain")?,
        is_api_error_message: flag(v, "isApiErrorMessage")?,
        message,
    })
}

/// What a line says, if it has the shape of a record.
fn read(line: &str) -> Option<RawRecord> {
    record(&serde_json::from_str(line).ok()?).ok()
}

fn parse(line: &str) -> ParsedLine {
    parse_line(line, read(line))
}

#[test]
fn user_record_is_ignored() {
    let l = r#"{"type":"user","message":{"role":"user","content":"hi"}}"#;
    assert_eq!(parse(l), ParsedLine::Ignored);
}

#[test]
fn garbage_is_malformed() {
    assert_eq!(parse(r#"{"type":"assistant","message":{"#), ParsedLine::Malformed);
    assert_eq!(parse("not json"), ParsedLine::Malformed);
}

#[test]
fn any_json_without_the_shape_of_a_record_is_ignored() {
    for text in [
        "null",
        "7",
        "[1, 2]",
        r#" "text" "#,
        r#"{"type":7}"#,
        // Too large for a number, yet JSON.
        r#"{"type":"user","n":1e999}"#,
    ] {
        assert_eq!(parse_line(text, None), ParsedLine::Ignored, "{text}");
    }
    for text in ["", " ", "nul", "[1, 2", "{} {}", r#"{"type":7,}"#, "'text'"] {
        assert_eq!(parse_line(text, None), ParsedLine::Malformed, "{text}");
    }
}

#[test]
fn message_as_string_is_ignored_not_malformed() {
    let l = r#"{"type":"assistant","message":"weird"}"#;
    assert_eq!(parse(l), ParsedLine::Ignored);
}

#[test]
fn synthetic_is_ignored() {
    let l = r#"{"type":"assistant","timestamp":"2026-08-26T23:23:12.900Z","sessionId":"s","isApiErrorMessage":true,"message":{"id":"x","model":"<synthetic>","usage":{"input_tokens":0,"output_tokens":0}}}"#;
    assert_eq!(parse(l), ParsedLine::Ignored);
}

#[test]
fn full_assistant_record() {
    let model = format!("{}-opus-5", product::name());
    let l = r#"{"type":"assistant","timestamp":"2026-08-26T23:24:03.549Z","sessionId":"sess","isSidechain":false,"message":{"id":"msg_1","model":"MODEL","usage":{"input_tokens":2,"cache_creation_input_tokens":800,"cache_read_input_tokens":30556,"output_tokens":264,"output_tokens_details":{"thinking_tokens":22},"cache_creation":{"ephemeral_1h_input_tokens":800,"ephemeral_5m_input_tokens":0},"speed":"standard"}}}"#
        .replace("MODEL", &model);
    match parse(&l) {
        ParsedLine::Usage(ev) => {
            assert_eq!(ev.message_id, "msg_1");
            assert_eq!(ev.model, model);
            assert_eq!(ev.usage.input, 2);
            assert_eq!(ev.usage.output, 264);
            assert_eq!(ev.usage.cache_creation, 800);
            assert_eq!(ev.usage.cache_creation_1h, 800);
            assert_eq!(ev.usage.cache_read, 30556);
            assert_eq!(ev.usage.thinking, 22);
            assert!(!ev.fast);
            assert!(!ev.is_sidechain);
            assert_eq!(ev.session_id, "sess");
            assert_eq!(ev.timestamp, Timestamp { secs: 1787786643, nanos: 549_000_000 });
        }
        other => panic!("unexpected {other:?}"),
    }
}

#[test]
fn missing_parts_are_ignored() {
    let full = r#"{"type":"assistant","timestamp":"2026-08-26T23:24:03Z","message":{"id":"m","model":"x","usage":{}}}"#;
    assert!(matches!(parse(full), ParsedLine::Usage(_)));
    for (cut, with) in [
        (r#""id":"m","#, ""),
        (r#""model":"x","#, ""),
        (r#","usage":{}"#, ""),
        (r#""timestamp":"2026-08-26T23:24:03Z","#, ""),
        ("2026-08-26T23:24:03Z", "yesterday"),
        ("2026-08-26T23:24:03Z", "2026-02-30T00:00:00Z"),
        (r#""model":"x""#, r#""model":"<synthetic>""#),
        (r#""type":"assistant""#, r#""type":"Assistant""#),
    ] {
        assert_eq!(parse(&full.replace(cut, with)), ParsedLine::Ignored, "{cut}");
    }
}

#[test]
fn absent_counts_are_zero_and_flags_are_off() {
    let l = r#"{"type":"assistant","timestamp":"2026-08-26T23:24:03+02:00","message":{"id":"m","model":"x","usage":{"speed":"fast"}}}"#;
    match parse(l) {
        ParsedLine::Usage(ev) => {
            assert_eq!(ev.usage.total(), 0);
            assert_eq!(ev.session_id, "");
            assert!(ev.fast);
            assert!(!ev.is_sidechain);
            assert_eq!(ev.timestamp, Timestamp { secs: 1787779443, nanos: 0 });
        }
        other => panic!("unexpected {other:?}"),
    }
}

#[test]
fn a_line_without_a_moment_is_ignored() {
    let l = r#"{"type":"assistant","message":{"id":"m","model":"x","usage":{}}}"#;
    let raw = || RawLine::Record(read(l).unwrap());
    assert_eq!(read_line(raw(), None), ParsedLine::Ignored);
    let t = Timestamp { secs: 5, nanos: 6 };
    match read_line(raw(), Some(t)) {
        ParsedLine::Usage(ev) => assert_eq!(ev.timestamp, t),
        other => panic!("unexpected {other:?}"),
    }
    assert_eq!(read_line(RawLine::OtherJson, Some(t)), ParsedLine::Ignored);
    assert_eq!(read_line(RawLine::NotJson, Some(t)), ParsedLine::Malformed);
}
