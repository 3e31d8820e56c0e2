use serde_json::Value;
use usage_core::aggregate::{
    by_model, by_session, daily, day_bounds, fits, span_bounds, today, totals, trailing, Totals,
};
use usage_core::model::{TokenUsage, UsageEvent};
use usage_core::parse::{RawCacheCreation, RawMessage, RawOutputDetails, RawRecord, RawUsage};
use usage_core::pricing::{FastPrice, ModelPrice, PricingTable, Rate};
use usage_core::product;
use usage_core::scanner::{frame, is_transcript, trim_ascii, FileMeta, ScanReport, Scanner};
use usage_core::store::{Interner, Upsert, UsageStore};
use usage_core::time::{local_date, Date, Duration, Span, Timestamp, Zone};

type Shape<T> = Result<T, ()>;

fn field<'a>(v: &'a Value, name: &str) -> Option<&'a Value> {
    v.get(name).filter(|f| !f.is_null())
}

fn text(v: &Value, name: &str) -> Shape<Option<String>> {
    field(v, name).map(|f| f.as_str().map(String::from).ok_or(())).transpose()
}

fn flag(v: &Value, name: &str) -> Shape<Option<bool>> {
    field(v, name).map(|f| f.as_bool().ok_or(())).transpose()
}

fn count(v: &Value, name: &str) -> Shape<Option<u64>> {
    field(v, name).map(|f| f.as_u64().ok_or(())).transpose()
}

fn object<'a>(v: &'a Value, name: &str) -> Shape<Option<&'a Value>> {
    match field(v, name) {
        None => Ok(None),
        Some(f) if f.is_object() => Ok(Some(f)),
        Some(_) => Err(()),
    }
}

fn usage(v: &Value) -> Shape<RawUsage> {
    let cache_creation = match object(v, "cache_creation")? {
        None => None,
        Some(c) => Some(RawCacheCreation {
            ephemeral_5m_input_tokens: count(c, "ephemeral_5m_input_tokens")?,
            ephemeral_1h_input_tokens: count(c, "ephemeral_1h_input_tokens")?,
        }),
    };
    let output_tokens_details = match object(v, "output_tokens_details")? {
        None => None,
        Some(d) => Some(RawOutputDetails { thinking_tokens: count(d, "thinking_tokens")? }),
    };
    Ok(RawUsage {
        input_tokens: count(v, "input_tokens")?,
        output_tokens: count(v, "output_tokens")?,
        cache_creation_input_tokens: count(v, "cache_creation_input_tokens")?,
        cache_read_input_tokens: count(v, "cache_read_input_tokens")?,
        cache_creation,
        output_tokens_details,
        speed: text(v, "speed")?,
    })
}

fn message(v: &Value) -> Shape<RawMessage> {
    let usage = match object(v, "usage")? {
        None => None,
        Some(u) => Some(usage(u)?),
    };
    Ok(RawMessage { id: text(v, "id")?, model: text(v, "model")?, usage })
}

fn record(v: &Value) -> Shape<RawRecord> {
    if !v.is_object() {
        return Err(());
    }
    let message = match object(v, "message")? {
        None => None,
        Some(m) => Some(message(m)?),
    };
    Ok(RawRecord {
        kind: text(v, "type")?,
        timestamp: text(v, "timestamp")?,
        session_id: text(v, "sessionId")?,
        is_sidechain: flag(v, "isSidechain")?,
        is_api_error_message: flag(v, "isApiErrorMessage")?,
        message,
    })
}

/// What a line says, if it has the shape of a record.
fn read(line: &str) -> Option<RawRecord> {
    record(&serde_json::from_str(line).ok()?).ok()
}

fn model(name: &str) -> String {
    format!("{}-{name}", product::name())
}

fn price(input: f64, output: f64, w5: f64, w1: f64, read: f64) -> ModelPrice<f64> {
    ModelPrice { input, output, cache_write_5m: w5, cache_write_1h: w1, cache_read: read }
}

fn prices() -> PricingTable<f64> {
    let mut t = PricingTable::new("https://example.org".into(), "today".into(), "USD".into());
    t.models.insert(model("fable-5-1"), price(10.0, 50.0, 12.5, 20.0, 0.25));
    t.models.insert(model("opus-5"), price(5.0, 25.0, 6.25, 10.0, 0.5));
    t.models.insert(model("sonnet-5"), price(2.0, 10.0, 2.5, 4.0, 0.2));
    t.fast_mode.insert(model("opus-5"), FastPrice { input: 10.0, output: 50.0 });
    t
}

fn cost_usd(t: &Totals<f64>) -> f64 {
    let mut sum = 0.0;
    for c in &t.charges {
        let p = match c.rate {
            Rate::Standard(p) => p,
            Rate::Fast(f) => price(f.input, f.output, f.input * 1.25, f.input * 2.0, f.input * 0.1),
        };
        let n = c.tokens;
        sum += (n.input as f64 * p.input
            + n.output as f64 * p.output
            + n.write_5m as f64 * p.cache_write_5m
            + n.write_1h as f64 * p.cache_write_1h
            + n.cache_read as f64 * p.cache_read)
            / 1_000_000.0;
    }
    sum
}

fn approx(a: f64, b: f64) {
    assert!((a - b).abs() < 1e-9, "{a} != {b}");
}

fn ts(s: &str) -> Timestamp {
    let t = chrono::DateTime::parse_from_rfc3339(s).unwrap();
    Timestamp { secs: t.timestamp(), nanos: t.timestamp_subsec_nanos() }
}

fn date(y: i32, m: u32, d: u32) -> Date {
    let epoch = chrono::NaiveDate::from_ymd_opt(1, 1, 1).unwrap();
    let day = chrono::NaiveDate::from_ymd_opt(y, m, d).unwrap();
    Date { day: day.signed_duration_since(epoch).num_days() as i32 + 1 }
}

/// A transcript directory in memory.
struct Disk {
    now: Timestamp,
    /// Whether the directory is there.
    root: bool,
    files: Vec<(String, Vec<u8>, Timestamp)>,
}

impl Disk {
    fn scan(&self, s: &mut Scanner) -> ScanReport {
        if !self.root {
            return ScanReport::begin(None);
        }
        let mut report = ScanReport::begin(Some(self.files.len()));
        let cutoff = s.cutoff(self.now);
        for (path, bytes, mtime) in &self.files {
            assert!(is_transcript(path));
            assert!(s.can_visit(path));
            let meta = FileMeta { len: bytes.len() as u64, mtime: *mtime };
            let plan = match s.visit(path, meta, self.now, cutoff, &mut report) {
                Some(p) => p,
                None => continue,
            };
            let buf = &bytes[plan.offset as usize..];
            let framed = frame(buf, plan.settled);
            let records = framed.lines.iter().map(|l| read(l.as_deref()?)).collect();
            assert!(report.can_count(framed.lines.len() + 1, buf.len() as u64));
            s.absorb(path, meta, plan, buf.len() as u64, &framed, records, &mut report);
        }
        s.finish(cutoff, &mut report);
        report
    }

    fn set(&mut self, path: &str, bytes: Vec<u8>) {
        let now = self.now;
        let f = self.files.iter_mut().find(|f| f.0 == path).unwrap();
        f.1 = bytes;
        f.2 = now;
    }
}

fn assistant(
    id: &str,
    time: &str,
    model: &str,
    input: u64,
    output: u64,
    write_1h: u64,
    read: u64,
    thinking: u64,
) -> String {
    format!(
        r#"{{"type":"assistant","timestamp":"{time}","sessionId":"sess-1","isSidechain":false,"message":{{"id":"{id}","model":"{model}","usage":{{"input_tokens":{input},"output_tokens":{output},"cache_creation_input_tokens":{write_1h},"cache_read_input_tokens":{read},"cache_creation":{{"ephemeral_5m_input_tokens":0,"ephemeral_1h_input_tokens":{write_1h}}},"output_tokens_details":{{"thinking_tokens":{thinking}}}}}}}}}"#
    )
}

const USER: &str = r#"{"type":"user","message":{"role":"user","content":"hi"}}"#;

fn basic() -> Disk {
    let opus = model("opus-5");
    let main = [
        USER.to_string(),
        assistant("msg_A", "2026-09-09T12:00:05Z", &opus, 2, 3, 30556, 0, 0),
        assistant("msg_A", "2026-09-09T12:00:07Z", &opus, 2, 250, 30556, 0, 80),
        USER.to_string(),
        assistant("msg_B", "2026-09-09T12:01:00Z", &model("fable-5-1"), 2, 100, 800, 30556, 0),
        assistant("msg_UNKNOWN", "2026-09-09T12:02:00Z", &model("unicorn-9"), 1000, 1000, 0, 0, 0),
        assistant("msg_SYN", "2026-09-09T12:02:10Z", "<synthetic>", 0, 0, 0, 0, 0),
        r#"{"type":"system","content":"x"}"#.to_string(),
        r#"{"type":"ai-title","title":"x"}"#.to_string(),
        r#"{"type":"assistant","message":{"id":"msg_BROKEN","#.to_string(),
    ];
    let sub = [
        USER.to_string(),
        assistant("msg_C", "2026-09-09T12:03:00Z", &model("sonnet-5"), 10, 20, 0, 5000, 0)
            .replace(r#""isSidechain":false"#, r#""isSidechain":true"#),
    ];
    let text = |lines: &[String]| lines.iter().map(|l| format!("{l}\n")).collect::<String>();
    let now = ts("2026-09-09T13:00:00Z");
    let quiet = ts("2026-09-09T12:30:00Z");
    Disk {
        now,
        root: true,
        files: vec![
            ("proj-a/sess-1.jsonl".into(), text(&main).into_bytes(), quiet),
            ("proj-a/sess-1/subagents/agent-1.jsonl".into(), text(&sub).into_bytes(), quiet),
        ],
    }
}

fn truncated() -> Disk {
    let opus = model("opus-5");
    let mut text = String::new();
    for (id, time) in [("msg_T1", "2026-09-09T12:00:01Z"), ("msg_T2", "2026-09-09T12:00:02Z")] {
        text.push_str(&assistant(id, time, &opus, 1, 1, 0, 0, 0));
        text.push('\n');
    }
    text.push_str(&format!(
        r#"{{"type":"assistant","timestamp":"2026-09-09T12:00:03Z","sessionId":"s","message":{{"id":"msg_T3","model":"{opus}","usage":{{"input_tokens":3,"out"#
    ));
    let now = ts("2026-09-09T12:00:04Z");
    Disk { now, root: true, files: vec![("p/s.jsonl".into(), text.into_bytes(), now)] }
}

fn whole_day() -> (Timestamp, Timestamp) {
    (ts("2026-09-09T00:00:00Z"), ts("2026-09-10T00:00:00Z"))
}

#[test]
fn empty_projects_dir() {
    let mut s = Scanner::new();
    let disk = Disk { now: ts("2026-09-09T12:00:00Z"), root: true, files: vec![] };
    let r = disk.scan(&mut s);
    assert!(r.root_exists);
    assert_eq!(r.files_seen, 0);
    assert_eq!(s.store().len(), 0);
    let t = today(s.store(), &prices(), Zone::Fixed(0), disk.now);
    assert_eq!(t.requests, 0);
    approx(cost_usd(&t), 0.0);
}

#[test]
fn missing_projects_dir_is_not_an_error() {
    let mut s = Scanner::new();
    let disk = Disk { now: ts("2026-09-09T12:00:00Z"), root: false, files: vec![] };
    let r = disk.scan(&mut s);
    assert!(!r.root_exists);
    assert_eq!(s.store().len(), 0);
    assert_eq!(s.tracked_files(), 0);
}

#[test]
fn basic_fixture_counts_and_costs() {
    let mut s = Scanner::new();
    let r = basic().scan(&mut s);
    assert_eq!(r.files_seen, 2, "main transcript + subagent transcript");
    assert_eq!(r.events_added, 4, "msg_A, msg_B, msg_UNKNOWN, msg_C");
    assert_eq!(r.events_updated, 1, "second msg_A record");
    assert_eq!(r.lines_malformed, 1);
    assert_eq!(r.lines_ignored, 6, "3 user + 1 synthetic + 1 system + 1 ai-title");
    assert_eq!(r.partial_lines, 0);
    assert_eq!(s.store().len(), 4);

    let (a, b) = whole_day();
    let t = totals(s.store(), &prices(), a, b);
    assert_eq!(t.requests, 4);
    assert_eq!(
        t.usage,
        TokenUsage {
            input: 2 + 2 + 1000 + 10,
            output: 250 + 100 + 1000 + 20,
            cache_creation: 30556 + 800,
            cache_creation_5m: 0,
            cache_creation_1h: 30556 + 800,
            cache_read: 30556 + 5000,
            thinking: 80,
        }
    );
    // opus-5:    2*5 + 250*25 + 30556*10 (1h write)     = 0.31182
    // fable-5-1: 2*10 + 100*50 + 800*20 + 30556*0.25    = 0.028659
    // sonnet-5:  10*2 + 20*10 + 5000*0.2                = 0.00122
    approx(cost_usd(&t), 0.31182 + 0.028659 + 0.00122);
    assert_eq!(t.unpriced_tokens, 2000, "unknown model tokens are counted but not priced");
}

#[test]
fn duplicate_message_id_last_record_wins() {
    let mut s = Scanner::new();
    basic().scan(&mut s);
    let all = s.store().iter();
    let a = all.iter().find(|e| e.message_id == "msg_A").unwrap();
    assert_eq!(a.usage.output, 250, "not 3 (first record) and not 253 (sum)");
    assert_eq!(a.usage.thinking, 80);
}

#[test]
fn synthetic_and_malformed_are_excluded() {
    let mut s = Scanner::new();
    basic().scan(&mut s);
    assert!(s.store().iter().iter().all(|e| e.model != "<synthetic>"));
    assert!(s.store().iter().iter().all(|e| e.message_id != "msg_BROKEN"));
}

#[test]
fn subagent_transcripts_are_discovered_and_flagged() {
    let mut s = Scanner::new();
    basic().scan(&mut s);
    let all = s.store().iter();
    let c = all.iter().find(|e| e.message_id == "msg_C").unwrap();
    assert!(c.is_sidechain);
    assert_eq!(c.session, "sess-1");
    assert_eq!(c.model, model("sonnet-5"));
}

#[test]
fn by_model_and_by_session() {
    let mut s = Scanner::new();
    basic().scan(&mut s);
    let p = prices();
    let (a, b) = whole_day();
    let models: Vec<String> = by_model(s.store(), &p, a, b).into_iter().map(|m| m.model).collect();
    assert_eq!(
        models,
        [model("fable-5-1"), model("opus-5"), model("sonnet-5"), model("unicorn-9")]
    );
    let sessions = by_session(s.store(), &p, a, b);
    assert_eq!(sessions.len(), 1);
    assert_eq!(sessions[0].session, "sess-1");
    assert_eq!(
        sessions[0].first,
        ts("2026-09-09T12:00:07Z"),
        "timestamp of the last record for msg_A"
    );
    assert_eq!(sessions[0].last, ts("2026-09-09T12:03:00Z"));
    assert_eq!(sessions[0].totals.requests, 4);
}

#[test]
fn unchanged_files_are_not_reread() {
    let mut s = Scanner::new();
    let disk = basic();
    let r1 = disk.scan(&mut s);
    assert!(r1.bytes_read > 0);
    let r2 = disk.scan(&mut s);
    assert_eq!(r2.files_read, 0);
    assert_eq!(r2.bytes_read, 0);
    assert_eq!(r2.events_added, 0);
    assert_eq!(s.store().len(), 4);
    assert_eq!(s.tracked_files(), 2);
}

#[test]
fn truncated_final_line_waits_then_completes() {
    let mut disk = truncated();
    let mut s = Scanner::new();
    let r1 = disk.scan(&mut s);
    assert_eq!(r1.events_added, 2);
    assert_eq!(r1.partial_lines, 1);
    assert_eq!(r1.lines_malformed, 0, "an in-progress line is not malformed");
    assert_eq!(s.store().len(), 2);

    // Nothing changed, tail not settled: no read at all.
    let r2 = disk.scan(&mut s);
    assert_eq!(r2.bytes_read, 0);

    // The writer finishes the line.
    let rest = br#"put_tokens":3,"cache_creation_input_tokens":0,"cache_read_input_tokens":0}}}"#;
    let mut bytes = disk.files[0].1.clone();
    bytes.extend_from_slice(rest);
    bytes.push(0x0A);
    disk.set("p/s.jsonl", bytes);

    let r3 = disk.scan(&mut s);
    assert_eq!(r3.events_added, 1);
    assert_eq!(r3.partial_lines, 0);
    assert_eq!(s.store().len(), 3);
    let all = s.store().iter();
    let t3 = all.iter().find(|e| e.message_id == "msg_T3").unwrap();
    assert_eq!(t3.usage.input, 3);
    assert_eq!(t3.usage.output, 3);
}

#[test]
fn settled_tail_that_never_completes_is_malformed_once() {
    let mut disk = truncated();
    let mut s = Scanner::new().with_settle_after(Duration::from_secs(60));
    let r1 = disk.scan(&mut s);
    assert_eq!(r1.partial_lines, 1);

    // Pretend the file has been quiet for two minutes.
    disk.files[0].2 = Timestamp { secs: disk.now.secs - 120, ..disk.now };

    let r2 = disk.scan(&mut s);
    assert_eq!(r2.partial_lines, 0);
    assert_eq!(r2.lines_malformed, 1);
    assert_eq!(s.store().len(), 2);

    let r3 = disk.scan(&mut s);
    assert_eq!(r3.bytes_read, 0, "tail is consumed, not re-read forever");
}

#[test]
fn shrunk_file_is_reset_and_rescanned() {
    let mut disk = basic();
    let mut s = Scanner::new();
    disk.scan(&mut s);
    assert_eq!(s.store().len(), 4);

    // Keep only the first three lines (user + both msg_A records).
    let content = String::from_utf8(disk.files[0].1.clone()).unwrap();
    let head: String = content.lines().take(3).map(|l| format!("{l}\n")).collect();
    disk.set("proj-a/sess-1.jsonl", head.into_bytes());

    let r = disk.scan(&mut s);
    assert_eq!(r.files_reset, 1);
    let all = s.store().iter();
    let mut ids: Vec<&str> = all.iter().map(|e| e.message_id).collect();
    ids.sort();
    assert_eq!(
        ids,
        ["msg_A", "msg_C"],
        "events from the rewritten file were dropped; subagent file untouched"
    );
}

#[test]
fn a_file_scanned_as_it_grows_is_as_one_scanned_whole() {
    let mut disk = basic();
    let (path, bytes, _) = disk.files[0].clone();
    let state = |s: &Scanner| {
        let all = s.store().iter();
        all.iter().map(|e| (e.message_id.to_string(), e.usage)).collect::<Vec<_>>()
    };
    let mut whole = Scanner::new();
    disk.files = vec![(path.clone(), bytes.clone(), disk.now)];
    disk.scan(&mut whole);
    for cut in (0..bytes.len()).step_by(97) {
        let mut s = Scanner::new();
        disk.set(&path, bytes[..cut].to_vec());
        disk.scan(&mut s);
        disk.set(&path, bytes.clone());
        let r = disk.scan(&mut s);
        let lines = bytes[..cut].iter().rposition(|b| *b == 0x0A).map_or(0, |n| n + 1);
        assert_eq!(r.bytes_read, (bytes.len() - lines) as u64, "cut at {cut}");
        assert_eq!(state(&s), state(&whole), "cut at {cut}");
    }
}

#[test]
fn a_shrunk_file_is_read_again_up_to_its_last_line() {
    let mut disk = basic();
    disk.now = ts("2026-09-09T12:30:01Z");
    let mut s = Scanner::new();
    disk.scan(&mut s);

    // The first line, and the start of a second one.
    let content = String::from_utf8(disk.files[0].1.clone()).unwrap();
    let msg_b = content.lines().nth(4).unwrap();
    let head = format!("{msg_b}\n{}", r#"{"type":"#);
    let len = head.len() as u64;
    disk.set("proj-a/sess-1.jsonl", head.into_bytes());
    let r = disk.scan(&mut s);
    assert_eq!((r.files_seen, r.files_read, r.files_reset), (2, 1, 1));
    assert_eq!((r.bytes_read, r.partial_lines, r.lines_malformed), (len, 1, 0));
    assert_eq!((r.events_added, r.events_updated), (1, 0));
    let all = s.store().iter();
    let mut ids: Vec<&str> = all.iter().map(|e| e.message_id).collect();
    ids.sort();
    assert_eq!(ids, ["msg_B", "msg_C"]);

    // Once the file has settled, the tail is read, and then nothing more.
    disk.now = ts("2026-09-09T13:00:00Z");
    let r = disk.scan(&mut s);
    assert_eq!((r.files_read, r.files_reset, r.bytes_read, r.lines_malformed), (1, 0, 8, 1));
    let r = disk.scan(&mut s);
    assert_eq!(r, ScanReport::begin(Some(2)));
}

#[test]
fn lines_that_are_no_text_are_malformed_whatever_their_record() {
    let now = ts("2026-09-09T12:00:00Z");
    let mut s = Scanner::new();
    let mut r = ScanReport::begin(Some(1));
    let meta = FileMeta { len: 3, mtime: now };
    let plan = s.visit("p/s.jsonl", meta, now, None, &mut r).unwrap();
    let framed = frame(b"\xff\n7\n", plan.settled);
    let line = assistant("m", "2026-09-09T12:00:05Z", "x", 1, 1, 0, 0, 0);
    s.absorb("p/s.jsonl", meta, plan, 4, &framed, vec![read(&line), None], &mut r);
    assert_eq!((r.lines_malformed, r.lines_ignored, r.events_added), (1, 1, 0));
    assert_eq!((r.files_seen, r.files_read, r.bytes_read), (1, 1, 4));
}

#[test]
fn session_spanning_local_midnight_is_split_by_local_day() {
    let mut text = String::new();
    for (id, time) in [("m1", "2026-09-10T02:50:00Z"), ("m2", "2026-09-10T03:10:00Z")] {
        text.push_str(&assistant(id, time, &model("opus-5"), 100, 0, 0, 0, 0));
        text.push('\n');
    }
    let now = ts("2026-09-10T04:00:00Z");
    let disk = Disk { now, root: true, files: vec![("p/s.jsonl".into(), text.into_bytes(), now)] };
    let mut s = Scanner::new();
    disk.scan(&mut s);
    let p = prices();
    let sao_paulo = Zone::Fixed(-3 * 3600);
    let utc = Zone::Fixed(0);
    let d10 = date(2026, 9, 10);

    let local = daily(s.store(), &p, sao_paulo, d10, 2);
    assert_eq!(local[0].date, date(2026, 9, 9));
    assert_eq!(local[0].totals.usage.input, 100, "23:50 local on Sep 9");
    assert_eq!(local[1].totals.usage.input, 100, "00:10 local on Sep 10");

    let days = daily(s.store(), &p, utc, d10, 2);
    assert_eq!(days[0].totals.usage.input, 0);
    assert_eq!(days[1].totals.usage.input, 200, "both at 02:50 / 03:10 UTC on Sep 10");

    // `today` picks the local date from a UTC instant.
    let now = ts("2026-09-10T02:55:00Z"); // 23:55 in Sao Paulo
    assert_eq!(today(s.store(), &p, sao_paulo, now).usage.input, 100);
    assert_eq!(today(s.store(), &p, utc, now).usage.input, 200);
}

#[test]
fn retention_prunes_old_events() {
    let mut s = Scanner::new();
    basic().scan(&mut s);
    let mut r = ScanReport::default();
    s.finish(Some(ts("2026-09-09T12:01:30Z")), &mut r);
    assert_eq!(r.events_pruned, 2, "msg_A and msg_B are older");
    assert_eq!(s.store().len(), 2);
}

#[test]
fn trailing_window_counts_tokens_only() {
    let mut s = Scanner::new();
    basic().scan(&mut s);
    let now = ts("2026-09-09T12:02:30Z");
    let t = trailing(s.store(), &prices(), now, Span::minutes(1));
    assert_eq!(t.requests, 1, "only msg_UNKNOWN at 12:02:00 is within the last minute");
}

#[test]
fn transcripts_by_extension() {
    assert!(is_transcript("a.jsonl"));
    assert!(is_transcript("..jsonl"));
    assert!(!is_transcript(".jsonl"));
    assert!(!is_transcript("jsonl"));
    assert!(!is_transcript("a.jsonl.tmp"));
    assert!(!is_transcript("a.JSONL"));
    assert!(!is_transcript(""));
}

#[test]
fn old_files_are_skipped_and_old_events_pruned() {
    let mut disk = basic();
    let mut s = Scanner::new().with_retention_days(1);
    disk.now = ts("2026-09-10T12:30:00Z");
    assert!(s.has_cutoff(disk.now));
    assert_eq!(s.cutoff(disk.now), Some(ts("2026-09-09T12:30:00Z")));
    // The files were modified just at the cutoff, so they are read; their events are older.
    let r = disk.scan(&mut s);
    assert_eq!(r.files_skipped_old, 0);
    assert_eq!(r.events_added, 4);
    assert_eq!(r.events_pruned, 4);
    disk.now.nanos = 1;
    let r = disk.scan(&mut s);
    assert_eq!(r.files_skipped_old, 2);
    assert_eq!(s.store().len(), 0);
}

#[test]
fn a_cutoff_before_the_calendar_begins() {
    let s = Scanner::new().with_retention_days(106_751_991_167);
    assert!(!s.has_cutoff(ts("2026-09-10T12:30:00Z")));
    assert!(Scanner::new().has_cutoff(ts("2026-09-10T12:30:00Z")));
    assert_eq!(Scanner::new().cutoff(ts("2026-09-10T12:30:00Z")), None);
}

#[test]
fn lines_are_framed() {
    let f = frame(b" a \r\n\n\t\n\xff\nb", false);
    assert_eq!(f.lines, [Some("a".to_string()), None]);
    assert_eq!(f.consumed, 10);
    assert!(f.partial);
    let f = frame(b" a \r\n\n\t\n\xff\nb", true);
    assert_eq!(f.lines, [Some("a".to_string()), None, Some("b".to_string())]);
    assert_eq!(f.consumed, 11);
    assert!(!f.partial);
    let f = frame(b"", false);
    assert!(f.lines.is_empty() && f.consumed == 0 && !f.partial);
    // A vertical tab is not blank here.
    let f = frame(b"\x0b\n", false);
    assert_eq!(f.lines, [Some("\u{b}".to_string())]);
    // A settled tail of blanks is consumed without a line.
    let f = frame("ä\n  ".as_bytes(), true);
    assert_eq!(f.lines, [Some("ä".to_string())]);
    assert_eq!(f.consumed, 5);
}

#[test]
fn lines_are_trimmed_of_blanks_only() {
    for (line, trimmed) in [
        (&b""[..], &b""[..]),
        (b" \t\n\x0c\r", b""),
        (b" a b\r", b"a b"),
        (b"\x0b a \x0b", b"\x0b a \x0b"),
        (b"\n\xc2\xa0\n", b"\xc2\xa0"),
    ] {
        assert_eq!(trim_ascii(line), trimmed);
        assert_eq!(trim_ascii(trimmed), trimmed);
    }
}

#[test]
fn names_keep_their_numbers() {
    let mut names = Interner::new();
    assert_eq!(names.intern("a"), 0);
    assert_eq!(names.intern(""), 1);
    assert_eq!(names.intern("a"), 0);
    assert_eq!(names.intern("b"), 2);
    assert_eq!(names.intern(""), 1);
    assert_eq!((names.name(0), names.name(1), names.name(2)), ("a", "", "b"));
}

#[test]
fn bytes_read_in_pieces_give_the_lines_of_the_whole() {
    let whole = b"one\ntwo\n\nthree\nfour".to_vec();
    let all = frame(&whole, true).lines;
    for cut in 0..=whole.len() {
        let first = frame(&whole[..cut], false);
        let second = frame(&whole[first.consumed..], true);
        let mut lines = first.lines;
        lines.extend(second.lines);
        assert_eq!(lines, all, "cut at {cut}");
    }
}

fn event(id: &str, t: &str, output: u64) -> UsageEvent {
    UsageEvent {
        message_id: id.into(),
        session_id: "s".into(),
        timestamp: ts(t),
        model: "m".into(),
        usage: TokenUsage { output, ..Default::default() },
        is_sidechain: false,
        fast: false,
    }
}

#[test]
fn store_keeps_one_event_per_message() {
    let mut s = UsageStore::new();
    assert!(s.is_empty());
    assert_eq!((s.earliest(), s.latest()), (None, None));
    assert_eq!(s.upsert(event("a", "2026-01-01T00:00:00Z", 1), 0), Upsert::Added);
    assert_eq!(s.upsert(event("b", "2026-01-03T00:00:00Z", 2), 1), Upsert::Added);
    assert_eq!(s.upsert(event("a", "2026-01-02T00:00:00Z", 3), 0), Upsert::Updated);
    assert_eq!(s.len(), 2);
    let all = s.iter();
    assert_eq!(all.iter().find(|e| e.message_id == "a").unwrap().usage.output, 3);
    assert_eq!(all.iter().find(|e| e.message_id == "b").unwrap().usage.output, 2);
    assert_eq!(s.earliest(), Some(ts("2026-01-02T00:00:00Z")));
    assert_eq!(s.latest(), Some(ts("2026-01-03T00:00:00Z")));
    assert_eq!(s.between(ts("2026-01-02T00:00:00Z"), ts("2026-01-03T00:00:00Z")).len(), 1);
    assert_eq!(s.remove_file(0), 1);
    assert_eq!(s.iter()[0].message_id, "b");
    assert_eq!(s.upsert(event("a", "2026-01-02T00:00:00Z", 4), 0), Upsert::Added);
    assert_eq!(s.prune_before(ts("2026-01-03T00:00:00Z")), 1);
    assert_eq!(s.upsert(event("b", "2026-01-03T00:00:00Z", 5), 1), Upsert::Updated);
    assert_eq!(s.len(), 1);
}

#[test]
fn rows_of_equal_size_go_by_name() {
    let mut s = UsageStore::new();
    for (id, name) in [("1", "b"), ("2", "ä"), ("3", "a"), ("4", "B")] {
        let mut ev = event(id, "2026-01-01T00:00:00Z", 7);
        ev.model = name.into();
        ev.session_id = name.into();
        s.upsert(ev, 0);
    }
    let (a, b) = (ts("2026-01-01T00:00:00Z"), ts("2026-01-02T00:00:00Z"));
    let p = prices();
    let models: Vec<String> = by_model(&s, &p, a, b).into_iter().map(|m| m.model).collect();
    assert_eq!(models, ["B", "a", "b", "ä"]);
    let sessions: Vec<String> = by_session(&s, &p, a, b).into_iter().map(|m| m.session).collect();
    assert_eq!(sessions, ["B", "a", "b", "ä"]);
}

#[test]
fn ranges_days_and_models_add_up() {
    let mut s = Scanner::new();
    basic().scan(&mut s);
    let p = prices();
    let (a, b) = whole_day();
    let whole = totals(s.store(), &p, a, b);
    let noon = ts("2026-09-09T12:01:30Z");
    let mut sum = totals(s.store(), &p, a, noon);
    let rest = totals(s.store(), &p, noon, b);
    sum.usage.add(&rest.usage);
    assert_eq!(sum.usage, whole.usage);
    assert_eq!(sum.requests + rest.requests, whole.requests);
    let mut models = TokenUsage::default();
    let (mut requests, mut charges, mut unpriced, mut cost) = (0, 0, 0, 0.0);
    for m in by_model(s.store(), &p, a, b) {
        models.add(&m.totals.usage);
        requests += m.totals.requests;
        charges += m.totals.charges.len();
        unpriced += m.totals.unpriced_tokens;
        cost += cost_usd(&m.totals);
    }
    assert_eq!(models, whole.usage);
    assert_eq!((requests, charges, unpriced), (4, 3, 2000));
    assert_eq!((whole.requests, whole.charges.len(), whole.unpriced_tokens), (4, 3, 2000));
    approx(cost, cost_usd(&whole));
    let mut days = TokenUsage::default();
    for d in daily(s.store(), &p, Zone::Fixed(7200), date(2026, 9, 10), 3) {
        days.add(&d.totals.usage);
    }
    assert_eq!(days, whole.usage);
}

#[test]
fn days_of_a_fixed_offset() {
    let d = date(2026, 9, 10);
    assert_eq!(
        day_bounds(Zone::Fixed(3600), d),
        (ts("2026-09-10T00:00:00+01:00"), ts("2026-09-11T00:00:00+01:00"))
    );
    assert_eq!(
        span_bounds(Zone::Fixed(0), d, 7),
        (ts("2026-09-04T00:00:00Z"), ts("2026-09-11T00:00:00Z"))
    );
    assert_eq!(local_date(Zone::Fixed(-1), ts("2026-09-10T00:00:00Z")), date(2026, 9, 9));
    assert_eq!(local_date(Zone::Fixed(0), ts("1969-12-31T23:59:59Z")), date(1969, 12, 31));
    // At the edge of the calendar a later minute, or midnight UTC, stands in.
    let first = Date { day: -95_746_129 };
    let t = Timestamp { secs: -8_334_601_228_800, nanos: 0 };
    assert_eq!(day_bounds(Zone::Fixed(0), first).0, t);
    assert_eq!(day_bounds(Zone::Fixed(3600), first).0, t);
    assert_eq!(day_bounds(Zone::Fixed(80_000), first).0, t);
    assert_eq!(day_bounds(Zone::Fixed(-60), first).0.secs, t.secs + 60);
}

#[test]
fn days_of_this_machine_hold_their_moments() {
    let now = ts("2026-09-10T02:55:00Z");
    let d = local_date(Zone::Local, now);
    let (start, end) = day_bounds(Zone::Local, d);
    assert!(start <= now && now < end);
    assert!((end.secs - start.secs - 86_400).abs() <= 7200);
    assert_eq!(span_bounds(Zone::Local, d, 1), (start, end));
    // The day begins less than a day, and two hours for a clock that skips them, from UTC.
    let utc = day_bounds(Zone::Fixed(0), d).0.secs;
    assert!(start.nanos == 0 && utc - 86_400 < start.secs && start.secs < utc + 93_600);

    let mut s = Scanner::new();
    basic().scan(&mut s);
    let p = prices();
    let rows = daily(s.store(), &p, Zone::Local, d, 3);
    assert_eq!(rows[2].date, d);
    for (i, row) in rows.iter().enumerate() {
        assert_eq!(row.date.day, d.day - 2 + i as i32);
        let (start, end) = day_bounds(Zone::Local, row.date);
        assert_eq!(row.totals, totals(s.store(), &p, start, end));
    }
    assert_eq!(today(s.store(), &p, Zone::Local, now), rows[2].totals);
}

#[test]
fn sums_that_do_not_fit() {
    let mut s = UsageStore::new();
    s.upsert(event("a", "2026-01-01T00:00:00Z", u64::MAX), 0);
    assert!(fits(&s));
    s.upsert(event("b", "2026-01-01T00:00:00Z", 1), 0);
    assert!(!fits(&s));
    assert!(fits(&UsageStore::new()));
}

#[test]
fn report_can_run_full() {
    let r = ScanReport { lines_ignored: usize::MAX - 1, bytes_read: 5, ..ScanReport::default() };
    assert!(r.can_count(1, u64::MAX - 5));
    assert!(!r.can_count(2, 0));
    assert!(!r.can_count(1, u64::MAX - 4));
}
