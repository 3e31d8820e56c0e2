//! Lenient reading of one transcript line.
//!
//! The fields named here are the ones that matter; all others are ignored. A line reaches
//! [`parse_line`] as its text and, if that has the shape of a record, the fields that JSON gave
//! for it, each absent where the line does not have it.

use vstd::prelude::*;

use crate::model::{Event, TokenUsage, UsageEvent};
use crate::text::str_eq;
use crate::time::{parse_rfc3339, rfc3339_moment, Timestamp};

verus! {

/// What a transcript line turned out to be.
#[derive(Debug, PartialEq)]
pub enum ParsedLine {
    /// An assistant record carrying usage.
    Usage(UsageEvent),
    /// Valid JSON, but not a usage-bearing assistant record (user, system, summary,
    /// synthetic error message, …).
    Ignored,
    /// Not valid JSON (truncated write, corruption).
    Malformed,
}

/// A transcript record, as far as its fields matter.
#[derive(Debug, Clone, PartialEq)]
pub struct RawRecord {
    /// `type`
    pub kind: Option<String>,
    pub timestamp: Option<String>,
    /// `sessionId`
    pub session_id: Option<String>,
    /// `isSidechain`
    pub is_sidechain: Option<bool>,
    /// `isApiErrorMessage`
    pub is_api_error_message: Option<bool>,
    pub message: Option<RawMessage>,
}

#[derive(Debug, Clone, PartialEq)]
pub struct RawMessage {
    pub id: Option<String>,
    pub model: Option<String>,
    pub usage: Option<RawUsage>,
}

#[derive(Debug, Clone, PartialEq)]
pub struct RawUsage {
    pub input_tokens: Option<u64>,
    pub output_tokens: Option<u64>,
    pub cache_creation_input_tokens: Option<u64>,
    pub cache_read_input_tokens: Option<u64>,
    pub cache_creation: Option<RawCacheCreation>,
    pub output_tokens_details: Option<RawOutputDetails>,
    pub speed: Option<String>,
}

#[derive(Debug, Clone, Copy, PartialEq)]
pub struct RawCacheCreation {
    pub ephemeral_5m_input_tokens: Option<u64>,
    pub ephemeral_1h_input_tokens: Option<u64>,
}

#[derive(Debug, Clone, Copy, PartialEq)]
pub struct RawOutputDetails {
    pub thinking_tokens: Option<u64>,
}

/// A line of text, read as JSON.
#[derive(Debug, Clone, PartialEq)]
pub enum RawLine {
    /// JSON with the shape of a record.
    Record(RawRecord),
    /// JSON of some other shape.
    OtherJson,
    /// Not JSON.
    NotJson,
}

/// What a [`ParsedLine`] says.
#[verifier::ext_equal]
pub enum Parsed {
    Usage(Event),
    Ignored,
    Malformed,
}

impl View for ParsedLine {
    type V = Parsed;

    open spec fn view(&self) -> Parsed {
        match *self {
            ParsedLine::Usage(ev) => Parsed::Usage(ev@),
            ParsedLine::Ignored => Parsed::Ignored,
            ParsedLine::Malformed => Parsed::Malformed,
        }
    }
}

/// The field is there and its text is `s`.
pub open spec fn text_is(field: Option<String>, s: Seq<char>) -> bool {
    field matches Some(t) && t@ == s
}

/// A count, which is zero where it is absent.
pub open spec fn count(field: Option<u64>) -> u64 {
    match field {
        Some(n) => n,
        None => 0,
    }
}

/// The token counts of a usage object.
pub open spec fn usage_counts(u: RawUsage) -> TokenUsage {
    TokenUsage {
        input: count(u.input_tokens),
        output: count(u.output_tokens),
        cache_creation: count(u.cache_creation_input_tokens),
        cache_creation_5m: match u.cache_creation {
            Some(c) => count(c.ephemeral_5m_input_tokens),
            None => 0,
        },
        cache_creation_1h: match u.cache_creation {
            Some(c) => count(c.ephemeral_1h_input_tokens),
            None => 0,
        },
        cache_read: count(u.cache_read_input_tokens),
        thinking: match u.output_tokens_details {
            Some(d) => count(d.thinking_tokens),
            None => 0,
        },
    }
}

/// The record is that of an API response: an assistant record, not an error message, whose
/// message has an id, usage and the model that wrote it.
pub open spec fn bears_usage(rec: RawRecord) -> bool {
    &&& text_is(rec.kind, "assistant"@)
    &&& rec.is_api_error_message != Some(true)
    &&& rec.message is Some
    &&& rec.message->0.model is Some
    &&& rec.message->0.model->0@ != "<synthetic>"@
    &&& rec.message->0.id is Some
    &&& rec.message->0.usage is Some
}

/// The event of a record that bears usage and was written at `moment`.
pub open spec fn event_of(rec: RawRecord, moment: Timestamp) -> Event {
    let msg = rec.message->0;
    Event {
        message_id: msg.id->0@,
        session: match rec.session_id {
            Some(s) => s@,
            None => Seq::empty(),
        },
        timestamp: moment,
        model: msg.model->0@,
        usage: usage_counts(msg.usage->0),
        is_sidechain: rec.is_sidechain == Some(true),
        fast: text_is(msg.usage->0.speed, "fast"@),
    }
}

/// What a line says whose timestamp stands for `moment`.
pub open spec fn meaning(line: RawLine, moment: Option<Timestamp>) -> Parsed {
    match line {
        RawLine::NotJson => Parsed::Malformed,
        RawLine::OtherJson => Parsed::Ignored,
        RawLine::Record(rec) => if bears_usage(rec) && moment is Some {
            Parsed::Usage(event_of(rec, moment->0))
        } else {
            Parsed::Ignored
        },
    }
}

/// The moment that a line's timestamp stands for.
pub open spec fn written_at(line: RawLine) -> Option<Timestamp> {
    match line {
        RawLine::Record(RawRecord { timestamp: Some(t), .. }) => rfc3339_moment(t@),
        _ => None,
    }
}

fn or_zero(field: Option<u64>) -> (n: u64)
    ensures
        n == count(field),
{
    match field {
        Some(n) => n,
        None => 0,
    }
}

fn is_text(field: &Option<String>, s: &str) -> (r: bool)
    ensures
        r == text_is(*field, s@),
{
    match field {
        Some(t) => str_eq(t.as_str(), s),
        None => false,
    }
}

fn read_usage(u: &RawUsage) -> (r: TokenUsage)
    ensures
        r == usage_counts(*u),
{
    let (c5, c1) = match u.cache_creation {
        Some(c) => (or_zero(c.ephemeral_5m_input_tokens), or_zero(c.ephemeral_1h_input_tokens)),
        None => (0, 0),
    };
    let thinking = match u.output_tokens_details {
        Some(d) => or_zero(d.thinking_tokens),
        None => 0,
    };
    TokenUsage {
        input: or_zero(u.input_tokens),
        output: or_zero(u.output_tokens),
        cache_creation: or_zero(u.cache_creation_input_tokens),
        cache_creation_5m: c5,
        cache_creation_1h: c1,
        cache_read: or_zero(u.cache_read_input_tokens),
        thinking,
    }
}

/// Reads a line whose timestamp stands for `moment`.
pub fn read_line(line: RawLine, moment: Option<Timestamp>) -> (r: ParsedLine)
    ensures
        r@ == meaning(line, moment),
{
    let rec = match line {
        RawLine::Record(rec) => rec,
        RawLine::OtherJson => return ParsedLine::Ignored,
        RawLine::NotJson => return ParsedLine::Malformed,
    };
    if !is_text(&rec.kind, "assistant") {
        return ParsedLine::Ignored;
    }
    if let Some(true) = rec.is_api_error_message {
        return ParsedLine::Ignored;
    }
    let msg = match rec.message {
        Some(m) => m,
        None => return ParsedLine::Ignored,
    };
    let model = match msg.model {
        Some(m) => m,
        None => return ParsedLine::Ignored,
    };
    if str_eq(model.as_str(), "<synthetic>") {
        return ParsedLine::Ignored;
    }
    let (id, usage) = match (msg.id, msg.usage) {
        (Some(id), Some(u)) => (id, u),
        _ => return ParsedLine::Ignored,
    };
    let timestamp = match moment {
        Some(t) => t,
        None => return ParsedLine::Ignored,
    };
    let session_id = match rec.session_id {
        Some(s) => s,
        None => String::new(),
    };
    let is_sidechain = match rec.is_sidechain {
        Some(b) => b,
        None => false,
    };
    let counts = read_usage(&usage);
    let fast = is_text(&usage.speed, "fast");
    let ev = UsageEvent {
        message_id: id,
        session_id,
        timestamp,
        model,
        usage: counts,
        is_sidechain,
        fast,
    };
    assert(ev@.session =~= event_of(line->Record_0, timestamp).session);
    ParsedLine::Usage(ev)
}

/// Whether `serde_json` accepts a text as JSON of any shape.
pub uninterp spec fn is_json(text: Seq<char>) -> bool;

/// `serde_json::from_str` into `serde::de::IgnoredAny`, which takes any JSON and keeps nothing
/// of it. What it accepts is left to `serde_json`.
#[verifier::external_body]
fn is_any_json(text: &str) -> (r: bool)
    ensures
        r == is_json(text@),
{
    serde_json::from_str::<serde::de::IgnoredAny>(text).is_ok()
}

/// A line with that text, which has the shape of a record or not.
pub open spec fn raw_line(text: Seq<char>, record: Option<RawRecord>) -> RawLine {
    match record {
        Some(rec) => RawLine::Record(rec),
        None => if is_json(text) {
            RawLine::OtherJson
        } else {
            RawLine::NotJson
        },
    }
}

/// What a line says.
pub open spec fn said(text: Seq<char>, record: Option<RawRecord>) -> Parsed {
    let line = raw_line(text, record);
    meaning(line, written_at(line))
}

/// Reads one line, where `record` is what it says if it has the shape of a record. Never fails
/// on unexpected shapes: JSON of some other shape is ignored, and only a text that is not JSON
/// is malformed.
pub fn parse_line(text: &str, record: Option<RawRecord>) -> (r: ParsedLine)
    ensures
        r@ == said(text@, record),
        r matches ParsedLine::Usage(ev) ==> ev.timestamp.valid(),
{
    let line = match record {
        Some(rec) => RawLine::Record(rec),
        None => if is_any_json(text) {
            RawLine::OtherJson
        } else {
            RawLine::NotJson
        },
    };
    let moment = match &line {
        RawLine::Record(RawRecord { timestamp: Some(t), .. }) => parse_rfc3339(t.as_str()),
        _ => None,
    };
    read_line(line, moment)
}

/// Each count of an event is the field of its own name in the record, and zero where the record
/// does not have that field, whatever else it has.
pub proof fn counts_come_from_their_own_fields(u: RawUsage)
    ensures
        ({
            let c = usage_counts(u);
            &&& u.input_tokens == Some(c.input) || (u.input_tokens is None && c.input == 0)
            &&& u.output_tokens == Some(c.output) || (u.output_tokens is None && c.output == 0)
            &&& u.cache_creation_input_tokens == Some(c.cache_creation) || (
            u.cache_creation_input_tokens is None && c.cache_creation == 0)
            &&& u.cache_read_input_tokens == Some(c.cache_read) || (u.cache_read_input_tokens is None
                && c.cache_read == 0)
            &&& u.cache_creation matches Some(b) ==> {
                &&& b.ephemeral_5m_input_tokens == Some(c.cache_creation_5m) || (
                b.ephemeral_5m_input_tokens is None && c.cache_creation_5m == 0)
                &&& b.ephemeral_1h_input_tokens == Some(c.cache_creation_1h) || (
                b.ephemeral_1h_input_tokens is None && c.cache_creation_1h == 0)
            }
            &&& u.cache_creation is None ==> c.cache_creation_5m == 0 && c.cache_creation_1h == 0
            &&& u.output_tokens_details matches Some(d) ==> d.thinking_tokens == Some(c.thinking) || (
            d.thinking_tokens is None && c.thinking == 0)
            &&& u.output_tokens_details is None ==> c.thinking == 0
        }),
{
}

/// Two usage objects that agree on a field give the same count for it, however much they differ
/// in all other fields.
pub proof fn counts_do_not_depend_on_other_fields(a: RawUsage, b: RawUsage)
    ensures
        a.input_tokens == b.input_tokens ==> usage_counts(a).input == usage_counts(b).input,
        a.output_tokens == b.output_tokens ==> usage_counts(a).output == usage_counts(b).output,
        a.cache_creation_input_tokens == b.cache_creation_input_tokens ==> usage_counts(
            a,
        ).cache_creation == usage_counts(b).cache_creation,
        a.cache_read_input_tokens == b.cache_read_input_tokens ==> usage_counts(a).cache_read
            == usage_counts(b).cache_read,
        a.cache_creation == b.cache_creation ==> usage_counts(a).cache_creation_5m == usage_counts(
            b,
        ).cache_creation_5m && usage_counts(a).cache_creation_1h == usage_counts(
            b,
        ).cache_creation_1h,
        a.output_tokens_details == b.output_tokens_details ==> usage_counts(a).thinking
            == usage_counts(b).thinking,
{
}

/// A line is an event exactly when it is the record of an assistant's answer that is no error
/// message, and has a message with an id, usage and a model that is not synthetic, and a
/// timestamp that stands for a moment. Every other record is ignored; none is malformed.
pub proof fn which_records_are_events(text: Seq<char>, rec: RawRecord)
    ensures
        ({
            let p = said(text, Some(rec));
            let assistant = rec.kind matches Some(k) && k@ == "assistant"@;
            let complete = rec.message matches Some(m) && m.id is Some && m.usage is Some
                && m.model is Some && m.model->0@ != "<synthetic>"@;
            let dated = rec.timestamp matches Some(t) && crate::time::rfc3339(t@) is Some;
            &&& p is Usage <==> assistant && rec.is_api_error_message != Some(true) && complete
                && dated
            &&& !(p is Usage) ==> p is Ignored
        }),
{
}

/// The event of a record has the id, the model and the usage of its message, the session and
/// the moment of the record, and is marked as the record marks it.
pub proof fn events_say_what_their_records_say(text: Seq<char>, rec: RawRecord)
    requires
        said(text, Some(rec)) is Usage,
    ensures
        ({
            let ev = said(text, Some(rec))->Usage_0;
            let msg = rec.message->0;
            &&& ev.message_id == msg.id->0@
            &&& ev.model == msg.model->0@
            &&& ev.usage == usage_counts(msg.usage->0)
            &&& rec.session_id matches Some(s) ==> ev.session == s@
            &&& rec.session_id is None ==> ev.session.len() == 0
            &&& crate::time::rfc3339(rec.timestamp->0@) == Some(
                (ev.timestamp.secs, ev.timestamp.nanos),
            )
            &&& ev.is_sidechain <==> rec.is_sidechain == Some(true)
            &&& ev.fast <==> (msg.usage->0.speed matches Some(s) && s@ == "fast"@)
        }),
{
}

/// A line without the shape of a record is never an event: it is ignored if it is JSON at all,
/// and malformed if it is not.
pub proof fn other_lines_are_ignored_or_malformed(text: Seq<char>)
    ensures
        is_json(text) ==> said(text, None) is Ignored,
        !is_json(text) ==> said(text, None) is Malformed,
{
}

/// What a parsed line stands for is just what it holds.
pub proof fn parsed_lines_are_taken_as_they_are(line: ParsedLine)
    ensures
        line matches ParsedLine::Usage(ev) ==> line@ == Parsed::Usage(ev@),
        line is Ignored <==> line@ is Ignored,
        line is Malformed <==> line@ is Malformed,
{
}

} // verus!
