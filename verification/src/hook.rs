//! The `statusLine` command.
//!
//! Reads the documented status-line JSON, makes a short line for the terminal, and keeps the
//! limits in it together with the time at which they were captured. Sessions without
//! `rate_limits` (API-key auth, before the first response) never overwrite a good snapshot.

use vstd::prelude::*;

use crate::json::{
    as_i64, as_str, field, get, integer, json_of, json_text, number, number_text, parse, text,
    tree_of, value_text, within, Tree,
};
use crate::snapshot::second_moment;
use crate::text::{
    join, joined, opt_str, opt_text, signed_decimal, signed_decimal_of, texts,
};
use crate::time::{from_timestamp, Timestamp};

verus! {

/// A limit window in the status line.
#[derive(Debug, Clone, PartialEq, Eq)]
pub struct StatusWindow {
    /// Used percentage, in the decimal notation of the input.
    pub used: String,
    pub resets_at: Timestamp,
}

/// What the status-line input says.
#[derive(Debug, Clone, PartialEq, Eq)]
pub struct Status {
    pub model: String,
    /// Used percentage of the context window, in the decimal notation of the input.
    pub context: Option<String>,
    pub five_hour: Option<StatusWindow>,
    pub seven_day: Option<StatusWindow>,
}

/// What a [`StatusWindow`] says.
#[verifier::ext_equal]
pub struct StatusWindowView {
    pub used: Seq<char>,
    pub resets_at: Timestamp,
}

/// What a [`Status`] says.
#[verifier::ext_equal]
pub struct StatusView {
    pub model: Seq<char>,
    pub context: Option<Seq<char>>,
    pub five_hour: Option<StatusWindowView>,
    pub seven_day: Option<StatusWindowView>,
}

/// The view of an optional window.
pub open spec fn opt_status_window(w: Option<StatusWindow>) -> Option<StatusWindowView> {
    match w {
        Some(w) => Some(StatusWindowView { used: w.used@, resets_at: w.resets_at }),
        None => None,
    }
}

impl View for Status {
    type V = StatusView;

    open spec fn view(&self) -> StatusView {
        StatusView {
            model: self.model@,
            context: opt_text(self.context),
            five_hour: opt_status_window(self.five_hour),
            seven_day: opt_status_window(self.seven_day),
        }
    }
}

/// A window with both its members, and a reset that the calendar reaches.
pub open spec fn known_window(used: Option<Seq<char>>, resets_at: Option<i64>) -> Option<
    StatusWindowView,
> {
    match (used, resets_at) {
        (Some(used), Some(secs)) => match second_moment(secs) {
            Some(resets_at) => Some(StatusWindowView { used, resets_at }),
            None => None,
        },
        _ => None,
    }
}

/// The name to show for the model.
pub open spec fn known_model(display_name: Option<Seq<char>>, id: Option<Seq<char>>) -> Seq<char> {
    match (display_name, id) {
        (Some(n), _) => n,
        (None, Some(n)) => n,
        (None, None) => "?"@,
    }
}

/// The text of an optional value.
pub open spec fn text_in(value: Option<Tree>) -> Option<Seq<char>> {
    match value {
        Some(v) => text(v),
        None => None,
    }
}

/// The decimal notation of an optional value.
pub open spec fn number_in(value: Option<Tree>) -> Option<Seq<char>> {
    match value {
        Some(v) => number(v),
        None => None,
    }
}

/// The integer of an optional value.
pub open spec fn integer_in(value: Option<Tree>) -> Option<i64> {
    match value {
        Some(v) => integer(v),
        None => None,
    }
}

/// The window that a member of `rate_limits` describes.
pub open spec fn window_in(value: Option<Tree>) -> Option<StatusWindowView> {
    known_window(
        number_in(within(value, "used_percentage"@)),
        integer_in(within(value, "resets_at"@)),
    )
}

/// What the input says.
pub open spec fn status_of(doc: Tree) -> StatusView {
    let model = field(doc, "model"@);
    let limits = field(doc, "rate_limits"@);
    StatusView {
        model: known_model(
            text_in(within(model, "display_name"@)),
            text_in(within(model, "id"@)),
        ),
        context: number_in(within(field(doc, "context_window"@), "used_percentage"@)),
        five_hour: window_in(within(limits, "five_hour"@)),
        seven_day: window_in(within(limits, "seven_day"@)),
    }
}

/// The window with these members, if it is complete.
pub fn make_window(used: Option<String>, resets_at: Option<i64>) -> (r: Option<StatusWindow>)
    ensures
        opt_status_window(r) == known_window(opt_text(used), resets_at),
{
    match (used, resets_at) {
        (Some(used), Some(secs)) => match from_timestamp(secs, 0) {
            Some(resets_at) => Some(StatusWindow { used, resets_at }),
            None => None,
        },
        _ => None,
    }
}

/// The name to show for a model with this display name and id.
pub fn model_name(display_name: Option<&str>, id: Option<&str>) -> (r: String)
    ensures
        r@ == known_model(opt_str(display_name), opt_str(id)),
{
    match display_name {
        Some(n) => n.to_owned(),
        None => match id {
            Some(n) => n.to_owned(),
            None => "?".to_owned(),
        },
    }
}

/// A member of an optional value.
fn inner<'a>(value: Option<&'a serde_json::Value>, name: &str) -> (r: Option<&'a serde_json::Value>)
    ensures
        opt_tree(r) == within(opt_tree(value), name@),
{
    match value {
        Some(v) => get(v, name),
        None => None,
    }
}

/// What an optional value holds.
pub open spec fn opt_tree(value: Option<&serde_json::Value>) -> Option<Tree> {
    match value {
        Some(v) => Some(tree_of(*v)),
        None => None,
    }
}

fn opt_number(value: Option<&serde_json::Value>) -> (r: Option<String>)
    ensures
        opt_text(r) == number_in(opt_tree(value)),
{
    match value {
        Some(v) => number_text(v),
        None => None,
    }
}

fn window(value: Option<&serde_json::Value>) -> (r: Option<StatusWindow>)
    ensures
        opt_status_window(r) == window_in(opt_tree(value)),
{
    let used = opt_number(inner(value, "used_percentage"));
    let resets_at = match inner(value, "resets_at") {
        Some(v) => as_i64(v),
        None => None,
    };
    make_window(used, resets_at)
}

fn status_in(doc: &serde_json::Value) -> (r: Status)
    ensures
        r@ == status_of(tree_of(*doc)),
{
    let model = get(doc, "model");
    let display_name = match inner(model, "display_name") {
        Some(v) => as_str(v),
        None => None,
    };
    let id = match inner(model, "id") {
        Some(v) => as_str(v),
        None => None,
    };
    let limits = get(doc, "rate_limits");
    Status {
        model: model_name(display_name, id),
        context: opt_number(inner(get(doc, "context_window"), "used_percentage")),
        five_hour: window(inner(limits, "five_hour")),
        seven_day: window(inner(limits, "seven_day")),
    }
}

/// Reads the status-line input; nothing if it is not JSON.
pub fn read_status(input: &str) -> (r: Option<Status>)
    ensures
        match json_of(input@) {
            Ok(doc) => r is Some && r->0@ == status_of(doc),
            Err(_) => r is None,
        },
{
    let doc = match parse(input) {
        Ok(v) => v,
        Err(_) => return None,
    };
    Some(status_in(&doc))
}

impl Status {
    /// Whether there is something to keep: a limit window.
    pub fn has_limits(&self) -> (r: bool)
        ensures
            r == (self@.five_hour is Some || self@.seven_day is Some),
    {
        self.five_hour.is_some() || self.seven_day.is_some()
    }
}

/// Those members of an input that matter, as JSON texts.
#[derive(Debug, Clone, PartialEq, Eq)]
pub struct Members {
    pub context_window: Option<String>,
    pub cost: Option<String>,
    pub model: Option<String>,
    pub rate_limits: Option<String>,
    pub session_id: Option<String>,
    pub version: Option<String>,
}

/// What [`Members`] says.
#[verifier::ext_equal]
pub struct MembersView {
    pub context_window: Option<Seq<char>>,
    pub cost: Option<Seq<char>>,
    pub model: Option<Seq<char>>,
    pub rate_limits: Option<Seq<char>>,
    pub session_id: Option<Seq<char>>,
    pub version: Option<Seq<char>>,
}

impl View for Members {
    type V = MembersView;

    open spec fn view(&self) -> MembersView {
        MembersView {
            context_window: opt_text(self.context_window),
            cost: opt_text(self.cost),
            model: opt_text(self.model),
            rate_limits: opt_text(self.rate_limits),
            session_id: opt_text(self.session_id),
            version: opt_text(self.version),
        }
    }
}

/// A member as it is written.
pub open spec fn written(member: Option<Seq<char>>) -> Seq<char> {
    match member {
        Some(text) => text,
        None => "null"@,
    }
}

/// A snapshot: when it was captured, and the members as they are.
pub open spec fn snapshot_text(captured_at: int, m: MembersView) -> Seq<char> {
    "{\"captured_at\":"@ + signed_decimal(captured_at) + ",\"context_window\":"@ + written(
        m.context_window,
    ) + ",\"cost\":"@ + written(m.cost) + ",\"model\":"@ + written(m.model)
        + ",\"rate_limits\":"@ + written(m.rate_limits) + ",\"session_id\":"@ + written(
        m.session_id,
    ) + ",\"version\":"@ + written(m.version) + "}"@
}

/// The JSON text of an optional value.
pub open spec fn json_in(value: Option<Tree>) -> Option<Seq<char>> {
    match value {
        Some(v) => Some(json_text(v)),
        None => None,
    }
}

/// Those members of an input that matter.
pub open spec fn members_of(doc: Tree) -> MembersView {
    MembersView {
        context_window: json_in(field(doc, "context_window"@)),
        cost: json_in(field(doc, "cost"@)),
        model: json_in(field(doc, "model"@)),
        rate_limits: json_in(field(doc, "rate_limits"@)),
        session_id: json_in(field(doc, "session_id"@)),
        version: json_in(field(doc, "version"@)),
    }
}

fn push_member(out: &mut String, name: &str, member: &Option<String>)
    ensures
        final(out)@ == old(out)@ + name@ + written(opt_text(*member)),
{
    out.append(name);
    match member {
        Some(text) => out.append(text.as_str()),
        None => out.append("null"),
    }
}

/// Writes a snapshot.
pub fn write_snapshot(captured_at: i64, m: &Members) -> (s: String)
    ensures
        s@ == snapshot_text(captured_at as int, m@),
{
    let mut s = "{\"captured_at\":".to_owned();
    s.append(signed_decimal_of(captured_at).as_str());
    push_member(&mut s, ",\"context_window\":", &m.context_window);
    push_member(&mut s, ",\"cost\":", &m.cost);
    push_member(&mut s, ",\"model\":", &m.model);
    push_member(&mut s, ",\"rate_limits\":", &m.rate_limits);
    push_member(&mut s, ",\"session_id\":", &m.session_id);
    push_member(&mut s, ",\"version\":", &m.version);
    s.append("}");
    assert(s@ =~= snapshot_text(captured_at as int, m@));
    s
}

fn member(doc: &serde_json::Value, name: &str) -> (r: Option<String>)
    ensures
        opt_text(r) == json_in(field(tree_of(*doc), name@)),
{
    match get(doc, name) {
        Some(v) => Some(value_text(v)),
        None => None,
    }
}

/// The snapshot to be written for an input, if it is JSON and says something of a limit
/// window.
pub fn kept_snapshot(input: &str, captured_at: i64) -> (r: Option<String>)
    ensures
        match json_of(input@) {
            Ok(doc) => {
                &&& r is Some <==> status_of(doc).five_hour is Some || status_of(doc).seven_day is Some
                &&& r matches Some(s) ==> s@ == snapshot_text(captured_at as int, members_of(doc))
            },
            Err(_) => r is None,
        },
{
    let doc = match parse(input) {
        Ok(v) => v,
        Err(_) => return None,
    };
    if !status_in(&doc).has_limits() {
        return None;
    }
    let m = Members {
        context_window: member(&doc, "context_window"),
        cost: member(&doc, "cost"),
        model: member(&doc, "model"),
        rate_limits: member(&doc, "rate_limits"),
        session_id: member(&doc, "session_id"),
        version: member(&doc, "version"),
    };
    assert(m@ =~= members_of(tree_of(doc)));
    Some(write_snapshot(captured_at, &m))
}

/// The part of the line for a limit window: its name, the used percentage and the local time
/// of the reset.
pub open spec fn window_part(name: Seq<char>, window: Option<(Seq<char>, Seq<char>)>) -> Seq<
    Seq<char>,
> {
    match window {
        Some((pct, time)) => seq![name + " "@ + pct + "% (resets "@ + time + ")"@],
        None => Seq::empty(),
    }
}

/// The part of the line for the context window.
pub open spec fn context_part(context: Option<Seq<char>>) -> Seq<Seq<char>> {
    match context {
        Some(c) => seq!["ctx "@ + c + "%"@],
        None => Seq::empty(),
    }
}

/// The parts of the line, in order.
pub open spec fn line_parts(
    five_hour: Option<(Seq<char>, Seq<char>)>,
    seven_day: Option<(Seq<char>, Seq<char>)>,
    context: Option<Seq<char>>,
    model: Seq<char>,
) -> Seq<Seq<char>> {
    window_part("5h"@, five_hour) + window_part("7d"@, seven_day) + context_part(context)
        + seq![model]
}

/// A percentage and the local time of a reset, as text.
pub open spec fn opt_pair(w: Option<(&str, &str)>) -> Option<(Seq<char>, Seq<char>)> {
    match w {
        Some((a, b)) => Some((a@, b@)),
        None => None,
    }
}

/// The part of the line for a limit window.
fn push_window(parts: &mut Vec<String>, name: &str, window: Option<(&str, &str)>)
    ensures
        texts(final(parts)@) == texts(old(parts)@) + window_part(name@, opt_pair(window)),
{
    if let Some((pct, time)) = window {
        let mut s = name.to_owned();
        s.append(" ");
        s.append(pct);
        s.append("% (resets ");
        s.append(time);
        s.append(")");
        parts.push(s);
    }
    assert(texts(parts@) =~= texts(old(parts)@) + window_part(name@, opt_pair(window)));
}

/// The line for the terminal. Percentages come as whole numbers, resets as local times.
pub fn status_line(
    five_hour: Option<(&str, &str)>,
    seven_day: Option<(&str, &str)>,
    context: Option<&str>,
    model: &str,
) -> (r: String)
    ensures
        r@ == joined(
            line_parts(opt_pair(five_hour), opt_pair(seven_day), opt_str(context), model@),
            " | "@,
        ),
{
    let mut parts: Vec<String> = Vec::new();
    assert(texts(parts@) =~= Seq::<Seq<char>>::empty());
    push_window(&mut parts, "5h", five_hour);
    push_window(&mut parts, "7d", seven_day);
    let ghost before = texts(parts@);
    if let Some(c) = context {
        let mut s = "ctx ".to_owned();
        s.append(c);
        s.append("%");
        parts.push(s);
    }
    assert(texts(parts@) =~= before + context_part(opt_str(context)));
    parts.push(model.to_owned());
    assert(texts(parts@) =~= line_parts(
        opt_pair(five_hour),
        opt_pair(seven_day),
        opt_str(context),
        model@,
    ));
    join(&parts, " | ")
}

/// A status stands for just what its fields hold.
pub proof fn statuses_are_taken_as_they_are(s: Status, w: StatusWindow)
    ensures
        s@.model == s.model@,
        s.context matches Some(c) ==> s@.context == Some(c@),
        s.context is None ==> s@.context is None,
        s@.five_hour == opt_status_window(s.five_hour),
        s@.seven_day == opt_status_window(s.seven_day),
        opt_status_window(None) is None,
        opt_status_window(Some(w)) matches Some(v) && v.used == w.used@ && v.resets_at
            == w.resets_at,
{
}

/// Members stand for just what their fields hold.
pub proof fn members_are_taken_as_they_are(m: Members)
    ensures
        m.context_window matches Some(t) ==> m@.context_window == Some(t@),
        m.context_window is None ==> m@.context_window is None,
        m.cost matches Some(t) ==> m@.cost == Some(t@),
        m.cost is None ==> m@.cost is None,
        m.model matches Some(t) ==> m@.model == Some(t@),
        m.model is None ==> m@.model is None,
        m.rate_limits matches Some(t) ==> m@.rate_limits == Some(t@),
        m.rate_limits is None ==> m@.rate_limits is None,
        m.session_id matches Some(t) ==> m@.session_id == Some(t@),
        m.session_id is None ==> m@.session_id is None,
        m.version matches Some(t) ==> m@.version == Some(t@),
        m.version is None ==> m@.version is None,
{
}

/// The model is called by its display name where that is a text, else by its id, else by a
/// question mark.
pub proof fn what_the_model_is_called(doc: Tree, m: Tree)
    ensures
        field(doc, "model"@) is None ==> status_of(doc).model == "?"@,
        field(doc, "model"@) == Some(m) ==> ({
            let name = field(m, "display_name"@);
            let id = field(m, "id"@);
            &&& name matches Some(Tree::Text(t)) ==> status_of(doc).model == t
            &&& !(name is Some && name->0 is Text) && id is Some && id->0 is Text ==> status_of(
                doc,
            ).model == id->0->Text_0
            &&& !(name is Some && name->0 is Text) && !(id is Some && id->0 is Text) ==> status_of(
                doc,
            ).model == "?"@
        }),
{
}

/// The context is as full as the context window says, where it gives a number.
pub proof fn how_full_the_context_is(doc: Tree, c: Tree)
    ensures
        field(doc, "context_window"@) is None ==> status_of(doc).context is None,
        field(doc, "context_window"@) == Some(c) ==> ({
            let used = field(c, "used_percentage"@);
            &&& used matches Some(Tree::Number(_, t)) ==> status_of(doc).context == Some(t)
            &&& !(used is Some && used->0 is Number) ==> status_of(doc).context is None
        }),
{
}

/// The five-hour window of the status is that of `five_hour` below the limits: it is known if both its
/// percentage and a reset that the calendar reaches are there, and each is as it stands there.
pub proof fn what_the_status_says_of_the_session(doc: Tree, w: Tree)
    ensures
        within(field(doc, "rate_limits"@), "five_hour"@) is None ==> status_of(doc).five_hour is None,
        within(field(doc, "rate_limits"@), "five_hour"@) == Some(w) ==> ({
            let used = field(w, "used_percentage"@);
            let at = field(w, "resets_at"@);
            let s = status_of(doc).five_hour;
            &&& s is Some <==> used is Some && used->0 is Number && at is Some && (
            at->0 matches Tree::Number(Some(secs), _) && -8_334_601_228_800 <= secs
                <= 8_210_266_876_799)
            &&& s is Some ==> s->0.used == used->0->Number_1 && Some(s->0.resets_at.secs)
                == at->0->Number_0 && s->0.resets_at.nanos == 0
        }),
{
}

/// The seven-day window of the status is that of `seven_day` below the limits: it is known if both its
/// percentage and a reset that the calendar reaches are there, and each is as it stands there.
pub proof fn what_the_status_says_of_the_week(doc: Tree, w: Tree)
    ensures
        within(field(doc, "rate_limits"@), "seven_day"@) is None ==> status_of(doc).seven_day is None,
        within(field(doc, "rate_limits"@), "seven_day"@) == Some(w) ==> ({
            let used = field(w, "used_percentage"@);
            let at = field(w, "resets_at"@);
            let s = status_of(doc).seven_day;
            &&& s is Some <==> used is Some && used->0 is Number && at is Some && (
            at->0 matches Tree::Number(Some(secs), _) && -8_334_601_228_800 <= secs
                <= 8_210_266_876_799)
            &&& s is Some ==> s->0.used == used->0->Number_1 && Some(s->0.resets_at.secs)
                == at->0->Number_0 && s->0.resets_at.nanos == 0
        }),
{
}

/// A window needs both its members, and keeps them.
pub proof fn which_windows_are_known(used: Option<Seq<char>>, resets_at: Option<i64>)
    ensures
        ({
            let w = known_window(used, resets_at);
            &&& w is Some <==> used is Some && resets_at is Some && -8_334_601_228_800 <= resets_at->0
                <= 8_210_266_876_799
            &&& w is Some ==> Some(w->0.used) == used && Some(w->0.resets_at.secs) == resets_at
                && w->0.resets_at.nanos == 0
        }),
{
}

/// A snapshot keeps each member of the input under its own name, as it stands there.
pub proof fn which_members_are_kept(doc: Tree, v: Tree)
    ensures
        field(doc, "context_window"@) == Some(v) ==> members_of(doc).context_window == Some(json_text(v)),
        field(doc, "context_window"@) is None ==> members_of(doc).context_window is None,
        field(doc, "cost"@) == Some(v) ==> members_of(doc).cost == Some(json_text(v)),
        field(doc, "cost"@) is None ==> members_of(doc).cost is None,
        field(doc, "model"@) == Some(v) ==> members_of(doc).model == Some(json_text(v)),
        field(doc, "model"@) is None ==> members_of(doc).model is None,
        field(doc, "rate_limits"@) == Some(v) ==> members_of(doc).rate_limits == Some(json_text(v)),
        field(doc, "rate_limits"@) is None ==> members_of(doc).rate_limits is None,
        field(doc, "session_id"@) == Some(v) ==> members_of(doc).session_id == Some(json_text(v)),
        field(doc, "session_id"@) is None ==> members_of(doc).session_id is None,
        field(doc, "version"@) == Some(v) ==> members_of(doc).version == Some(json_text(v)),
        field(doc, "version"@) is None ==> members_of(doc).version is None,
{
}

/// A member of an object, as it is written: `null` where there is nothing.
pub open spec fn pair(name: Seq<char>, member: Option<Seq<char>>) -> Seq<char> {
    match member {
        Some(text) => name + text,
        None => name + "null"@,
    }
}

/// Another member behind those of an object.
proof fn lemma_member(start: Seq<char>, list: Seq<char>, name: Seq<char>, member: Option<Seq<char>>)
    requires
        start == "{"@ + list,
    ensures
        start + (","@ + name) + written(member) == "{"@ + (list + ","@ + pair(name, member)),
{
    assert(start + (","@ + name) + written(member) =~= "{"@ + (list + ","@ + pair(name, member)));
}

/// A snapshot is an object with the time of capture and then the members, in the order of their
/// names, with commas between them.
pub proof fn snapshots_are_objects(captured_at: int, m: MembersView)
    ensures
        snapshot_text(captured_at, m) == "{"@ + joined(
            seq![
                "\"captured_at\":"@ + signed_decimal(captured_at),
                pair("\"context_window\":"@, m.context_window),
                pair("\"cost\":"@, m.cost),
                pair("\"model\":"@, m.model),
                pair("\"rate_limits\":"@, m.rate_limits),
                pair("\"session_id\":"@, m.session_id),
                pair("\"version\":"@, m.version),
            ],
            ","@,
        ) + "}"@,
{
    reveal_strlit("{");
    reveal_strlit(",");
    reveal_strlit("\"captured_at\":");
    reveal_strlit("{\"captured_at\":");
    assert("{\"captured_at\":"@ =~= "{"@ + "\"captured_at\":"@);
    reveal_strlit("\"context_window\":");
    reveal_strlit(",\"context_window\":");
    assert(",\"context_window\":"@ =~= ","@ + "\"context_window\":"@);
    reveal_strlit("\"cost\":");
    reveal_strlit(",\"cost\":");
    assert(",\"cost\":"@ =~= ","@ + "\"cost\":"@);
    reveal_strlit("\"model\":");
    reveal_strlit(",\"model\":");
    assert(",\"model\":"@ =~= ","@ + "\"model\":"@);
    reveal_strlit("\"rate_limits\":");
    reveal_strlit(",\"rate_limits\":");
    assert(",\"rate_limits\":"@ =~= ","@ + "\"rate_limits\":"@);
    reveal_strlit("\"session_id\":");
    reveal_strlit(",\"session_id\":");
    assert(",\"session_id\":"@ =~= ","@ + "\"session_id\":"@);
    reveal_strlit("\"version\":");
    reveal_strlit(",\"version\":");
    assert(",\"version\":"@ =~= ","@ + "\"version\":"@);
    let all = seq![
        "\"captured_at\":"@ + signed_decimal(captured_at),
        pair("\"context_window\":"@, m.context_window),
        pair("\"cost\":"@, m.cost),
        pair("\"model\":"@, m.model),
        pair("\"rate_limits\":"@, m.rate_limits),
        pair("\"session_id\":"@, m.session_id),
        pair("\"version\":"@, m.version),
    ];
    assert(all.take(7) =~= all);
    assert(joined(all.take(1), ","@) == all[0]);
    let t0 = "{\"captured_at\":"@ + signed_decimal(captured_at);
    assert(t0 =~= "{"@ + all[0]);
    assert(all.take(2).drop_last() =~= all.take(1));
    lemma_member(t0, joined(all.take(1), ","@), "\"context_window\":"@, m.context_window);
    let t1 = t0 + ",\"context_window\":"@ + written(m.context_window);
    assert(all.take(3).drop_last() =~= all.take(2));
    lemma_member(t1, joined(all.take(2), ","@), "\"cost\":"@, m.cost);
    let t2 = t1 + ",\"cost\":"@ + written(m.cost);
    assert(all.take(4).drop_last() =~= all.take(3));
    lemma_member(t2, joined(all.take(3), ","@), "\"model\":"@, m.model);
    let t3 = t2 + ",\"model\":"@ + written(m.model);
    assert(all.take(5).drop_last() =~= all.take(4));
    lemma_member(t3, joined(all.take(4), ","@), "\"rate_limits\":"@, m.rate_limits);
    let t4 = t3 + ",\"rate_limits\":"@ + written(m.rate_limits);
    assert(all.take(6).drop_last() =~= all.take(5));
    lemma_member(t4, joined(all.take(5), ","@), "\"session_id\":"@, m.session_id);
    let t5 = t4 + ",\"session_id\":"@ + written(m.session_id);
    assert(all.take(7).drop_last() =~= all.take(6));
    lemma_member(t5, joined(all.take(6), ","@), "\"version\":"@, m.version);
    let t6 = t5 + ",\"version\":"@ + written(m.version);
    assert(snapshot_text(captured_at, m) == t6 + "}"@);
}

/// The line has a part for each thing that is known: the session, the week, how full the context
/// is, and at its end the model in any case.
pub proof fn what_the_line_tells(
    five_hour: Option<(Seq<char>, Seq<char>)>,
    seven_day: Option<(Seq<char>, Seq<char>)>,
    context: Option<Seq<char>>,
    model: Seq<char>,
)
    ensures
        ({
            let parts = line_parts(five_hour, seven_day, context, model);
            let a = if five_hour is Some {
                1int
            } else {
                0
            };
            let b = if seven_day is Some {
                a + 1
            } else {
                a
            };
            let c = if context is Some {
                b + 1
            } else {
                b
            };
            &&& five_hour matches Some((pct, time)) ==> parts[0] == "5h"@ + " "@ + pct
                + "% (resets "@ + time + ")"@
            &&& seven_day matches Some((pct, time)) ==> parts[a] == "7d"@ + " "@ + pct
                + "% (resets "@ + time + ")"@
            &&& context matches Some(pct) ==> parts[b] == "ctx "@ + pct + "%"@
            &&& parts[c] == model
            &&& parts.len() == c + 1
        }),
{
}

} // verus!
