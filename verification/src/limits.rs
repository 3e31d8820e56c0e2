//! Account-level limit windows from Anthropic's OAuth usage endpoint.
//!
//! WARNING — UNSUPPORTED API. `GET https://api.anthropic.com/api/oauth/usage`
//! is not publicly documented and may change or stop accepting third-party callers at any
//! time. It is rate limited, so callers must keep a minimum interval between requests.
//!
//! The reader below is deliberately lenient and keeps the raw body so the exact shape can be
//! confirmed against a real response.
//!
//! Token policy: this module NEVER refreshes or writes OAuth tokens. It uses, in order: an
//! explicit token, one from the environment, or the access token in a credentials file while
//! it is unexpired.

use vstd::prelude::*;

use crate::json::{
    as_i64, as_str, field, get, integer, json_of, members, number, number_text, parse, text,
    tree_of, within, Tree,
};
use crate::text::{
    chars_of, contains, decimal, decimal_of, occurs_in, opt_str, opt_text, str_eq, string_of, trim,
    trimmed,
};
use crate::time::{from_timestamp_millis, parse_rfc3339, rfc3339_moment, second_in_range, Timestamp};

verus! {

pub const USAGE_URL: &'static str = "https://api.anthropic.com/api/oauth/usage";

/// The beta header that goes with OAuth bearer tokens.
pub const OAUTH_BETA_HEADER: &'static str = "oauth-2025-04-20";

/// Where a token came from.
#[derive(Debug, Clone, Copy, PartialEq, Eq, Structural)]
pub enum TokenSource {
    Explicit,
    Env,
    CredentialsFile,
}

#[derive(Debug, Clone)]
pub struct Token {
    pub value: String,
    pub source: TokenSource,
    pub expires_at: Option<Timestamp>,
}

/// Why there is no reading.
#[derive(Debug, Clone, PartialEq, Eq)]
pub enum FetchError {
    NoToken,
    TokenExpired,
    Unauthorized(String),
    RateLimited,
    Http(u16, String),
    Network(String),
    BadBody(String),
}

/// What a [`Token`] says.
#[verifier::ext_equal]
pub struct TokenView {
    pub value: Seq<char>,
    pub source: TokenSource,
    pub expires_at: Option<Timestamp>,
}

/// What a [`FetchError`] says.
#[verifier::ext_equal]
pub enum Failure {
    NoToken,
    TokenExpired,
    Unauthorized(Seq<char>),
    RateLimited,
    Http(u16, Seq<char>),
    Network(Seq<char>),
    BadBody(Seq<char>),
}

impl View for Token {
    type V = TokenView;

    open spec fn view(&self) -> TokenView {
        TokenView { value: self.value@, source: self.source, expires_at: self.expires_at }
    }
}

impl View for FetchError {
    type V = Failure;

    open spec fn view(&self) -> Failure {
        match *self {
            FetchError::NoToken => Failure::NoToken,
            FetchError::TokenExpired => Failure::TokenExpired,
            FetchError::Unauthorized(m) => Failure::Unauthorized(m@),
            FetchError::RateLimited => Failure::RateLimited,
            FetchError::Http(c, m) => Failure::Http(c, m@),
            FetchError::Network(m) => Failure::Network(m@),
            FetchError::BadBody(m) => Failure::BadBody(m@),
        }
    }
}

/// The message of a failure.
pub open spec fn failure_message(f: Failure) -> Seq<char> {
    match f {
        Failure::NoToken => "no OAuth token available"@,
        Failure::TokenExpired => "stored access token has expired"@,
        Failure::Unauthorized(m) => "unauthorized: "@ + m,
        Failure::RateLimited => "usage endpoint rate limited"@,
        Failure::Http(c, m) => "HTTP "@ + decimal(c as nat) + ": "@ + m,
        Failure::Network(m) => "network: "@ + m,
        Failure::BadBody(m) => "unexpected response: "@ + m,
    }
}

/// `a` followed by `b`.
fn joined(a: &str, b: &str) -> (r: String)
    ensures
        r@ == a@ + b@,
{
    let mut s = a.to_owned();
    s.append(b);
    s
}

impl FetchError {
    /// The message shown to the user.
    pub fn message(&self) -> (r: String)
        ensures
            r@ == failure_message(self@),
    {
        match self {
            FetchError::NoToken => "no OAuth token available".to_owned(),
            FetchError::TokenExpired => "stored access token has expired".to_owned(),
            FetchError::Unauthorized(m) => joined("unauthorized: ", m.as_str()),
            FetchError::RateLimited => "usage endpoint rate limited".to_owned(),
            FetchError::Http(c, m) => {
                let mut s = joined("HTTP ", decimal_of(*c as u128).as_str());
                s.append(": ");
                s.append(m.as_str());
                s
            },
            FetchError::Network(m) => joined("network: ", m.as_str()),
            FetchError::BadBody(m) => joined("unexpected response: ", m.as_str()),
        }
    }
}

/// The views of an outcome.
pub open spec fn token_outcome(r: Result<Token, FetchError>) -> Result<TokenView, Failure> {
    match r {
        Ok(t) => Ok(t@),
        Err(e) => Err(e@),
    }
}

/// A text that is not blank, without the white space around it.
pub open spec fn given(s: Option<Seq<char>>) -> Option<Seq<char>> {
    match s {
        Some(s) => if trimmed(s).len() > 0 {
            Some(trimmed(s))
        } else {
            None
        },
        None => None,
    }
}

/// The moment so many milliseconds after 1970, if the calendar reaches that far.
pub open spec fn millis_moment(ms: Option<i64>) -> Option<Timestamp> {
    match ms {
        Some(ms) => if second_in_range(ms as int / 1000) {
            Some(
                Timestamp {
                    secs: (ms as int / 1000) as i64,
                    nanos: (ms as int % 1000 * 1_000_000) as u32,
                },
            )
        } else {
            None
        },
        None => None,
    }
}

/// The token of stored credentials with this access token and time of expiry.
pub open spec fn stored_token(
    access: Option<Seq<char>>,
    expires_ms: Option<i64>,
    now: Timestamp,
) -> Result<TokenView, Failure> {
    let expires_at = millis_moment(expires_ms);
    if access is None {
        Err(Failure::NoToken)
    } else if expires_at is Some && !now.earlier(expires_at->0) {
        Err(Failure::TokenExpired)
    } else {
        Ok(TokenView { value: access->0, source: TokenSource::CredentialsFile, expires_at })
    }
}

/// The access token that stored credentials hold.
pub open spec fn stored_access(doc: Tree) -> Option<Seq<char>> {
    match within(field(doc, "claudeAiOauth"@), "accessToken"@) {
        Some(v) => text(v),
        None => None,
    }
}

/// The time of expiry, in milliseconds, that stored credentials hold.
pub open spec fn stored_expiry(doc: Tree) -> Option<i64> {
    match within(field(doc, "claudeAiOauth"@), "expiresAt"@) {
        Some(v) => integer(v),
        None => None,
    }
}

/// The token that the text of a credentials file holds.
pub open spec fn credentials_token(doc: Result<Tree, Seq<char>>, now: Timestamp) -> Result<
    TokenView,
    Failure,
> {
    match doc {
        Ok(doc) => stored_token(stored_access(doc), stored_expiry(doc), now),
        Err(_) => Err(Failure::NoToken),
    }
}

/// The token of stored credentials with this access token and time of expiry (in
/// milliseconds).
pub fn token_from_stored(access: Option<&str>, expires_ms: Option<i64>, now: Timestamp) -> (r:
    Result<Token, FetchError>)
    ensures
        token_outcome(r) == stored_token(opt_str(access), expires_ms, now),
{
    let access = match access {
        Some(a) => a,
        None => return Err(FetchError::NoToken),
    };
    let expires_at = match expires_ms {
        Some(ms) => from_timestamp_millis(ms),
        None => None,
    };
    if let Some(e) = expires_at {
        if !now.is_before(e) {
            return Err(FetchError::TokenExpired);
        }
    }
    Ok(Token { value: access.to_owned(), source: TokenSource::CredentialsFile, expires_at })
}

/// Reads the credentials file (`claudeAiOauth.accessToken` / `expiresAt` in ms).
pub fn token_from_credentials_json(text: &str, now: Timestamp) -> (r: Result<Token, FetchError>)
    ensures
        token_outcome(r) == credentials_token(json_of(text@), now),
{
    let doc = match parse(text) {
        Ok(v) => v,
        Err(_) => return Err(FetchError::NoToken),
    };
    let (access, expires_ms) = match get(&doc, "claudeAiOauth") {
        Some(o) => {
            let access = match get(o, "accessToken") {
                Some(v) => as_str(v),
                None => None,
            };
            let expires_ms = match get(o, "expiresAt") {
                Some(v) => as_i64(v),
                None => None,
            };
            (access, expires_ms)
        },
        None => (None, None),
    };
    token_from_stored(access, expires_ms, now)
}

/// Resolve a token without ever refreshing one: the explicit one, else the one from the
/// environment, else the one in `credentials`, the text of the credentials file if it could
/// be read.
pub fn resolve_token(
    explicit: Option<&str>,
    env: Option<&str>,
    credentials: Option<&str>,
    now: Timestamp,
) -> (r: Result<Token, FetchError>)
    ensures
        token_outcome(r) == if given(opt_str(explicit)) is Some {
            Ok::<TokenView, Failure>(
                TokenView {
                    value: given(opt_str(explicit))->0,
                    source: TokenSource::Explicit,
                    expires_at: None,
                },
            )
        } else if given(opt_str(env)) is Some {
            Ok::<TokenView, Failure>(
                TokenView {
                    value: given(opt_str(env))->0,
                    source: TokenSource::Env,
                    expires_at: None,
                },
            )
        } else {
            match credentials {
                Some(text) => credentials_token(json_of(text@), now),
                None => Err::<TokenView, Failure>(Failure::NoToken),
            }
        },
{
    if let Some(t) = explicit {
        let t = trim(t);
        if chars_of(t.as_str()).len() > 0 {
            return Ok(Token { value: t, source: TokenSource::Explicit, expires_at: None });
        }
    }
    if let Some(t) = env {
        let t = trim(t);
        if chars_of(t.as_str()).len() > 0 {
            return Ok(Token { value: t, source: TokenSource::Env, expires_at: None });
        }
    }
    match credentials {
        Some(text) => token_from_credentials_json(text, now),
        None => Err(FetchError::NoToken),
    }
}

/// A limit window.
#[derive(Debug, Clone, Copy, PartialEq)]
pub struct Window<P> {
    /// 0–100.
    pub used_percentage: P,
    /// The percentage as a bar shows it: no less than 0 and no more than 100.
    pub shown: P,
    pub resets_at: Option<Timestamp>,
}

/// How much of a window is used, in the decimal notation of the response.
#[derive(Debug, Clone, PartialEq, Eq)]
pub enum Measure {
    /// A fraction of one.
    Fraction(String),
    /// A percentage.
    Percent(String),
}

/// When a window resets.
#[derive(Debug, Clone, PartialEq, Eq)]
pub enum Reset {
    Unknown,
    At(Timestamp),
    /// Seconds since 1970, or milliseconds if it is more than 1e12, in the decimal notation
    /// of the response.
    Number(String),
}

/// A limit window as the response gives it.
#[derive(Debug, Clone, PartialEq, Eq)]
pub struct RawWindow {
    pub used: Measure,
    pub resets_at: Reset,
}

/// What a [`Measure`] says.
#[verifier::ext_equal]
pub enum MeasureView {
    Fraction(Seq<char>),
    Percent(Seq<char>),
}

/// What a [`Reset`] says.
#[verifier::ext_equal]
pub enum ResetView {
    Unknown,
    At(Timestamp),
    Number(Seq<char>),
}

/// What a [`RawWindow`] says.
#[verifier::ext_equal]
pub struct WindowView {
    pub used: MeasureView,
    pub resets_at: ResetView,
}

impl View for Measure {
    type V = MeasureView;

    open spec fn view(&self) -> MeasureView {
        match *self {
            Measure::Fraction(s) => MeasureView::Fraction(s@),
            Measure::Percent(s) => MeasureView::Percent(s@),
        }
    }
}

impl View for Reset {
    type V = ResetView;

    open spec fn view(&self) -> ResetView {
        match *self {
            Reset::Unknown => ResetView::Unknown,
            Reset::At(t) => ResetView::At(t),
            Reset::Number(s) => ResetView::Number(s@),
        }
    }
}

impl View for RawWindow {
    type V = WindowView;

    open spec fn view(&self) -> WindowView {
        WindowView { used: self.used@, resets_at: self.resets_at@ }
    }
}

/// The view of an optional window.
pub open spec fn opt_window(w: Option<RawWindow>) -> Option<WindowView> {
    match w {
        Some(w) => Some(w@),
        None => None,
    }
}

/// How much is used, where `utilization` is given as that number, and the percentage as that
/// one.
pub open spec fn measure(utilization: Option<Seq<char>>, percent: Option<Seq<char>>) -> Option<
    MeasureView,
> {
    match (utilization, percent) {
        (Some(u), _) => Some(MeasureView::Fraction(u)),
        (None, Some(p)) => Some(MeasureView::Percent(p)),
        (None, None) => None,
    }
}

/// The decimal notation of a member that is a number.
pub open spec fn number_in(value: Option<Tree>) -> Option<Seq<char>> {
    match value {
        Some(v) => number(v),
        None => None,
    }
}

/// The percentage of a window: `percent` where the window has that member, and else
/// `used_percentage`.
pub open spec fn percent_field(window: Tree) -> Option<Tree> {
    if field(window, "percent"@) is Some {
        field(window, "percent"@)
    } else {
        field(window, "used_percentage"@)
    }
}

/// When a window resets whose `resets_at` is that value.
pub open spec fn reset_time(value: Option<Tree>) -> ResetView {
    match value {
        Some(Tree::Number(_, n)) => ResetView::Number(n),
        Some(Tree::Text(s)) => match rfc3339_moment(s) {
            Some(t) => ResetView::At(t),
            None => ResetView::Unknown,
        },
        _ => ResetView::Unknown,
    }
}

/// The window that a member of the response describes. `utilization` is a fraction, `percent`
/// and `used_percentage` are percentages already; a member without one of them is no window.
pub open spec fn window_of(value: Tree) -> Option<WindowView> {
    match measure(number_in(field(value, "utilization"@)), number_in(percent_field(value))) {
        Some(used) => Some(
            WindowView { used, resets_at: reset_time(field(value, "resets_at"@)) },
        ),
        None => None,
    }
}

/// The view of what was found for a reset: a number, or else the moment of a text.
pub open spec fn reset_of(number: Option<Seq<char>>, moment: Option<Timestamp>) -> ResetView {
    match (number, moment) {
        (Some(n), _) => ResetView::Number(n),
        (None, Some(t)) => ResetView::At(t),
        (None, None) => ResetView::Unknown,
    }
}

/// The view of a window with these members, if it has a measure.
pub open spec fn measured_window(
    utilization: Option<Seq<char>>,
    percent: Option<Seq<char>>,
    resets_at: ResetView,
) -> Option<WindowView> {
    match measure(utilization, percent) {
        Some(used) => Some(WindowView { used, resets_at }),
        None => None,
    }
}

/// When a window resets whose `resets_at` is that number, or a text that stands for that
/// moment.
pub fn make_reset(number: Option<String>, moment: Option<Timestamp>) -> (r: Reset)
    ensures
        r@ == reset_of(opt_text(number), moment),
{
    match number {
        Some(n) => Reset::Number(n),
        None => match moment {
            Some(t) => Reset::At(t),
            None => Reset::Unknown,
        },
    }
}

/// The window with these members, if it has a measure.
pub fn make_window(utilization: Option<String>, percent: Option<String>, resets_at: Reset) -> (r:
    Option<RawWindow>)
    ensures
        opt_window(r) == measured_window(opt_text(utilization), opt_text(percent), resets_at@),
{
    let used = match utilization {
        Some(u) => Measure::Fraction(u),
        None => match percent {
            Some(p) => Measure::Percent(p),
            None => return None,
        },
    };
    Some(RawWindow { used, resets_at })
}

fn parse_time(value: &serde_json::Value) -> (r: Reset)
    ensures
        r@ == reset_time(Some(tree_of(*value))),
{
    let moment = match as_str(value) {
        Some(s) => parse_rfc3339(s),
        None => None,
    };
    make_reset(number_text(value), moment)
}

fn parse_window(value: &serde_json::Value) -> (r: Option<RawWindow>)
    ensures
        opt_window(r) == window_of(tree_of(*value)),
{
    let utilization = match get(value, "utilization") {
        Some(v) => number_text(v),
        None => None,
    };
    let percent = match get(value, "percent") {
        Some(v) => number_text(v),
        None => match get(value, "used_percentage") {
            Some(v) => number_text(v),
            None => None,
        },
    };
    let resets_at = match get(value, "resets_at") {
        Some(v) => parse_time(v),
        None => Reset::Unknown,
    };
    make_window(utilization, percent, resets_at)
}

/// A weekly window of one model or other scope.
#[derive(Debug, Clone, PartialEq)]
pub struct ScopedLimit<W> {
    pub kind: String,
    pub group: String,
    pub severity: String,
    pub scope: Option<String>,
    pub is_active: bool,
    pub window: W,
}

/// Usage credits, which are billed.
#[derive(Debug, Clone, PartialEq)]
pub struct Credits<W> {
    pub enabled: bool,
    /// What was spent this month, as an amount of money.
    pub used: String,
    /// How much may be spent in a month, as an amount of money.
    pub limit: Option<String>,
    /// How much of the limit is used.
    pub share: W,
    pub limit_reached: bool,
}

/// The part of the weekly window that one surface has used.
#[derive(Debug, Clone, PartialEq)]
pub struct SurfaceShare {
    pub display_name: String,
    /// Whether the part is greater than zero.
    pub used: bool,
    /// The part in percent, as a whole number.
    pub percent: String,
}

/// What the usage endpoint said, with windows of type `W`.
#[derive(Debug, Clone, PartialEq)]
pub struct LimitsReading<W> {
    pub fetched_at: Timestamp,
    pub five_hour: Option<W>,
    pub seven_day: Option<W>,
    pub seven_day_opus: Option<W>,
    pub seven_day_sonnet: Option<W>,
    pub seven_day_overage_included: Option<W>,
    pub overage: Option<W>,
    pub spend_limit: Option<W>,
    /// Any other top-level windows, keyed by field name.
    pub other: Vec<(String, W)>,
    pub limits: Vec<ScopedLimit<W>>,
    pub credits: Option<Credits<W>>,
    pub breakdown: Vec<SurfaceShare>,
    /// Raw response body, for schema confirmation.
    pub raw: String,
}

/// What a [`LimitsReading`] of [`RawWindow`]s says.
#[verifier::ext_equal]
pub struct ReadingView {
    pub fetched_at: Timestamp,
    pub five_hour: Option<WindowView>,
    pub seven_day: Option<WindowView>,
    pub seven_day_opus: Option<WindowView>,
    pub seven_day_sonnet: Option<WindowView>,
    pub seven_day_overage_included: Option<WindowView>,
    pub overage: Option<WindowView>,
    pub spend_limit: Option<WindowView>,
    pub other: Seq<(Seq<char>, WindowView)>,
    pub raw: Seq<char>,
}

/// The views of a list of named windows.
pub open spec fn named_windows(list: Seq<(String, RawWindow)>) -> Seq<(Seq<char>, WindowView)> {
    list.map_values(|p: (String, RawWindow)| (p.0@, p.1@))
}

/// The view of a reading.
pub open spec fn reading_view(r: LimitsReading<RawWindow>) -> ReadingView {
    ReadingView {
        fetched_at: r.fetched_at,
        five_hour: opt_window(r.five_hour),
        seven_day: opt_window(r.seven_day),
        seven_day_opus: opt_window(r.seven_day_opus),
        seven_day_sonnet: opt_window(r.seven_day_sonnet),
        seven_day_overage_included: opt_window(r.seven_day_overage_included),
        overage: opt_window(r.overage),
        spend_limit: opt_window(r.spend_limit),
        other: named_windows(r.other@),
        raw: r.raw@,
    }
}

/// The views of an outcome.
pub open spec fn reading_outcome(r: Result<LimitsReading<RawWindow>, FetchError>) -> Result<
    ReadingView,
    Failure,
> {
    match r {
        Ok(r) => Ok(reading_view(r)),
        Err(e) => Err(e@),
    }
}

/// The members of a response, each with the window that it describes.
pub type Members = Seq<(Seq<char>, Option<WindowView>)>;

/// The views of a list of members.
pub open spec fn member_views(list: Seq<(String, Option<RawWindow>)>) -> Members {
    list.map_values(|p: (String, Option<RawWindow>)| (p.0@, opt_window(p.1)))
}

/// The window of that name; the last one where there are several.
pub open spec fn window_named(members: Members, name: Seq<char>) -> Option<WindowView>
    decreases members.len(),
{
    if members.len() == 0 {
        None
    } else if members.last().0 == name && members.last().1 is Some {
        members.last().1
    } else {
        window_named(members.drop_last(), name)
    }
}

/// A window that has a field of its own in a reading.
pub open spec fn is_listed(name: Seq<char>) -> bool {
    ||| name == "five_hour"@
    ||| name == "seven_day"@
    ||| name == "seven_day_opus"@
    ||| name == "seven_day_sonnet"@
    ||| name == "seven_day_overage_included"@
    ||| name == "overage"@
    ||| name == "spend_limit"@
}

/// The windows without a field of their own.
pub open spec fn unlisted(members: Members) -> Seq<(Seq<char>, WindowView)>
    decreases members.len(),
{
    if members.len() == 0 {
        Seq::empty()
    } else {
        let (name, window) = members.last();
        if window is Some && !is_listed(name) {
            unlisted(members.drop_last()).push((name, window->0))
        } else {
            unlisted(members.drop_last())
        }
    }
}

/// The reading that the members of a response make.
pub open spec fn reading_of(members: Members, body: Seq<char>, fetched_at: Timestamp) -> ReadingView {
    ReadingView {
        fetched_at,
        five_hour: window_named(members, "five_hour"@),
        seven_day: window_named(members, "seven_day"@),
        seven_day_opus: window_named(members, "seven_day_opus"@),
        seven_day_sonnet: window_named(members, "seven_day_sonnet"@),
        seven_day_overage_included: window_named(members, "seven_day_overage_included"@),
        overage: window_named(members, "overage"@),
        spend_limit: window_named(members, "spend_limit"@),
        other: unlisted(members),
        raw: body,
    }
}

/// What the members of a response come to: a reading, unless it has neither of the two main
/// windows nor an unlisted one.
pub open spec fn collected(members: Members, body: Seq<char>, fetched_at: Timestamp) -> Result<
    ReadingView,
    Failure,
> {
    let r = reading_of(members, body, fetched_at);
    if r.five_hour is None && r.seven_day is None && r.other.len() == 0 {
        Err(Failure::BadBody("no limit windows found"@))
    } else {
        Ok(r)
    }
}

/// The windows that the members of an object describe.
pub open spec fn windows_in(object: Seq<(Seq<char>, Tree)>) -> Members {
    object.map_values(|m: (Seq<char>, Tree)| (m.0, window_of(m.1)))
}

/// What a response body comes to that `serde_json` reads as `doc`.
pub open spec fn body_outcome(
    doc: Result<Tree, Seq<char>>,
    body: Seq<char>,
    fetched_at: Timestamp,
) -> Result<ReadingView, Failure> {
    match doc {
        Err(e) => Err(Failure::BadBody(e)),
        Ok(Tree::Object(object)) => collected(windows_in(object), body, fetched_at),
        Ok(_) => Err(Failure::BadBody("top level is not an object"@)),
    }
}

proof fn lemma_literals()
    ensures
        "five_hour"@ != "seven_day"@,
        "five_hour"@ != "seven_day_opus"@,
        "five_hour"@ != "seven_day_sonnet"@,
        "five_hour"@ != "seven_day_overage_included"@,
        "five_hour"@ != "overage"@,
        "five_hour"@ != "spend_limit"@,
        "seven_day"@ != "seven_day_opus"@,
        "seven_day"@ != "seven_day_sonnet"@,
        "seven_day"@ != "seven_day_overage_included"@,
        "seven_day"@ != "overage"@,
        "seven_day"@ != "spend_limit"@,
        "seven_day_opus"@ != "seven_day_sonnet"@,
        "seven_day_opus"@ != "seven_day_overage_included"@,
        "seven_day_opus"@ != "overage"@,
        "seven_day_opus"@ != "spend_limit"@,
        "seven_day_sonnet"@ != "seven_day_overage_included"@,
        "seven_day_sonnet"@ != "overage"@,
        "seven_day_sonnet"@ != "spend_limit"@,
        "seven_day_overage_included"@ != "overage"@,
        "seven_day_overage_included"@ != "spend_limit"@,
        "overage"@ != "spend_limit"@,
{
    reveal_strlit("five_hour");
    reveal_strlit("seven_day");
    reveal_strlit("seven_day_opus");
    reveal_strlit("seven_day_sonnet");
    reveal_strlit("seven_day_overage_included");
    reveal_strlit("overage");
    reveal_strlit("spend_limit");
    assert("five_hour"@.len() == 9 && "seven_day"@.len() == 9 && "overage"@.len() == 7);
    assert("five_hour"@[0] == 'f' && "seven_day"@[0] == 's');
    assert("seven_day_opus"@.len() == 14);
    assert("seven_day_sonnet"@.len() == 16);
    assert("seven_day_overage_included"@.len() == 26);
    assert("spend_limit"@.len() == 11);
}

/// Collects the windows of a response into a reading.
pub fn collect_windows(
    members: Vec<(String, Option<RawWindow>)>,
    body: &str,
    fetched_at: Timestamp,
) -> (r: Result<LimitsReading<RawWindow>, FetchError>)
    ensures
        reading_outcome(r) == collected(member_views(members@), body@, fetched_at),
        r matches Ok(reading) ==> reading.limits@.len() == 0 && reading.credits is None
            && reading.breakdown@.len() == 0,
{
    let ghost all = member_views(members@);
    let ghost list = members@;
    let mut r: LimitsReading<RawWindow> = LimitsReading {
        fetched_at,
        five_hour: None,
        seven_day: None,
        seven_day_opus: None,
        seven_day_sonnet: None,
        seven_day_overage_included: None,
        overage: None,
        spend_limit: None,
        other: Vec::new(),
        limits: Vec::new(),
        credits: None,
        breakdown: Vec::new(),
        raw: body.to_owned(),
    };
    proof {
        lemma_literals();
        assert(all.take(0) =~= Seq::empty());
        assert(named_windows(r.other@) =~= Seq::empty());
    }
    for member in it: members
        invariant
            it.seq() == list,
            all == member_views(list),
            reading_view(r) == reading_of(all.take(it.index() as int), body@, fetched_at),
            r.limits@.len() == 0,
            r.credits is None,
            r.breakdown@.len() == 0,
    {
        let ghost before = all.take(it.index() as int);
        let ghost after = all.take(it.index() + 1);
        proof {
            lemma_literals();
            assert(after.drop_last() =~= before);
            assert(after.last() == (member.0@, opt_window(member.1)));
        }
        let (name, window) = member;
        if let Some(w) = window {
            if str_eq(name.as_str(), "five_hour") {
                r.five_hour = Some(w);
            } else if str_eq(name.as_str(), "seven_day") {
                r.seven_day = Some(w);
            } else if str_eq(name.as_str(), "seven_day_opus") {
                r.seven_day_opus = Some(w);
            } else if str_eq(name.as_str(), "seven_day_sonnet") {
                r.seven_day_sonnet = Some(w);
            } else if str_eq(name.as_str(), "seven_day_overage_included") {
                r.seven_day_overage_included = Some(w);
            } else if str_eq(name.as_str(), "overage") {
                r.overage = Some(w);
            } else if str_eq(name.as_str(), "spend_limit") {
                r.spend_limit = Some(w);
            } else {
                proof {
                    assert(named_windows(r.other@.push((name, w))) =~= named_windows(r.other@).push(
                        (name@, w@),
                    ));
                }
                r.other.push((name, w));
            }
        }
        assert(reading_view(r) =~= reading_of(after, body@, fetched_at));
    }
    assert(all.take(list.len() as int) =~= all);
    if r.five_hour.is_none() && r.seven_day.is_none() && r.other.len() == 0 {
        assert(named_windows(r.other@).len() == 0);
        return Err(FetchError::BadBody("no limit windows found".to_owned()));
    }
    assert(named_windows(r.other@).len() == r.other@.len());
    Ok(r)
}

/// Lenient reading of a response body.
pub fn parse_body(body: &str, fetched_at: Timestamp) -> (r: Result<
    LimitsReading<RawWindow>,
    FetchError,
>)
    ensures
        reading_outcome(r) == body_outcome(json_of(body@), body@, fetched_at),
        r matches Ok(reading) ==> reading.limits@.len() == 0 && reading.credits is None
            && reading.breakdown@.len() == 0,
{
    let doc = match parse(body) {
        Ok(v) => v,
        Err(e) => return Err(FetchError::BadBody(e)),
    };
    let object = match members(&doc) {
        Some(m) => m,
        None => return Err(FetchError::BadBody("top level is not an object".to_owned())),
    };
    let ghost tree = tree_of(doc)->Object_0;
    let mut windows: Vec<(String, Option<RawWindow>)> = Vec::new();
    let mut i: usize = 0;
    while i < object.len()
        invariant
            i <= object@.len(),
            object@.len() == tree.len(),
            forall|k: int|
                0 <= k < tree.len() ==> (#[trigger] object@[k]).0@ == tree[k].0 && tree_of(
                    *object@[k].1,
                ) == tree[k].1,
            member_views(windows@) =~= windows_in(tree).take(i as int),
        decreases object@.len() - i,
    {
        let (name, value) = object[i];
        let window = parse_window(value);
        proof {
            assert(object@[i as int].0@ == tree[i as int].0);
            assert(member_views(windows@.push((*name, window))) =~= member_views(windows@).push(
                (name@, opt_window(window)),
            ));
        }
        windows.push((name.clone(), window));
        i += 1;
    }
    assert(windows_in(tree).take(i as int) =~= windows_in(tree));
    collect_windows(windows, body, fetched_at)
}

/// The first 200 characters.
pub open spec fn shortened(s: Seq<char>) -> Seq<char> {
    if s.len() <= 200 {
        s
    } else {
        s.take(200)
    }
}

/// The start of a text, at most 200 characters of it.
pub fn short(s: &str) -> (r: String)
    ensures
        r@ == shortened(s@),
{
    let chars = chars_of(s);
    let n: usize = if chars.len() < 200 {
        chars.len()
    } else {
        200
    };
    assert(chars@.subrange(0, n as int) =~= shortened(s@));
    string_of(&chars, 0, n)
}

/// A shortened text is the start of the text, no longer than 200 characters, and the whole of
/// it if that is not longer; shortening it again changes nothing.
pub proof fn shortening_keeps_the_start(s: Seq<char>)
    ensures
        shortened(s).len() == if s.len() < 200 {
            s.len()
        } else {
            200
        },
        shortened(s) == s.take(shortened(s).len() as int),
        shortened(shortened(s)) == shortened(s),
{
    assert(s.take(shortened(s).len() as int) =~= shortened(s));
}

/// What a response comes to.
pub open spec fn response_outcome(
    status: u16,
    doc: Result<Tree, Seq<char>>,
    body: Seq<char>,
    fetched_at: Timestamp,
) -> Result<ReadingView, Failure> {
    if status == 200 {
        body_outcome(doc, body, fetched_at)
    } else if status == 401 {
        if occurs_in("expired"@, body) {
            Err(Failure::TokenExpired)
        } else {
            Err(Failure::Unauthorized(shortened(body)))
        }
    } else if status == 429 {
        Err(Failure::RateLimited)
    } else {
        Err(Failure::Http(status, shortened(body)))
    }
}

/// Reads the response to a request.
pub fn read_response(status: u16, body: &str, fetched_at: Timestamp) -> (r: Result<
    LimitsReading<RawWindow>,
    FetchError,
>)
    ensures
        reading_outcome(r) == response_outcome(status, json_of(body@), body@, fetched_at),
        r matches Ok(reading) ==> reading.limits@.len() == 0 && reading.credits is None
            && reading.breakdown@.len() == 0,
{
    match status {
        200 => parse_body(body, fetched_at),
        401 => Err(
            if contains(body, "expired") {
                FetchError::TokenExpired
            } else {
                FetchError::Unauthorized(short(body))
            },
        ),
        429 => Err(FetchError::RateLimited),
        c => Err(FetchError::Http(c, short(body))),
    }
}

/// No window of a response is lost: where no two members have the same name, each window
/// stands in the field of its name or among the others.
pub proof fn every_window_is_kept(members: Members, i: int)
    requires
        0 <= i < members.len(),
        members[i].1 is Some,
        forall|a: int, b: int|
            0 <= a < b < members.len() ==> (#[trigger] members[a]).0 != (#[trigger] members[b]).0,
    ensures
        is_listed(members[i].0) ==> window_named(members, members[i].0) == members[i].1,
        !is_listed(members[i].0) ==> unlisted(members).contains((members[i].0, members[i].1->0)),
    decreases members.len(),
{
    let n = members.len() - 1;
    if i < n {
        let rest = members.drop_last();
        assert(rest[i] == members[i]);
        assert forall|a: int, b: int| 0 <= a < b < rest.len() implies (#[trigger] rest[a]).0 != (
        #[trigger] rest[b]).0 by {
            assert(members[a].0 != members[b].0);
        }
        every_window_is_kept(rest, i);
        assert(members[i].0 != members[n].0);
        if !is_listed(members[i].0) {
            let own = (members[i].0, members[i].1->0);
            let k = choose|k: int| 0 <= k < unlisted(rest).len() && unlisted(rest)[k] == own;
            assert(unlisted(members)[k] == own);
        }
    } else if !is_listed(members[i].0) {
        let all = unlisted(members);
        assert(all[all.len() - 1] == (members[i].0, members[i].1->0));
    }
}

/// A stored token is used only while it has not expired.
pub proof fn an_expired_token_is_never_used(
    access: Option<Seq<char>>,
    expires_ms: Option<i64>,
    now: Timestamp,
)
    ensures
        stored_token(access, expires_ms, now) matches Ok(t) ==> (t.expires_at matches Some(e)
            ==> now.earlier(e)),
{
}

/// Tokens and failures stand for just what they hold.
pub proof fn tokens_and_failures_are_taken_as_they_are(t: Token, e: FetchError)
    ensures
        t@.value == t.value@,
        t@.source == t.source,
        t@.expires_at == t.expires_at,
        e is NoToken <==> e@ is NoToken,
        e is TokenExpired <==> e@ is TokenExpired,
        e is RateLimited <==> e@ is RateLimited,
        e matches FetchError::Unauthorized(m) ==> e@ == Failure::Unauthorized(m@),
        e matches FetchError::Http(c, m) ==> e@ == Failure::Http(c, m@),
        e matches FetchError::Network(m) ==> e@ == Failure::Network(m@),
        e matches FetchError::BadBody(m) ==> e@ == Failure::BadBody(m@),
        token_outcome(Ok(t)) == Ok::<TokenView, Failure>(t@),
        token_outcome(Err(e)) == Err::<TokenView, Failure>(e@),
{
}

/// Windows and readings stand for just what their fields hold.
pub proof fn readings_are_taken_as_they_are(
    w: RawWindow,
    r: LimitsReading<RawWindow>,
    e: FetchError,
    list: Seq<(String, Option<RawWindow>)>,
)
    ensures
        w.used matches Measure::Fraction(s) ==> w@.used == MeasureView::Fraction(s@),
        w.used matches Measure::Percent(s) ==> w@.used == MeasureView::Percent(s@),
        w.resets_at is Unknown <==> w@.resets_at is Unknown,
        w.resets_at matches Reset::At(t) ==> w@.resets_at == ResetView::At(t),
        w.resets_at matches Reset::Number(s) ==> w@.resets_at == ResetView::Number(s@),
        opt_window(Some(w)) == Some(w@),
        opt_window(None) is None,
        reading_outcome(Ok(r)) == Ok::<ReadingView, Failure>(reading_view(r)),
        reading_outcome(Err(e)) == Err::<ReadingView, Failure>(e@),
        reading_view(r).fetched_at == r.fetched_at,
        r.five_hour matches Some(x) ==> reading_view(r).five_hour == Some(x@),
        r.five_hour is None ==> reading_view(r).five_hour is None,
        r.seven_day matches Some(x) ==> reading_view(r).seven_day == Some(x@),
        r.seven_day is None ==> reading_view(r).seven_day is None,
        r.seven_day_opus matches Some(x) ==> reading_view(r).seven_day_opus == Some(x@),
        r.seven_day_opus is None ==> reading_view(r).seven_day_opus is None,
        r.seven_day_sonnet matches Some(x) ==> reading_view(r).seven_day_sonnet == Some(x@),
        r.seven_day_sonnet is None ==> reading_view(r).seven_day_sonnet is None,
        r.seven_day_overage_included matches Some(x) ==> reading_view(r).seven_day_overage_included == Some(x@),
        r.seven_day_overage_included is None ==> reading_view(r).seven_day_overage_included is None,
        r.overage matches Some(x) ==> reading_view(r).overage == Some(x@),
        r.overage is None ==> reading_view(r).overage is None,
        r.spend_limit matches Some(x) ==> reading_view(r).spend_limit == Some(x@),
        r.spend_limit is None ==> reading_view(r).spend_limit is None,
        reading_view(r).raw == r.raw@,
        reading_view(r).other.len() == r.other@.len(),
        forall|i: int|
            0 <= i < r.other@.len() ==> reading_view(r).other[i] == ((#[trigger] r.other@[i]).0@,
                r.other@[i].1@),
        member_views(list).len() == list.len(),
        forall|i: int|
            0 <= i < list.len() ==> member_views(list)[i].0 == (#[trigger] list[i]).0@
                && member_views(list)[i].1 == opt_window(list[i].1),
{
}

/// A text counts as given when something is left of it without white space, and then it is that.
pub proof fn which_texts_are_given(s: Seq<char>)
    ensures
        trimmed(s).len() > 0 ==> given(Some(s)) == Some(trimmed(s)),
        trimmed(s).len() == 0 ==> given(Some(s)) is None,
        given(None) is None,
{
}

/// Milliseconds since 1970 are whole seconds and the rest, as far as the calendar reaches.
pub proof fn milliseconds_are_split(ms: i64)
    ensures
        ({
            let m = millis_moment(Some(ms));
            let inside = -8_334_601_228_800 * 1000 <= ms < 8_210_266_876_800 * 1000;
            &&& m is Some <==> inside
            &&& m matches Some(t) ==> t.secs * 1000 * 1_000_000 + t.nanos == ms * 1_000_000 && t.nanos
                < 1_000_000_000
            &&& millis_moment(None) is None
        }),
{
}

/// A stored token is used as it is, from its file, until the very moment at which it expires;
/// one that has no such moment never does. Without an access token there is none.
pub proof fn when_stored_tokens_are_used(
    access: Option<Seq<char>>,
    expires_ms: Option<i64>,
    now: Timestamp,
)
    ensures
        ({
            let r = stored_token(access, expires_ms, now);
            let e = millis_moment(expires_ms);
            let over = e is Some && (now.secs > e->0.secs || (now.secs == e->0.secs && now.nanos
                >= e->0.nanos));
            &&& access is None ==> r == Err::<TokenView, Failure>(Failure::NoToken)
            &&& access is Some && over ==> r == Err::<TokenView, Failure>(Failure::TokenExpired)
            &&& access is Some && !over ==> r is Ok && r->Ok_0.value == access->0
                && r->Ok_0.source is CredentialsFile && r->Ok_0.expires_at == e
        }),
{
}

/// Stored credentials are read from the members of their own names.
pub proof fn where_credentials_stand(doc: Tree, o: Tree, now: Timestamp, error: Seq<char>)
    ensures
        field(doc, "claudeAiOauth"@) is None ==> credentials_token(Ok(doc), now) == Err::<
            TokenView,
            Failure,
        >(Failure::NoToken),
        field(doc, "claudeAiOauth"@) == Some(o) ==> ({
            let access = match field(o, "accessToken"@) {
                Some(Tree::Text(s)) => Some(s),
                _ => None,
            };
            let expires = match field(o, "expiresAt"@) {
                Some(Tree::Number(n, _)) => n,
                _ => None,
            };
            credentials_token(Ok(doc), now) == stored_token(access, expires, now)
        }),
        credentials_token(Err(error), now) == Err::<TokenView, Failure>(Failure::NoToken),
{
}

/// How much of a window is used is its `utilization`, as a fraction, where that is a number; else
/// its `percent`, or its `used_percentage` where it has no `percent`. A value without any of them
/// is no window.
pub proof fn how_windows_are_measured(value: Tree)
    ensures
        ({
            let w = window_of(value);
            let u = field(value, "utilization"@);
            let p = if field(value, "percent"@) is Some {
                field(value, "percent"@)
            } else {
                field(value, "used_percentage"@)
            };
            let fraction = u is Some && u->0 is Number;
            let percent = p is Some && p->0 is Number;
            &&& fraction ==> w is Some && w->0.used == MeasureView::Fraction(u->0->Number_1)
            &&& !fraction && percent ==> w is Some && w->0.used == MeasureView::Percent(
                p->0->Number_1,
            )
            &&& !fraction && !percent ==> w is None
        }),
{
}

/// A window resets at the moment that its `resets_at` stands for as a text, or at the number that
/// it is; it is not known when, where it is neither.
pub proof fn when_windows_reset(value: Tree)
    requires
        window_of(value) is Some,
    ensures
        ({
            let r = window_of(value)->0.resets_at;
            let v = field(value, "resets_at"@);
            &&& v matches Some(Tree::Number(_, n)) ==> r == ResetView::Number(n)
            &&& v matches Some(Tree::Text(s)) ==> {
                &&& crate::time::rfc3339(s) matches Some(p) ==> r == ResetView::At(
                    Timestamp { secs: p.0, nanos: p.1 },
                )
                &&& crate::time::rfc3339(s) is None ==> r is Unknown
            }
            &&& !(v is Some && (v->0 is Number || v->0 is Text)) ==> r is Unknown
        }),
{
}

/// A number is taken before a text, for a reset as for a measure.
pub proof fn what_windows_are_made_of(
    utilization: Option<Seq<char>>,
    percent: Option<Seq<char>>,
    number: Option<Seq<char>>,
    moment: Option<Timestamp>,
    resets_at: ResetView,
)
    ensures
        ({
            let w = measured_window(utilization, percent, resets_at);
            &&& utilization matches Some(u) ==> w == Some(
                WindowView { used: MeasureView::Fraction(u), resets_at },
            )
            &&& utilization is None && percent is Some ==> w == Some(
                WindowView { used: MeasureView::Percent(percent->0), resets_at },
            )
            &&& utilization is None && percent is None ==> w is None
            &&& number matches Some(n) ==> reset_of(number, moment) == ResetView::Number(n)
            &&& number is None && moment is Some ==> reset_of(number, moment) == ResetView::At(
                moment->0,
            )
            &&& number is None && moment is None ==> reset_of(number, moment) is Unknown
        }),
{
}

/// The window of a name is that of the last member with the name that describes one, and there is
/// none where no member does.
pub proof fn windows_are_found_by_name(members: Members, name: Seq<char>, i: int)
    requires
        0 <= i <= members.len(),
        forall|k: int|
            i < k < members.len() ==> (#[trigger] members[k]).0 != name || members[k].1 is None,
        i == members.len() ==> forall|k: int|
            0 <= k < members.len() ==> (#[trigger] members[k]).0 != name || members[k].1 is None,
        i < members.len() ==> members[i].0 == name && members[i].1 is Some,
    ensures
        i < members.len() ==> window_named(members, name) == members[i].1,
        i == members.len() ==> window_named(members, name) is None,
    decreases members.len(),
{
    if members.len() > 0 && i != members.len() - 1 {
        let rest = members.drop_last();
        let last = members.len() - 1;
        assert(members[last].0 != name || members[last].1 is None);
        let j = if i == members.len() {
            last
        } else {
            i
        };
        assert forall|k: int| j < k < rest.len() implies (#[trigger] rest[k]).0 != name
            || rest[k].1 is None by {
            assert(rest[k] == members[k]);
        }
        if j == rest.len() {
            assert forall|k: int| 0 <= k < rest.len() implies (#[trigger] rest[k]).0 != name
                || rest[k].1 is None by {
                assert(rest[k] == members[k]);
            }
        } else {
            assert(rest[j] == members[j]);
        }
        windows_are_found_by_name(rest, name, j);
    }
}

/// A window under a name that no field of a reading has.
pub open spec fn is_other() -> spec_fn((Seq<char>, Option<WindowView>)) -> bool {
    |m: (Seq<char>, Option<WindowView>)|
        m.1 is Some && m.0
            != "five_hour"@ && m.0
            != "seven_day"@ && m.0
            != "seven_day_opus"@ && m.0
            != "seven_day_sonnet"@ && m.0
            != "seven_day_overage_included"@ && m.0
            != "overage"@ && m.0
            != "spend_limit"@
}

/// The windows of all other names are kept under their names, in order.
pub proof fn other_windows_are_kept(members: Members)
    ensures
        unlisted(members).len() == members.filter(is_other()).len(),
        forall|i: int|
            0 <= i < unlisted(members).len() ==> {
                let m = members.filter(is_other())[i];
                (#[trigger] unlisted(members)[i]).0 == m.0 && Some(unlisted(members)[i].1) == m.1
            },
    decreases members.len(),
{
    reveal(Seq::filter);
    if members.len() > 0 {
        other_windows_are_kept(members.drop_last());
    }
}

/// Each field of a reading holds the window of its own name, beside the time of the fetch and
/// the body as it came.
pub proof fn fields_hold_the_windows_of_their_names(
    members: Members,
    body: Seq<char>,
    fetched_at: Timestamp,
)
    ensures
        ({
            let r = reading_of(members, body, fetched_at);
            &&& r.fetched_at == fetched_at
            &&& r.raw == body
            &&& r.five_hour == window_named(members, "five_hour"@)
            &&& r.seven_day == window_named(members, "seven_day"@)
            &&& r.seven_day_opus == window_named(members, "seven_day_opus"@)
            &&& r.seven_day_sonnet == window_named(members, "seven_day_sonnet"@)
            &&& r.seven_day_overage_included == window_named(members, "seven_day_overage_included"@)
            &&& r.overage == window_named(members, "overage"@)
            &&& r.spend_limit == window_named(members, "spend_limit"@)
            &&& r.other == unlisted(members)
        }),
{
}

/// Members make a reading if the session or the week is among their windows, or one of another
/// name; otherwise there is nothing to read.
pub proof fn which_members_make_a_reading(
    members: Members,
    body: Seq<char>,
    fetched_at: Timestamp,
)
    ensures
        ({
            let some = window_named(members, "five_hour"@) is Some || window_named(
                members,
                "seven_day"@,
            ) is Some || unlisted(members).len() > 0;
            &&& some ==> collected(members, body, fetched_at) == Ok::<ReadingView, Failure>(
                reading_of(members, body, fetched_at),
            )
            &&& !some ==> collected(members, body, fetched_at) == Err::<ReadingView, Failure>(
                Failure::BadBody("no limit windows found"@),
            )
        }),
{
}

/// A body is read member by member, each as the window that it describes. One that is not JSON,
/// or no object, is bad.
pub proof fn how_bodies_are_read(
    doc: Result<Tree, Seq<char>>,
    body: Seq<char>,
    fetched_at: Timestamp,
    i: int,
)
    ensures
        doc matches Err(e) ==> body_outcome(doc, body, fetched_at) == Err::<ReadingView, Failure>(
            Failure::BadBody(e),
        ),
        doc is Ok && !(doc->Ok_0 is Object) ==> body_outcome(doc, body, fetched_at) == Err::<
            ReadingView,
            Failure,
        >(Failure::BadBody("top level is not an object"@)),
        doc is Ok && doc->Ok_0 is Object ==> ({
            let object = doc->Ok_0->Object_0;
            &&& body_outcome(doc, body, fetched_at) == collected(
                windows_in(object),
                body,
                fetched_at,
            )
            &&& windows_in(object).len() == object.len()
            &&& 0 <= i < object.len() ==> windows_in(object)[i].0 == object[i].0 && windows_in(
                object,
            )[i].1 == window_of(object[i].1)
        }),
{
}

/// A response is read only if it is a success. Otherwise its status tells what is wrong, with
/// the start of its body; a body that speaks of an expired token is told from other refusals.
pub proof fn what_a_response_comes_to(
    status: u16,
    doc: Result<Tree, Seq<char>>,
    body: Seq<char>,
    fetched_at: Timestamp,
)
    ensures
        ({
            let r = response_outcome(status, doc, body, fetched_at);
            let start = if body.len() > 200 {
                body.take(200)
            } else {
                body
            };
            &&& status == 200 ==> r == body_outcome(doc, body, fetched_at)
            &&& status == 401 && occurs_in("expired"@, body) ==> r == Err::<ReadingView, Failure>(
                Failure::TokenExpired,
            )
            &&& status == 401 && !occurs_in("expired"@, body) ==> r == Err::<ReadingView, Failure>(
                Failure::Unauthorized(start),
            )
            &&& status == 429 ==> r == Err::<ReadingView, Failure>(Failure::RateLimited)
            &&& status != 200 && status != 401 && status != 429 ==> r == Err::<
                ReadingView,
                Failure,
            >(Failure::Http(status, start))
        }),
{
}

/// Each failure has a message of its own, with what is known of it.
pub proof fn what_failures_say(m: Seq<char>, code: u16)
    ensures
        failure_message(Failure::NoToken) == "no OAuth token available"@,
        failure_message(Failure::TokenExpired) == "stored access token has expired"@,
        failure_message(Failure::RateLimited) == "usage endpoint rate limited"@,
        failure_message(Failure::Unauthorized(m)) == "unauthorized: "@ + m,
        failure_message(Failure::Http(code, m)) == "HTTP "@ + decimal(code as nat) + ": "@ + m,
        failure_message(Failure::Network(m)) == "network: "@ + m,
        failure_message(Failure::BadBody(m)) == "unexpected response: "@ + m,
{
}

} // verus!
