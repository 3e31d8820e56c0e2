//! What the command line tool is asked for and the lines that it prints.

use vstd::prelude::*;
use vstd::string::*;
use vstd::utf8::*;

use crate::aggregate::SessionTotals;
use crate::figures::{figure, figure_of};
use crate::limits::{Credits, LimitsReading, ScopedLimit, SurfaceShare};
use crate::model::TokenUsage;
use crate::snapshot::WindowState;
use crate::text::{chars_of, decimal, decimal_of, str_eq, texts};
use crate::time::{is_local_text, local_text, ClockStyle};

verus! {

/// What the tool is asked for.
#[derive(Debug, Clone, Copy, PartialEq, Eq, Structural)]
pub struct Options {
    /// How many days to report.
    pub days: usize,
    pub json: bool,
    /// Fetch the account limits instead of reading transcripts.
    pub limits: bool,
    /// Show the raw response with the limits.
    pub raw: bool,
    /// Refresh an expired token.
    pub refresh: bool,
}

/// The value of a list of decimal digits.
pub open spec fn digits_value(s: Seq<char>) -> int
    decreases s.len(),
{
    if s.len() == 0 {
        0
    } else {
        digits_value(s.drop_last()) * 10 + (s.last() as u32 - '0' as u32)
    }
}

/// Every character is a decimal digit.
pub open spec fn all_digits(s: Seq<char>) -> bool {
    forall|i: int| 0 <= i < s.len() ==> '0' <= #[trigger] s[i] <= '9'
}

/// A text without the plus sign that a number may begin with.
pub open spec fn unsigned(s: Seq<char>) -> Seq<char> {
    if s.len() > 1 && s[0] == '+' {
        s.skip(1)
    } else {
        s
    }
}

/// The number that a text stands for, as `str::parse` reads it: digits, with a plus sign
/// before them or not, and no more than fit.
pub open spec fn parsed(s: Seq<char>) -> Option<usize> {
    let digits = unsigned(s);
    if digits.len() > 0 && all_digits(digits) && digits_value(digits) <= usize::MAX {
        Some(digits_value(digits) as usize)
    } else {
        None
    }
}

proof fn lemma_digits_grow(s: Seq<char>, n: int)
    requires
        0 <= n <= s.len(),
        all_digits(s),
    ensures
        0 <= digits_value(s.take(n)) <= digits_value(s),
    decreases s.len(),
{
    if n == s.len() {
        assert(s.take(n) =~= s);
        if n > 0 {
            let rest = s.drop_last();
            assert forall|i: int| 0 <= i < rest.len() implies '0' <= #[trigger] rest[i] <= '9' by {
                assert(rest[i] == s[i]);
            }
            lemma_digits_grow(rest, n - 1);
            assert(rest.take(n - 1) =~= rest);
            assert('0' <= s[n - 1] <= '9');
        }
    } else {
        let rest = s.drop_last();
        assert forall|i: int| 0 <= i < rest.len() implies '0' <= #[trigger] rest[i] <= '9' by {
            assert(rest[i] == s[i]);
        }
        lemma_digits_grow(rest, n);
        assert(rest.take(n) =~= s.take(n));
        assert('0' <= s[s.len() - 1] <= '9');
    }
}

/// Reads a number.
pub fn parse_number(s: &str) -> (r: Option<usize>)
    ensures
        r == parsed(s@),
{
    let chars = chars_of(s);
    let start: usize = if chars.len() > 1 && chars[0] == '+' {
        1
    } else {
        0
    };
    let ghost digits = unsigned(s@);
    assert(chars@.skip(start as int) =~= digits);
    if chars.len() == start {
        return None;
    }
    let mut value: usize = 0;
    let mut i: usize = start;
    assert(digits.take(0) =~= Seq::empty());
    while i < chars.len()
        invariant
            start <= i <= chars@.len(),
            digits == unsigned(s@),
            digits == chars@.skip(start as int),
            digits.len() > 0,
            value == digits_value(digits.take(i - start)),
            forall|k: int| 0 <= k < i - start ==> '0' <= #[trigger] digits[k] <= '9',
        decreases chars@.len() - i,
    {
        let c = chars[i];
        let ghost k = i - start;
        assert(digits[k] == c);
        if !('0' <= c && c <= '9') {
            assert(!all_digits(digits));
            return None;
        }
        assert(digits.take(k + 1).drop_last() =~= digits.take(k));
        let d: usize = c as usize - 48;
        let next = match value.checked_mul(10) {
            Some(v) => v.checked_add(d),
            None => None,
        };
        value = match next {
            Some(v) => v,
            None => {
                proof {
                    if all_digits(digits) {
                        lemma_digits_grow(digits, k + 1);
                    }
                }
                return None;
            },
        };
        i += 1;
    }
    assert(digits.take(i - start) =~= digits);
    Some(value)
}

/// The position of the first argument `name`, or the number of arguments if it is not there.
pub open spec fn position(args: Seq<Seq<char>>, name: Seq<char>) -> int
    decreases args.len(),
{
    if args.len() == 0 || args[0] == name {
        0
    } else {
        1 + position(args.skip(1), name)
    }
}

/// The argument `name` is given.
pub open spec fn given(args: Seq<Seq<char>>, name: Seq<char>) -> bool {
    position(args, name) < args.len()
}

/// How many days to report: what follows `--days`, if that is a number, and else seven.
pub open spec fn days_asked(args: Seq<Seq<char>>) -> usize {
    let i = position(args, "--days"@);
    if i + 1 < args.len() && parsed(args[i + 1]) is Some {
        parsed(args[i + 1])->0
    } else {
        7
    }
}

fn find_arg(args: &Vec<String>, name: &str) -> (i: usize)
    ensures
        i == position(texts(args@), name@),
        i <= args@.len(),
{
    let ghost all = texts(args@);
    let mut i: usize = 0;
    assert(all.skip(0) =~= all);
    while i < args.len()
        invariant
            i <= args@.len(),
            all == texts(args@),
            position(all, name@) == i + position(all.skip(i as int), name@),
        decreases args@.len() - i,
    {
        assert(all.skip(i as int)[0] == args@[i as int]@);
        assert(all.skip(i as int).skip(1) =~= all.skip(i + 1));
        if str_eq(args[i].as_str(), name) {
            return i;
        }
        i += 1;
    }
    i
}

/// Reads the arguments.
pub fn read_options(args: &Vec<String>) -> (r: Options)
    ensures
        r == (Options {
            days: days_asked(texts(args@)),
            json: given(texts(args@), "--json"@),
            limits: given(texts(args@), "--limits"@),
            raw: given(texts(args@), "--raw"@),
            refresh: !given(texts(args@), "--no-refresh"@),
        }),
{
    let at: usize = find_arg(args, "--days");
    let mut days: usize = 7;
    if at < args.len() && at + 1 < args.len() {
        if let Some(n) = parse_number(args[at + 1].as_str()) {
            days = n;
        }
    }
    Options {
        days,
        json: find_arg(args, "--json") < args.len(),
        limits: find_arg(args, "--limits") < args.len(),
        raw: find_arg(args, "--raw") < args.len(),
        refresh: !(find_arg(args, "--no-refresh") < args.len()),
    }
}

/// A count of tokens as the tool prints it.
pub open spec fn tokens_text(n: nat) -> Seq<char> {
    if n >= 1_000_000 {
        figure(n, 1_000_000, 2) + "M"@
    } else if n >= 1_000 {
        figure(n, 1_000, 1) + "k"@
    } else {
        decimal(n)
    }
}

pub fn fmt_tokens(n: u64) -> (r: String)
    ensures
        r@ == tokens_text(n as nat),
{
    if n >= 1_000_000 {
        let mut s = figure_of(n, 1_000_000, 2);
        s.append("M");
        s
    } else if n >= 1_000 {
        let mut s = figure_of(n, 1_000, 1);
        s.append("k");
        s
    } else {
        decimal_of(n as u128)
    }
}

/// A text with spaces before it, so that it is `width` wide.
pub open spec fn padded(s: Seq<char>, width: nat) -> Seq<char> {
    if s.len() >= width {
        s
    } else {
        Seq::new((width - s.len()) as nat, |i: int| ' ') + s
    }
}

fn push_padded(out: &mut String, s: &str, width: usize)
    ensures
        final(out)@ == old(out)@ + padded(s@, width as nat),
{
    let n: usize = chars_of(s).len();
    let ghost start = out@;
    let mut i: usize = n;
    assert(start =~= start + Seq::new(0, |k: int| ' '));
    while i < width
        invariant
            n <= i,
            i <= width || i == n,
            out@ == start + Seq::new((i - n) as nat, |k: int| ' '),
        decreases width - i,
    {
        out.push(' ');
        i += 1;
        assert(out@ =~= start + Seq::new((i - n) as nat, |k: int| ' '));
    }
    out.append(s);
    assert(out@ =~= start + padded(s@, width as nat));
}

/// The line for totals whose cost is shown as `cost`.
pub open spec fn line_text(u: TokenUsage, requests: u64, cost: Seq<char>, unpriced: u64) -> Seq<char> {
    padded(tokens_text(u@.total()), 8) + " tok  (in "@ + padded(tokens_text(u.input as nat), 7)
        + " | out "@ + padded(tokens_text(u.output as nat), 7) + " | cache write "@ + padded(
        tokens_text(u.cache_creation as nat),
        7,
    ) + " | cache read "@ + padded(tokens_text(u.cache_read as nat), 7) + ")  "@ + padded(
        decimal(requests as nat),
        4,
    ) + " req  est $"@ + padded(cost, 7) + if unpriced > 0 {
        "  (+"@ + tokens_text(unpriced as nat) + " unpriced)"@
    } else {
        Seq::empty()
    }
}

/// The line for totals whose cost is shown as `cost`.
pub fn totals_line(u: &TokenUsage, requests: u64, cost: &str, unpriced: u64) -> (r: String)
    requires
        u@.total() <= u64::MAX,
    ensures
        r@ == line_text(*u, requests, cost@, unpriced),
{
    let mut s = String::new();
    push_padded(&mut s, fmt_tokens(u.total()).as_str(), 8);
    assert(s@ =~= padded(tokens_text(u@.total()), 8));
    s.append(" tok  (in ");
    push_padded(&mut s, fmt_tokens(u.input).as_str(), 7);
    s.append(" | out ");
    push_padded(&mut s, fmt_tokens(u.output).as_str(), 7);
    s.append(" | cache write ");
    push_padded(&mut s, fmt_tokens(u.cache_creation).as_str(), 7);
    s.append(" | cache read ");
    push_padded(&mut s, fmt_tokens(u.cache_read).as_str(), 7);
    s.append(")  ");
    push_padded(&mut s, decimal_of(requests as u128).as_str(), 4);
    s.append(" req  est $");
    push_padded(&mut s, cost, 7);
    let ghost before = s@;
    if unpriced > 0 {
        s.append("  (+");
        s.append(fmt_tokens(unpriced).as_str());
        s.append(" unpriced)");
    }
    assert(s@ =~= line_text(*u, requests, cost@, unpriced));
    s
}

/// A limit window as the tool prints it.
#[derive(Debug, Clone, PartialEq, Eq)]
pub struct PrintedWindow {
    /// The percentage, with one decimal.
    pub percent: String,
    /// The local time of the reset.
    pub resets: Option<String>,
}

/// A text with spaces behind it, so that it is `width` wide.
pub open spec fn filled(s: Seq<char>, width: nat) -> Seq<char> {
    if s.len() >= width {
        s
    } else {
        s + Seq::new((width - s.len()) as nat, |i: int| ' ')
    }
}

fn push_filled(out: &mut String, s: &str, width: usize)
    ensures
        final(out)@ == old(out)@ + filled(s@, width as nat),
{
    let n: usize = chars_of(s).len();
    out.append(s);
    let ghost start = out@;
    let mut i: usize = n;
    assert(start =~= start + Seq::new(0, |k: int| ' '));
    while i < width
        invariant
            n <= i,
            i <= width || i == n,
            out@ == start + Seq::new((i - n) as nat, |k: int| ' '),
        decreases width - i,
    {
        out.push(' ');
        i += 1;
        assert(out@ =~= start + Seq::new((i - n) as nat, |k: int| ' '));
    }
    assert(out@ =~= old(out)@ + filled(s@, width as nat));
}

/// The line for a window that the reading has a field for.
pub open spec fn window_text(name: Seq<char>, w: Option<PrintedWindow>) -> Seq<char> {
    filled(name, 28) + match w {
        Some(w) => " "@ + padded(w.percent@, 6) + "%  resets "@ + match w.resets {
            Some(t) => t@,
            None => "?"@,
        },
        None => " absent"@,
    }
}

/// The line for a window without a field of its own.
pub open spec fn unlisted_text(name: Seq<char>, w: PrintedWindow) -> Seq<char> {
    filled(name, 28) + " "@ + padded(w.percent@, 6) + "%  (unlisted window)"@
}

/// The line for a window of the list of limits.
pub open spec fn scoped_text(l: ScopedLimit<PrintedWindow>) -> Seq<char> {
    filled(l.kind@, 14) + " "@ + filled(l.group@, 8) + " "@ + padded(l.window.percent@, 5) + "%  "@
        + filled(l.severity@, 8) + " "@ + match l.scope {
        Some(s) => s@,
        None => "-"@,
    } + if l.is_active {
        "  (active)"@
    } else {
        Seq::empty()
    }
}

/// The line for the usage credits.
pub open spec fn credits_text(c: Credits<PrintedWindow>) -> Seq<char> {
    "--- usage credits (billed) --- enabled="@ + if c.enabled {
        "true"@
    } else {
        "false"@
    } + " "@ + c.used@ + " of "@ + match c.limit {
        Some(l) => l@,
        None => "no limit"@,
    } + " ("@ + c.share.percent@ + "%)"@ + if c.limit_reached {
        "  LIMIT REACHED"@
    } else {
        Seq::empty()
    }
}

/// The line for the share of a surface.
pub open spec fn share_text(b: SurfaceShare) -> Seq<char> {
    filled(b.display_name@, 14) + " "@ + padded(b.percent@, 3) + "%"@
}

/// What the tool prints of a reading: the windows, the list of limits, the credits and the
/// surfaces, and the raw body if it is asked for.
pub open spec fn reading_text(r: LimitsReading<PrintedWindow>, raw: bool) -> Seq<Seq<char>> {
    seq![
        window_text("five_hour"@, r.five_hour),
        window_text("seven_day"@, r.seven_day),
        window_text("seven_day_opus"@, r.seven_day_opus),
        window_text("seven_day_sonnet"@, r.seven_day_sonnet),
        window_text("seven_day_overage_included"@, r.seven_day_overage_included),
        window_text("overage"@, r.overage),
        window_text("spend_limit"@, r.spend_limit),
    ] + r.other@.map_values(|p: (String, PrintedWindow)| unlisted_text(p.0@, p.1)) + seq![
        "--- limits array ---"@,
    ] + r.limits@.map_values(|l: ScopedLimit<PrintedWindow>| scoped_text(l)) + (match r.credits {
        Some(c) => seq![credits_text(c)],
        None => Seq::empty(),
    }) + (if r.breakdown@.len() > 0 {
        seq!["--- weekly window by surface ---"@] + r.breakdown@.map_values(
            |b: SurfaceShare| share_text(b),
        )
    } else {
        Seq::empty()
    }) + (if raw {
        seq!["--- raw body ---"@, r.raw@]
    } else {
        Seq::empty()
    })
}

fn window_line(name: &str, w: &Option<PrintedWindow>) -> (s: String)
    ensures
        s@ == window_text(name@, *w),
{
    let mut s = String::new();
    push_filled(&mut s, name, 28);
    match w {
        Some(w) => {
            s.append(" ");
            push_padded(&mut s, w.percent.as_str(), 6);
            s.append("%  resets ");
            match &w.resets {
                Some(t) => s.append(t.as_str()),
                None => s.append("?"),
            }
        },
        None => s.append(" absent"),
    }
    assert(s@ =~= window_text(name@, *w));
    s
}

fn unlisted_line(name: &str, w: &PrintedWindow) -> (s: String)
    ensures
        s@ == unlisted_text(name@, *w),
{
    let mut s = String::new();
    push_filled(&mut s, name, 28);
    s.append(" ");
    push_padded(&mut s, w.percent.as_str(), 6);
    s.append("%  (unlisted window)");
    assert(s@ =~= unlisted_text(name@, *w));
    s
}

fn scoped_line(l: &ScopedLimit<PrintedWindow>) -> (s: String)
    ensures
        s@ == scoped_text(*l),
{
    let mut s = String::new();
    push_filled(&mut s, l.kind.as_str(), 14);
    s.append(" ");
    push_filled(&mut s, l.group.as_str(), 8);
    s.append(" ");
    push_padded(&mut s, l.window.percent.as_str(), 5);
    s.append("%  ");
    push_filled(&mut s, l.severity.as_str(), 8);
    s.append(" ");
    match &l.scope {
        Some(t) => s.append(t.as_str()),
        None => s.append("-"),
    }
    if l.is_active {
        s.append("  (active)");
    }
    assert(s@ =~= scoped_text(*l));
    s
}

fn credits_line(c: &Credits<PrintedWindow>) -> (s: String)
    ensures
        s@ == credits_text(*c),
{
    let mut s = "--- usage credits (billed) --- enabled=".to_owned();
    s.append(
        if c.enabled {
            "true"
        } else {
            "false"
        },
    );
    s.append(" ");
    s.append(c.used.as_str());
    s.append(" of ");
    match &c.limit {
        Some(l) => s.append(l.as_str()),
        None => s.append("no limit"),
    }
    s.append(" (");
    s.append(c.share.percent.as_str());
    s.append("%)");
    if c.limit_reached {
        s.append("  LIMIT REACHED");
    }
    assert(s@ =~= credits_text(*c));
    s
}

fn share_line(b: &SurfaceShare) -> (s: String)
    ensures
        s@ == share_text(*b),
{
    let mut s = String::new();
    push_filled(&mut s, b.display_name.as_str(), 14);
    s.append(" ");
    push_padded(&mut s, b.percent.as_str(), 3);
    s.append("%");
    assert(s@ =~= share_text(*b));
    s
}

fn push_text(lines: &mut Vec<String>, line: String)
    ensures
        texts(final(lines)@) == texts(old(lines)@).push(line@),
{
    assert(texts(lines@.push(line)) =~= texts(lines@).push(line@));
    lines.push(line);
}

/// What the tool prints of a reading, line by line.
pub fn reading_lines(r: &LimitsReading<PrintedWindow>, raw: bool) -> (lines: Vec<String>)
    ensures
        texts(lines@) == reading_text(*r, raw),
{
    let mut lines: Vec<String> = Vec::new();
    push_text(&mut lines, window_line("five_hour", &r.five_hour));
    push_text(&mut lines, window_line("seven_day", &r.seven_day));
    push_text(&mut lines, window_line("seven_day_opus", &r.seven_day_opus));
    push_text(&mut lines, window_line("seven_day_sonnet", &r.seven_day_sonnet));
    push_text(
        &mut lines,
        window_line("seven_day_overage_included", &r.seven_day_overage_included),
    );
    push_text(&mut lines, window_line("overage", &r.overage));
    push_text(&mut lines, window_line("spend_limit", &r.spend_limit));
    let ghost start = texts(lines@);
    let ghost others = r.other@.map_values(
        |p: (String, PrintedWindow)| unlisted_text(p.0@, p.1),
    );
    let mut i: usize = 0;
    assert(start + others.take(0) =~= start);
    while i < r.other.len()
        invariant
            i <= r.other@.len(),
            others == r.other@.map_values(
                |p: (String, PrintedWindow)| unlisted_text(p.0@, p.1),
            ),
            texts(lines@) == start + others.take(i as int),
        decreases r.other@.len() - i,
    {
        push_text(&mut lines, unlisted_line(r.other[i].0.as_str(), &r.other[i].1));
        assert(start + others.take(i as int).push(others[i as int]) =~= start + others.take(i + 1));
        i += 1;
        assert(texts(lines@) =~= start + others.take(i as int));
    }
    assert(others.take(i as int) =~= others);
    push_text(&mut lines, "--- limits array ---".to_owned());
    let ghost middle = texts(lines@);
    let ghost scoped = r.limits@.map_values(|l: ScopedLimit<PrintedWindow>| scoped_text(l));
    i = 0;
    assert(middle + scoped.take(0) =~= middle);
    while i < r.limits.len()
        invariant
            i <= r.limits@.len(),
            scoped == r.limits@.map_values(|l: ScopedLimit<PrintedWindow>| scoped_text(l)),
            texts(lines@) == middle + scoped.take(i as int),
        decreases r.limits@.len() - i,
    {
        push_text(&mut lines, scoped_line(&r.limits[i]));
        i += 1;
        assert(texts(lines@) =~= middle + scoped.take(i as int));
    }
    assert(scoped.take(i as int) =~= scoped);
    if let Some(c) = &r.credits {
        push_text(&mut lines, credits_line(c));
    }
    let ghost before = texts(lines@);
    let ghost shares = r.breakdown@.map_values(|b: SurfaceShare| share_text(b));
    if r.breakdown.len() > 0 {
        push_text(&mut lines, "--- weekly window by surface ---".to_owned());
        let ghost headed = texts(lines@);
        i = 0;
        assert(headed + shares.take(0) =~= headed);
        while i < r.breakdown.len()
            invariant
                i <= r.breakdown@.len(),
                shares == r.breakdown@.map_values(|b: SurfaceShare| share_text(b)),
                texts(lines@) == headed + shares.take(i as int),
            decreases r.breakdown@.len() - i,
        {
            push_text(&mut lines, share_line(&r.breakdown[i]));
            i += 1;
            assert(texts(lines@) =~= headed + shares.take(i as int));
        }
        assert(shares.take(i as int) =~= shares);
        assert(texts(lines@) =~= before + (seq!["--- weekly window by surface ---"@] + shares));
    }
    if raw {
        push_text(&mut lines, "--- raw body ---".to_owned());
        push_text(&mut lines, r.raw.clone());
    }
    assert(texts(lines@) =~= reading_text(*r, raw));
    lines
}

/// How many sessions are listed.
pub const TOP_SESSIONS: usize = 10;

/// How many bytes of a session's name are printed.
pub const SESSION_BYTES: usize = 8;

/// The printed part of a session's name ends where a character does.
pub open spec fn can_cut(session: Seq<char>) -> bool {
    let bytes = encode_utf8(session);
    bytes.len() <= SESSION_BYTES || is_char_boundary(bytes, SESSION_BYTES as int)
}

/// The printed part of a session's name: as much of it as its first bytes encode.
pub open spec fn cut(session: Seq<char>) -> Seq<char> {
    let bytes = encode_utf8(session);
    if bytes.len() <= SESSION_BYTES {
        session
    } else {
        decode_utf8(bytes.subrange(0, SESSION_BYTES as int))
    }
}

/// The line for a session, with the local times of its first and last response and the text of
/// its totals.
pub open spec fn session_text(
    session: Seq<char>,
    first: Seq<char>,
    last: Seq<char>,
    totals: Seq<char>,
) -> Seq<char> {
    "  "@ + cut(session) + "  "@ + first + " -> "@ + last + "  "@ + totals
}

/// `line` is the line for a session, with times as a clock less than a day away from UTC shows
/// them.
pub open spec fn is_session_line<P>(
    line: Seq<char>,
    row: SessionTotals<P>,
    totals: Seq<char>,
) -> bool {
    exists|first: Seq<char>, last: Seq<char>|
        is_local_text(first, row.first, ClockStyle::MonthDayTime.format()) && is_local_text(
            last,
            row.last,
            ClockStyle::MonthDayTime.format(),
        ) && line == #[trigger] session_text(row.session@, first, last, totals)
}

/// A line can be made for the session.
pub open spec fn listable<P>(row: SessionTotals<P>) -> bool {
    can_cut(row.session@) && row.first.valid() && row.last.valid()
}

/// How many of so many sessions are listed.
pub open spec fn listed(sessions: nat) -> nat {
    if sessions < TOP_SESSIONS {
        sessions
    } else {
        TOP_SESSIONS as nat
    }
}

fn is_cuttable(session: &str) -> (r: bool)
    ensures
        r == can_cut(session@),
{
    let n: usize = session.as_bytes().len();
    n <= SESSION_BYTES || session.is_char_boundary(SESSION_BYTES)
}

/// The line for a session.
pub fn session_line(session: &str, first: &str, last: &str, totals: &str) -> (r: String)
    requires
        can_cut(session@),
    ensures
        r@ == session_text(session@, first@, last@, totals@),
{
    let mut s = "  ".to_owned();
    if session.as_bytes().len() <= SESSION_BYTES {
        s.append(session);
    } else {
        let part = session.split_at(SESSION_BYTES).0;
        proof {
            encode_utf8_decode_utf8(part@);
        }
        s.append(part);
    }
    s.append("  ");
    s.append(first);
    s.append(" -> ");
    s.append(last);
    s.append("  ");
    s.append(totals);
    assert(s@ =~= session_text(session@, first@, last@, totals@));
    s
}

/// Whether [`session_lines`] has an answer.
pub fn can_list<P>(rows: &Vec<SessionTotals<P>>) -> (r: bool)
    ensures
        r == forall|i: int| 0 <= i < listed(rows@.len()) ==> listable(#[trigger] rows@[i]),
{
    let mut i: usize = 0;
    while i < rows.len() && i < TOP_SESSIONS
        invariant
            i <= listed(rows@.len()),
            forall|k: int| 0 <= k < i ==> listable(#[trigger] rows@[k]),
        decreases rows@.len() - i,
    {
        let row = &rows[i];
        if !(is_cuttable(row.session.as_str()) && row.first.is_valid() && row.last.is_valid()) {
            assert(!listable(rows@[i as int]));
            return false;
        }
        i += 1;
    }
    true
}

/// What the tool prints of the sessions, of which it lists the first few. `totals` holds the
/// text of the totals of each.
pub fn session_lines<P>(rows: &Vec<SessionTotals<P>>, totals: &Vec<String>) -> (lines: Vec<String>)
    requires
        totals@.len() == rows@.len(),
        forall|i: int| 0 <= i < listed(rows@.len()) ==> listable(#[trigger] rows@[i]),
    ensures
        lines@.len() == listed(rows@.len()),
        forall|i: int|
            0 <= i < lines@.len() ==> is_session_line(
                (#[trigger] lines@[i])@,
                rows@[i],
                totals@[i]@,
            ),
{
    let mut lines: Vec<String> = Vec::new();
    let mut i: usize = 0;
    while i < rows.len() && i < TOP_SESSIONS
        invariant
            totals@.len() == rows@.len(),
            i <= listed(rows@.len()),
            forall|k: int| 0 <= k < listed(rows@.len()) ==> listable(#[trigger] rows@[k]),
            lines@.len() == i,
            forall|k: int|
                0 <= k < i ==> is_session_line((#[trigger] lines@[k])@, rows@[k], totals@[k]@),
        decreases rows@.len() - i,
    {
        let row = &rows[i];
        assert(listable(rows@[i as int]));
        let first = local_text(row.first, ClockStyle::MonthDayTime);
        let last = local_text(row.last, ClockStyle::MonthDayTime);
        let line = session_line(
            row.session.as_str(),
            first.as_str(),
            last.as_str(),
            totals[i].as_str(),
        );
        assert(is_session_line(line@, rows@[i as int], totals@[i as int]@));
        lines.push(line);
        i += 1;
    }
    lines
}

/// The word for a state.
pub open spec fn state_text(state: WindowState) -> Seq<char> {
    match state {
        WindowState::Fresh => "fresh"@,
        WindowState::Stale => "STALE"@,
        WindowState::Expired => "EXPIRED (window reset since capture)"@,
    }
}

/// The word for a state.
pub fn state_word(state: WindowState) -> (r: String)
    ensures
        r@ == state_text(state),
{
    match state {
        WindowState::Fresh => "fresh".to_owned(),
        WindowState::Stale => "STALE".to_owned(),
        WindowState::Expired => "EXPIRED (window reset since capture)".to_owned(),
    }
}

proof fn lemma_code_point(c: char)
    ensures
        c as u32 == c as int,
{
}

proof fn lemma_digits_value(s: Seq<char>)
    ensures
        digits_value(s) == crate::text::number_of(s),
    decreases s.len(),
{
    if s.len() > 0 {
        lemma_digits_value(s.drop_last());
        lemma_code_point(s.last());
    }
}

/// Decimal notation reads back as the number, with a plus sign before it or not.
pub proof fn numbers_read_back(n: usize)
    ensures
        parsed(decimal(n as nat)) == Some(n),
        parsed(seq!['+'] + decimal(n as nat)) == Some(n),
{
    let s = decimal(n as nat);
    crate::text::decimal_notation_reads_back(n as nat);
    lemma_digits_value(s);
    assert('0' <= s[0] <= '9');
    assert(unsigned(s) == s);
    assert(unsigned(seq!['+'] + s) =~= s);
}

/// What is read as a number has a digit at its end and only digits before it, but for a plus sign
/// at its start; it stands for those digits; and any such text that fits is read.
pub proof fn which_texts_are_numbers(s: Seq<char>, i: int)
    ensures
        parsed(s) is Some ==> s.len() > 0 && '0' <= s.last() <= '9',
        parsed(s) is Some && 0 < i < s.len() ==> '0' <= s[i] <= '9',
        parsed(s) is Some ==> '0' <= s[0] <= '9' || s[0] == '+',
        parsed(s) is Some && s[0] != '+' ==> parsed(s)->0 == crate::text::number_of(s),
        parsed(s) is Some && s[0] == '+' ==> parsed(s)->0 == crate::text::number_of(s.skip(1)),
        s.len() > 0 && (forall|k: int| 0 <= k < s.len() ==> '0' <= #[trigger] s[k] <= '9')
            && crate::text::number_of(s) <= usize::MAX ==> parsed(s) is Some,
{
    lemma_digits_value(s);
    lemma_digits_value(s.skip(1));
    let d = unsigned(s);
    if parsed(s) is Some {
        lemma_digits_grow(d, 0);
        assert('0' <= d[d.len() - 1] <= '9');
        assert(d.last() == s.last());
        assert('0' <= d[0] <= '9');
        if s[0] == '+' {
            assert(s.len() > 1);
            if 0 < i < s.len() {
                assert(d[i - 1] == s[i]);
            }
        } else {
            assert(d == s);
        }
    }
    if s.len() > 0 && (forall|k: int| 0 <= k < s.len() ==> '0' <= #[trigger] s[k] <= '9') {
        assert('0' <= s[0] <= '9');
        assert(d == s);
        lemma_digits_grow(s, 0);
    }
}

/// An argument is found where it first stands, and counts as given just if it stands somewhere.
pub proof fn arguments_are_found_by_name(args: Seq<Seq<char>>, name: Seq<char>, i: int)
    ensures
        0 <= i < args.len() && args[i] == name && (forall|k: int|
            0 <= k < i ==> #[trigger] args[k] != name) ==> position(args, name) == i,
        0 <= i < args.len() && args[i] == name ==> given(args, name),
        (forall|k: int| 0 <= k < args.len() ==> #[trigger] args[k] != name) ==> position(args, name)
            == args.len() && !given(args, name),
        0 <= position(args, name) <= args.len(),
    decreases args.len(),
{
    if args.len() > 0 && args[0] != name {
        let rest = args.skip(1);
        arguments_are_found_by_name(rest, name, i - 1);
        if 0 <= i < args.len() && args[i] == name {
            assert(rest[i - 1] == args[i]);
            if forall|k: int| 0 <= k < i ==> #[trigger] args[k] != name {
                assert forall|k: int| 0 <= k < i - 1 implies #[trigger] rest[k] != name by {
                    assert(rest[k] == args[k + 1]);
                }
            }
        }
        if forall|k: int| 0 <= k < args.len() ==> #[trigger] args[k] != name {
            assert forall|k: int| 0 <= k < rest.len() implies #[trigger] rest[k] != name by {
                assert(rest[k] == args[k + 1]);
            }
        }
    }
}

/// The days asked for are the number behind the first `--days`, and seven where there is none.
pub proof fn how_many_days_are_asked_for(args: Seq<Seq<char>>, i: int)
    ensures
        (forall|k: int| 0 <= k < args.len() ==> #[trigger] args[k] != "--days"@) ==> days_asked(args)
            == 7,
        0 <= i < args.len() && args[i] == "--days"@ && (forall|k: int|
            0 <= k < i ==> #[trigger] args[k] != "--days"@) ==> {
            &&& i + 1 == args.len() ==> days_asked(args) == 7
            &&& i + 1 < args.len() && parsed(args[i + 1]) is None ==> days_asked(args) == 7
            &&& i + 1 < args.len() && parsed(args[i + 1]) is Some ==> days_asked(args) == parsed(
                args[i + 1],
            )->0
        },
{
    arguments_are_found_by_name(args, "--days"@, i);
}

/// A count of tokens is printed in full below a thousand, with one decimal place in thousands,
/// and with two in millions, by the nearest such figure; only where doubles get coarse is it not
/// always the nearest, but still less than one unit of the last place off.
pub proof fn printed_counts_are_close(n: nat)
    requires
        n < 0x20_0000_0000_0000,
    ensures
        n < 1_000 ==> tokens_text(n) == decimal(n),
        1_000 <= n < 1_000_000 ==> exists|x: nat|
            tokens_text(n) == #[trigger] crate::figures::with_places(x, 1) + "k"@ && -1_000 <= 2 * (
            x * 1_000 - n * 10) <= 1_000,
        1_000_000 <= n ==> exists|x: nat|
            tokens_text(n) == #[trigger] crate::figures::with_places(x, 2) + "M"@ && -1_000_000 < x
                * 1_000_000 - n * 100 < 1_000_000 && (n < 45_000_000_000_000 ==> -1_000_000 <= 2 * (x
                * 1_000_000 - n * 100) <= 1_000_000),
{
    if 1_000 <= n < 1_000_000 {
        crate::figures::figures_are_nearest(n, 1_000, 1);
        let x = crate::figures::rounded(n, 1_000, 10);
        assert(tokens_text(n) == crate::figures::with_places(x, 1) + "k"@);
    }
    if 1_000_000 <= n {
        crate::figures::figures_are_close(n, 1_000_000, 2);
        if n < 45_000_000_000_000 {
            crate::figures::figures_are_nearest(n, 1_000_000, 2);
        }
        let x = crate::figures::rounded(n, 1_000_000, 100);
        assert(tokens_text(n) == crate::figures::with_places(x, 2) + "M"@);
    }
}

/// Padding fills up to the width with spaces and takes nothing away: a text stands at the right
/// of its column, or at the left if it is filled.
pub proof fn padding_is_space(s: Seq<char>, width: nat, i: int)
    ensures
        s.len() >= width ==> padded(s, width) == s && filled(s, width) == s,
        s.len() < width ==> {
            let p = padded(s, width);
            let f = filled(s, width);
            &&& p.len() == width && f.len() == width
            &&& p.skip(width - s.len()) == s
            &&& f.take(s.len() as int) == s
            &&& 0 <= i < width - s.len() ==> p[i] == ' '
            &&& s.len() <= i < width ==> f[i] == ' '
        },
{
    if s.len() < width {
        assert(padded(s, width).skip(width - s.len()) =~= s);
        assert(filled(s, width).take(s.len() as int) =~= s);
    }
}

/// The figures of a line stand in columns: eight characters for all tokens, seven for each kind,
/// four for the requests and seven for the cost. Tokens without a price are told of behind them.
pub proof fn figures_stand_in_columns(u: TokenUsage, requests: u64, cost: Seq<char>, unpriced: u64)
    requires
        tokens_text(u@.total()).len() <= 8,
        tokens_text(u.input as nat).len() <= 7,
        tokens_text(u.output as nat).len() <= 7,
        tokens_text(u.cache_creation as nat).len() <= 7,
        tokens_text(u.cache_read as nat).len() <= 7,
        decimal(requests as nat).len() <= 4,
        cost.len() <= 7,
    ensures
        ({
            let line = line_text(u, requests, cost, unpriced);
            &&& line.subrange(0, 8) == padded(tokens_text(u@.total()), 8)
            &&& line.subrange(8, 18) == " tok  (in "@
            &&& line.subrange(18, 25) == padded(tokens_text(u.input as nat), 7)
            &&& line.subrange(25, 32) == " | out "@
            &&& line.subrange(32, 39) == padded(tokens_text(u.output as nat), 7)
            &&& line.subrange(39, 54) == " | cache write "@
            &&& line.subrange(54, 61) == padded(tokens_text(u.cache_creation as nat), 7)
            &&& line.subrange(61, 75) == " | cache read "@
            &&& line.subrange(75, 82) == padded(tokens_text(u.cache_read as nat), 7)
            &&& line.subrange(82, 85) == ")  "@
            &&& line.subrange(85, 89) == padded(decimal(requests as nat), 4)
            &&& line.subrange(89, 100) == " req  est $"@
            &&& line.subrange(100, 107) == padded(cost, 7)
            &&& unpriced == 0 ==> line.len() == 107
            &&& unpriced > 0 ==> line.skip(107) == "  (+"@ + tokens_text(unpriced as nat)
                + " unpriced)"@
        }),
{
    reveal_strlit(" tok  (in ");
    reveal_strlit(" | out ");
    reveal_strlit(" | cache write ");
    reveal_strlit(" | cache read ");
    reveal_strlit(")  ");
    reveal_strlit(" req  est $");
    let line = line_text(u, requests, cost, unpriced);
    let a = padded(tokens_text(u@.total()), 8);
    let b = padded(tokens_text(u.input as nat), 7);
    let c = padded(tokens_text(u.output as nat), 7);
    let d = padded(tokens_text(u.cache_creation as nat), 7);
    let e = padded(tokens_text(u.cache_read as nat), 7);
    let f = padded(decimal(requests as nat), 4);
    let g = padded(cost, 7);
    assert(a.len() == 8 && b.len() == 7 && c.len() == 7 && d.len() == 7 && e.len() == 7 && f.len()
        == 4 && g.len() == 7);
    assert(line.subrange(0, 8) =~= a);
    assert(line.subrange(18, 25) =~= b);
    assert(line.subrange(32, 39) =~= c);
    assert(line.subrange(54, 61) =~= d);
    assert(line.subrange(75, 82) =~= e);
    assert(line.subrange(85, 89) =~= f);
    assert(line.subrange(100, 107) =~= g);
    if unpriced > 0 {
        assert(line.skip(107) =~= "  (+"@ + tokens_text(unpriced as nat) + " unpriced)"@);
    }
}

/// A window is printed with its name, and its percentage and reset behind it where it is there.
pub proof fn what_is_printed_of_a_window(name: Seq<char>, w: PrintedWindow)
    ensures
        window_text(name, None) == filled(name, 28) + " absent"@,
        w.resets matches Some(t) ==> window_text(name, Some(w)) == filled(name, 28) + (" "@ + padded(
            w.percent@,
            6,
        ) + "%  resets "@ + t@),
        w.resets is None ==> window_text(name, Some(w)) == filled(name, 28) + (" "@ + padded(
            w.percent@,
            6,
        ) + "%  resets "@ + "?"@),
        unlisted_text(name, w) == filled(name, 28) + " "@ + padded(w.percent@, 6)
            + "%  (unlisted window)"@,
{
}

/// A limit is printed in columns: its kind, its group, the percentage, how severe it is and what
/// it is for.
pub proof fn limits_stand_in_columns(l: ScopedLimit<PrintedWindow>)
    requires
        l.kind@.len() <= 14,
        l.group@.len() <= 8,
        l.window.percent@.len() <= 5,
        l.severity@.len() <= 8,
    ensures
        ({
            let line = scoped_text(l);
            let scope = match l.scope {
                Some(s) => s@,
                None => "-"@,
            };
            &&& line.subrange(0, 14) == filled(l.kind@, 14)
            &&& line[14] == ' '
            &&& line.subrange(15, 23) == filled(l.group@, 8)
            &&& line[23] == ' '
            &&& line.subrange(24, 29) == padded(l.window.percent@, 5)
            &&& line.subrange(29, 32) == "%  "@
            &&& line.subrange(32, 40) == filled(l.severity@, 8)
            &&& line[40] == ' '
            &&& l.is_active ==> line.skip(41) == scope + "  (active)"@
            &&& !l.is_active ==> line.skip(41) == scope
        }),
{
    reveal_strlit(" ");
    reveal_strlit("%  ");
    let line = scoped_text(l);
    let scope = match l.scope {
        Some(s) => s@,
        None => "-"@,
    };
    let a = filled(l.kind@, 14);
    let b = filled(l.group@, 8);
    let c = padded(l.window.percent@, 5);
    let d = filled(l.severity@, 8);
    assert(a.len() == 14 && b.len() == 8 && c.len() == 5 && d.len() == 8);
    assert(line.subrange(0, 14) =~= a);
    assert(line.subrange(15, 23) =~= b);
    assert(line.subrange(24, 29) =~= c);
    assert(line.subrange(29, 32) =~= "%  "@);
    assert(line.subrange(32, 40) =~= d);
    if l.is_active {
        assert(line.skip(41) =~= scope + "  (active)"@);
    } else {
        assert(line.skip(41) =~= scope);
    }
}

/// The credits are printed with what is used of how much, and with a warning if and only if the
/// limit is reached.
pub proof fn what_is_printed_of_credits(c: Credits<PrintedWindow>)
    ensures
        ({
            let on = if c.enabled {
                "true"@
            } else {
                "false"@
            };
            let limit = match c.limit {
                Some(l) => l@,
                None => "no limit"@,
            };
            let line = "--- usage credits (billed) --- enabled="@ + on + " "@ + c.used@ + " of "@
                + limit + " ("@ + c.share.percent@ + "%)"@;
            &&& c.limit_reached ==> credits_text(c) == line + "  LIMIT REACHED"@
            &&& !c.limit_reached ==> credits_text(c) == line
        }),
{
}

/// A surface is printed with its name and its share.
pub proof fn what_is_printed_of_a_surface(b: SurfaceShare)
    ensures
        b.display_name@.len() <= 14 && b.percent@.len() <= 3 ==> {
            let line = share_text(b);
            &&& line.len() == 19
            &&& line.take(14) == filled(b.display_name@, 14)
            &&& line[14] == ' '
            &&& line.subrange(15, 18) == padded(b.percent@, 3)
            &&& line[18] == '%'
        },
{
    reveal_strlit(" ");
    reveal_strlit("%");
    if b.display_name@.len() <= 14 && b.percent@.len() <= 3 {
        let line = share_text(b);
        assert(filled(b.display_name@, 14).len() == 14 && padded(b.percent@, 3).len() == 3);
        assert(line.take(14) =~= filled(b.display_name@, 14));
        assert(line.subrange(15, 18) =~= padded(b.percent@, 3));
    }
}

/// The seven windows of a reading come first, each under its own name; behind them the other
/// windows in order; then the list of limits, in order, below a heading.
pub proof fn windows_and_limits_are_printed(
    r: LimitsReading<PrintedWindow>,
    raw: bool,
    i: int,
    j: int,
)
    requires
        0 <= i < r.other@.len(),
        0 <= j < r.limits@.len(),
    ensures
        ({
            let lines = reading_text(r, raw);
            let n = r.other@.len();
            &&& lines[7 + i] == unlisted_text(r.other@[i].0@, r.other@[i].1)
            &&& lines[8 + n + j] == scoped_text(r.limits@[j])
        }),
{
}

/// What is printed of any reading.
pub proof fn every_part_of_a_reading_is_printed(
    r: LimitsReading<PrintedWindow>,
    raw: bool,
    i: int,
)
    requires
        0 <= i <= r.breakdown@.len(),
    ensures
        ({
            let lines = reading_text(r, raw);
            let n = r.other@.len() as int;
            let a = 8 + n + r.limits@.len();
            let b = if r.credits is Some {
                a + 1
            } else {
                a
            };
            let c = if r.breakdown@.len() > 0 {
                b + 1 + r.breakdown@.len()
            } else {
                b
            };
            &&& lines[0] == window_text("five_hour"@, r.five_hour)
            &&& lines[1] == window_text("seven_day"@, r.seven_day)
            &&& lines[2] == window_text("seven_day_opus"@, r.seven_day_opus)
            &&& lines[3] == window_text("seven_day_sonnet"@, r.seven_day_sonnet)
            &&& lines[4] == window_text("seven_day_overage_included"@, r.seven_day_overage_included)
            &&& lines[5] == window_text("overage"@, r.overage)
            &&& lines[6] == window_text("spend_limit"@, r.spend_limit)
            &&& lines[7 + n] == "--- limits array ---"@
            &&& r.credits matches Some(credits) ==> lines[a] == credits_text(credits)
            &&& r.breakdown@.len() > 0 ==> lines[b] == "--- weekly window by surface ---"@
            &&& i < r.breakdown@.len() ==> lines[b + 1 + i] == share_text(r.breakdown@[i])
            &&& raw ==> lines.len() == c + 2 && lines[c] == "--- raw body ---"@ && lines[c + 1]
                == r.raw@
            &&& !raw ==> lines.len() == c
        }),
{
}

/// A session's name is printed in full up to eight bytes; of a longer one the characters that
/// its first eight bytes encode, and it can be printed just if those are whole characters.
pub proof fn names_are_cut_at_eight_bytes(session: Seq<char>)
    requires
        can_cut(session),
    ensures
        ({
            let bytes = encode_utf8(session);
            &&& bytes.len() <= 8 ==> cut(session) == session
            &&& bytes.len() > 8 ==> encode_utf8(cut(session)) == bytes.subrange(0, 8)
            &&& cut(session).is_prefix_of(session)
        }),
{
    let bytes = encode_utf8(session);
    encode_utf8_valid_utf8(session);
    encode_utf8_decode_utf8(session);
    if bytes.len() > 8 {
        valid_utf8_split(bytes, 8);
        decode_utf8_split(bytes, 8);
        decode_utf8_encode_utf8(bytes.subrange(0, 8));
    }
}

/// Which names can be cut.
pub proof fn which_names_can_be_cut(session: Seq<char>)
    ensures
        can_cut(session) <==> encode_utf8(session).len() <= 8 || is_char_boundary(
            encode_utf8(session),
            8,
        ),
{
}

/// A name of ASCII characters can always be cut, after eight of them.
pub proof fn ascii_names_are_cut_at_eight_characters(session: Seq<char>)
    requires
        forall|i: int| 0 <= i < session.len() ==> '\0' <= #[trigger] session[i] <= '\u{7f}',
    ensures
        can_cut(session),
        session.len() <= 8 ==> cut(session) == session,
        session.len() > 8 ==> cut(session) == session.take(8),
{
    let bytes = encode_utf8(session);
    assert(is_ascii_chars(session));
    is_ascii_chars_encode_utf8(session);
    encode_utf8_valid_utf8(session);
    if session.len() > 8 {
        let n = bytes[8];
        assert(n == session[8] as u8);
        assert(n < 0x80);
        is_char_boundary_iff_not_is_continuation_byte(bytes, 8);
        assert(n < 0x80 ==> !is_continuation_byte(n)) by (bit_vector);
        names_are_cut_at_eight_bytes(session);
        let part = session.take(8);
        assert(is_ascii_chars(part));
        is_ascii_chars_encode_utf8(part);
        assert forall|i: int| 0 <= i < 8 implies encode_utf8(part)[i] == #[trigger] bytes[i] by {
            assert(part[i] == session[i]);
        }
        assert(encode_utf8(part) =~= bytes.subrange(0, 8));
        encode_utf8_decode_utf8(part);
    }
}

/// A session is printed with its name, its first and last response in that order, and its
/// totals.
pub proof fn what_is_printed_of_a_session<P>(
    row: SessionTotals<P>,
    first: Seq<char>,
    last: Seq<char>,
    totals: Seq<char>,
    line: Seq<char>,
)
    ensures
        session_text(row.session@, first, last, totals) == "  "@ + cut(row.session@) + "  "@ + first
            + " -> "@ + last + "  "@ + totals,
        is_session_line(line, row, totals) ==> exists|a: Seq<char>, b: Seq<char>|
            line == #[trigger] session_text(row.session@, a, b, totals) && is_local_text(
                a,
                row.first,
                "%m-%d %H:%M"@,
            ) && is_local_text(b, row.last, "%m-%d %H:%M"@),
{
    if is_session_line(line, row, totals) {
        let (a, b) = choose|a: Seq<char>, b: Seq<char>|
            is_local_text(a, row.first, ClockStyle::MonthDayTime.format()) && is_local_text(
                b,
                row.last,
                ClockStyle::MonthDayTime.format(),
            ) && line == #[trigger] session_text(row.session@, a, b, totals);
        assert(line == session_text(row.session@, a, b, totals) && is_local_text(
            a,
            row.first,
            "%m-%d %H:%M"@,
        ) && is_local_text(b, row.last, "%m-%d %H:%M"@));
    }
}

/// Up to ten sessions are listed, and the first ten of more. One can be listed if its name can be
/// cut and its times lie in the calendar.
pub proof fn which_sessions_are_listed<P>(row: SessionTotals<P>, sessions: nat)
    ensures
        sessions <= 10 ==> listed(sessions) == sessions,
        sessions > 10 ==> listed(sessions) == 10,
        listable(row) <==> can_cut(row.session@) && row.first.valid() && row.last.valid(),
{
}

/// Each state has a word of its own.
pub proof fn what_states_are_called(state: WindowState)
    ensures
        state is Fresh ==> state_text(state) == "fresh"@,
        state is Stale ==> state_text(state) == "STALE"@,
        state is Expired ==> state_text(state) == "EXPIRED (window reset since capture)"@,
{
}

/// The largest counts of tokens are printed in millions as well.
pub proof fn large_printed_counts_are_close(n: nat)
    requires
        0x20_0000_0000_0000 <= n <= u64::MAX,
    ensures
        exists|x: nat|
            tokens_text(n) == #[trigger] crate::figures::with_places(x, 2) + "M"@ && -1_204_800 < x
                * 1_000_000 - n * 100 < 1_204_800,
{
    crate::figures::large_figures_are_close(n, 2);
    let x = crate::figures::rounded(n, 1_000_000, 100);
    assert(tokens_text(n) == crate::figures::with_places(x, 2) + "M"@);
}

/// A line tells of all tokens, of each kind, of the requests and of the cost in this order, however
/// wide they are.
pub proof fn what_is_printed_of_totals(u: TokenUsage, requests: u64, cost: Seq<char>, unpriced: u64)
    ensures
        ({
            let all = padded(tokens_text(u@.total()), 8) + " tok  (in "@;
            let kinds = padded(tokens_text(u.input as nat), 7) + " | out "@ + padded(
                tokens_text(u.output as nat),
                7,
            ) + " | cache write "@ + padded(tokens_text(u.cache_creation as nat), 7)
                + " | cache read "@ + padded(tokens_text(u.cache_read as nat), 7);
            let rest = ")  "@ + padded(decimal(requests as nat), 4) + " req  est $"@ + padded(cost, 7);
            let line = line_text(u, requests, cost, unpriced);
            &&& unpriced == 0 ==> line == all + kinds + rest
            &&& unpriced > 0 ==> line == all + kinds + rest + ("  (+"@ + tokens_text(unpriced as nat)
                + " unpriced)"@)
        }),
{
    let all = padded(tokens_text(u@.total()), 8) + " tok  (in "@;
    let kinds = padded(tokens_text(u.input as nat), 7) + " | out "@ + padded(
        tokens_text(u.output as nat),
        7,
    ) + " | cache write "@ + padded(tokens_text(u.cache_creation as nat), 7) + " | cache read "@
        + padded(tokens_text(u.cache_read as nat), 7);
    let rest = ")  "@ + padded(decimal(requests as nat), 4) + " req  est $"@ + padded(cost, 7);
    let line = line_text(u, requests, cost, 0);
    assert(line =~= all + kinds + rest);
}

/// A limit is printed with everything that is known of it, however wide that is.
pub proof fn what_is_printed_of_a_limit(l: ScopedLimit<PrintedWindow>)
    ensures
        ({
            let scope = match l.scope {
                Some(s) => s@,
                None => "-"@,
            };
            let line = filled(l.kind@, 14) + " "@ + filled(l.group@, 8) + " "@ + padded(
                l.window.percent@,
                5,
            ) + "%  "@ + filled(l.severity@, 8) + " "@ + scope;
            &&& l.is_active ==> scoped_text(l) == line + "  (active)"@
            &&& !l.is_active ==> scoped_text(l) == line
        }),
{
}

/// A surface is printed with its name and its share, however wide they are.
pub proof fn surfaces_are_printed_in_full(b: SurfaceShare)
    ensures
        share_text(b) == filled(b.display_name@, 14) + (" "@ + padded(b.percent@, 3) + "%"@),
{
}

} // verus!
