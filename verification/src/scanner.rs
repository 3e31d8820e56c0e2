//! Incremental JSONL scanner.
//!
//! Tracks, for each path, length, modification time and consumed byte offset. A re-scan only
//! reads bytes appended since the last consumed newline, so it is cheap to run often.
//! Partially written trailing lines are left unconsumed until the next scan, unless the file
//! has been quiet for `settle_after`, in which case the tail is parsed as it is (and counted
//! as malformed if it never completed).
//!
//! The scanner decides and remembers; its caller reads the files. For each file the caller
//! asks [`Scanner::visit`] what to read, cuts the bytes into lines with [`frame`], reads those
//! lines that have the shape of a record, and hands both to [`Scanner::absorb`].
//! [`whole_scan`] is what this comes to for all files together.

use vstd::hash_map::StringHashMap;
use vstd::prelude::*;
use vstd::utf8::*;

use crate::parse::{parse_line, said, Parsed, ParsedLine, RawRecord};
use crate::store::{
    by_id, distinct_ids, filter_keeps_the_rest, has_id, is_at, last_for, last_record_wins, not_before,
    not_from, put, put_all, Entry, Upsert, UsageStore,
};
use crate::text::{chars_of, ends_with, utf8_text};
use crate::time::{
    checked_sub_signed, moved, second_in_range, shifted, Duration, Span, Timestamp, MAX_SPAN_DAYS,
};

verus! {

/// The lines of a byte buffer, ready to be read as JSON.
#[derive(Debug)]
pub struct Framed {
    /// The text of each line that is not blank; none where it is not UTF-8.
    pub lines: Vec<Option<String>>,
    /// How many bytes the lines take up.
    pub consumed: usize,
    /// Whether an incomplete line was left over.
    pub partial: bool,
}

/// The bytes that `u8::is_ascii_whitespace` accepts.
pub open spec fn blank(b: u8) -> bool {
    b == 0x20 || b == 0x09 || b == 0x0A || b == 0x0C || b == 0x0D
}

/// `line` without blank bytes at its start.
pub open spec fn trim_front(line: Seq<u8>) -> Seq<u8>
    decreases line.len(),
{
    if line.len() > 0 && blank(line[0]) {
        trim_front(line.skip(1))
    } else {
        line
    }
}

/// `line` without blank bytes at its end.
pub open spec fn trim_back(line: Seq<u8>) -> Seq<u8>
    decreases line.len(),
{
    if line.len() > 0 && blank(line.last()) {
        trim_back(line.drop_last())
    } else {
        line
    }
}

/// `line` without blank bytes around it.
pub open spec fn trim_line(line: Seq<u8>) -> Seq<u8> {
    trim_back(trim_front(line))
}

/// A newline stands at position `n`, and none before it.
pub open spec fn first_newline_at(buf: Seq<u8>, n: int) -> bool {
    0 <= n < buf.len() && buf[n] == 0x0A && forall|k: int| 0 <= k < n ==> buf[k] != 0x0A
}

/// The buffer holds no newline.
pub open spec fn no_newline(buf: Seq<u8>) -> bool {
    forall|k: int| 0 <= k < buf.len() ==> buf[k] != 0x0A
}

/// Where the first newline stands.
pub open spec fn first_newline(buf: Seq<u8>) -> int {
    choose|n: int| first_newline_at(buf, n)
}

/// The lines that end in a newline, without it.
pub open spec fn complete_lines(buf: Seq<u8>) -> Seq<Seq<u8>>
    decreases buf.len(),
{
    let n = first_newline(buf);
    if first_newline_at(buf, n) {
        seq![buf.take(n)] + complete_lines(buf.skip(n + 1))
    } else {
        Seq::empty()
    }
}

/// The number of bytes up to and with the last newline.
pub open spec fn complete_len(buf: Seq<u8>) -> int
    decreases buf.len(),
{
    let n = first_newline(buf);
    if first_newline_at(buf, n) {
        n + 1 + complete_len(buf.skip(n + 1))
    } else {
        0
    }
}

/// The lines to be read now: the complete ones and, once the file has settled, what follows
/// the last newline.
pub open spec fn due_lines(buf: Seq<u8>, settled: bool) -> Seq<Seq<u8>> {
    let tail = buf.skip(complete_len(buf));
    if settled && tail.len() > 0 {
        complete_lines(buf).push(tail)
    } else {
        complete_lines(buf)
    }
}

/// How many bytes the lines to be read now take up.
pub open spec fn consumed_of(buf: Seq<u8>, settled: bool) -> int {
    if settled {
        buf.len() as int
    } else {
        complete_len(buf)
    }
}

/// An incomplete line is left over.
pub open spec fn partial_of(buf: Seq<u8>, settled: bool) -> bool {
    !settled && complete_len(buf) < buf.len()
}

/// The text of a line, if it is UTF-8.
pub open spec fn line_text(line: Seq<u8>) -> Option<Seq<char>> {
    if valid_utf8(line) {
        Some(decode_utf8(line))
    } else {
        None
    }
}

/// The texts of the lines that are not blank.
pub open spec fn texts(lines: Seq<Seq<u8>>) -> Seq<Option<Seq<char>>>
    decreases lines.len(),
{
    if lines.len() == 0 {
        Seq::empty()
    } else {
        let line = trim_line(lines.last());
        if line.len() == 0 {
            texts(lines.drop_last())
        } else {
            texts(lines.drop_last()).push(line_text(line))
        }
    }
}

/// The views of a list of texts.
pub open spec fn text_views(lines: Seq<Option<String>>) -> Seq<Option<Seq<char>>> {
    lines.map_values(
        |t: Option<String>|
            match t {
                Some(t) => Some(t@),
                None => None,
            },
    )
}

fn is_blank(b: u8) -> (r: bool)
    ensures
        r == blank(b),
{
    b == 0x20 || b == 0x09 || b == 0x0A || b == 0x0C || b == 0x0D
}

/// The line without blank bytes around it.
pub fn trim_ascii(s: &[u8]) -> (r: &[u8])
    ensures
        r@ == trim_line(s@),
{
    let mut from: usize = 0;
    assert(s@.skip(0) =~= s@);
    while from < s.len() && is_blank(s[from])
        invariant
            from <= s@.len(),
            trim_front(s@) == trim_front(s@.skip(from as int)),
        decreases s@.len() - from,
    {
        assert(s@.skip(from as int).skip(1) =~= s@.skip(from + 1));
        from += 1;
    }
    let ghost rest = s@.skip(from as int);
    let mut to: usize = s.len();
    assert(s@.subrange(from as int, to as int) =~= rest);
    while to > from && is_blank(s[to - 1])
        invariant
            from <= to <= s@.len(),
            trim_back(rest) == trim_back(s@.subrange(from as int, to as int)),
        decreases to,
    {
        proof {
            let part = s@.subrange(from as int, to as int);
            assert(part.last() == s@[to - 1]);
            assert(part.drop_last() =~= s@.subrange(from as int, to - 1));
        }
        to -= 1;
    }
    proof {
        let part = s@.subrange(from as int, to as int);
        assert(to > from ==> part.last() == s@[to - 1]);
    }
    vstd::slice::slice_subrange(s, from, to)
}

/// Appends the text of a line, unless the line is blank.
fn push_line(line: &[u8], out: &mut Vec<Option<String>>, Ghost(before): Ghost<Seq<Seq<u8>>>)
    requires
        text_views(old(out)@) == texts(before),
    ensures
        text_views(final(out)@) == texts(before.push(line@)),
{
    let trimmed = trim_ascii(line);
    assert(before.push(line@).drop_last() =~= before);
    if trimmed.len() > 0 {
        let text = utf8_text(trimmed);
        assert(text_views(out@.push(text)) =~= text_views(out@).push(line_text(trimmed@)));
        out.push(text);
    }
}

/// Cuts a buffer into lines.
pub fn frame(buf: &[u8], settled: bool) -> (r: Framed)
    ensures
        text_views(r.lines@) == texts(due_lines(buf@, settled)),
        r.consumed == consumed_of(buf@, settled),
        r.partial == partial_of(buf@, settled),
{
    let mut lines: Vec<Option<String>> = Vec::new();
    let mut pos: usize = 0;
    let ghost mut done: Seq<Seq<u8>> = Seq::empty();
    let mut at: usize = 0;
    proof {
        assert(buf@.skip(0) =~= buf@);
        assert(text_views(lines@) =~= texts(done));
        assert(done + complete_lines(buf@) =~= complete_lines(buf@));
    }
    while at < buf.len()
        invariant
            pos <= at <= buf@.len(),
            forall|k: int| pos <= k < at ==> buf@[k] != 0x0A,
            text_views(lines@) == texts(done),
            complete_lines(buf@) == done + complete_lines(buf@.skip(pos as int)),
            complete_len(buf@) == pos + complete_len(buf@.skip(pos as int)),
        decreases buf@.len() - at,
    {
        if buf[at] == 0x0A {
            let line = vstd::slice::slice_subrange(buf, pos, at);
            proof {
                let rest = buf@.skip(pos as int);
                let n = at - pos;
                assert(first_newline_at(rest, n));
                lemma_first_newline(rest, n);
                assert(rest.take(n) =~= line@);
                assert(rest.skip(n + 1) =~= buf@.skip(at + 1));
                assert(done + (seq![line@] + complete_lines(buf@.skip(at + 1))) =~= done.push(line@)
                    + complete_lines(buf@.skip(at + 1)));
            }
            push_line(line, &mut lines, Ghost(done));
            proof {
                done = done.push(line@);
            }
            pos = at + 1;
        }
        at += 1;
    }
    proof {
        let rest = buf@.skip(pos as int);
        assert(no_newline(rest)) by {
            assert forall|k: int| 0 <= k < rest.len() implies rest[k] != 0x0A by {
                assert(rest[k] == buf@[pos + k]);
            }
        }
        assert(!first_newline_at(rest, first_newline(rest)));
        assert(done + complete_lines(rest) =~= done);
        assert(complete_len(buf@) == pos);
    }
    let mut consumed: usize = pos;
    let mut partial = false;
    if pos < buf.len() {
        if settled {
            let tail = vstd::slice::slice_subrange(buf, pos, buf.len());
            assert(tail@ =~= buf@.skip(pos as int));
            push_line(tail, &mut lines, Ghost(done));
            consumed = buf.len();
        } else {
            partial = true;
        }
    }
    Framed { lines, consumed, partial }
}

proof fn lemma_first_newline(buf: Seq<u8>, n: int)
    requires
        first_newline_at(buf, n),
    ensures
        first_newline(buf) == n,
{
    let m = first_newline(buf);
    assert(first_newline_at(buf, m));
}

/// What a scan found and did.
#[derive(Debug, Clone, PartialEq, Eq)]
pub struct ScanReport {
    pub root_exists: bool,
    pub files_seen: usize,
    pub files_read: usize,
    pub files_skipped_old: usize,
    /// Files that shrank (rewritten/truncated) and were re-read from the start.
    pub files_reset: usize,
    pub bytes_read: u64,
    pub events_added: usize,
    pub events_updated: usize,
    pub lines_ignored: usize,
    pub lines_malformed: usize,
    /// Trailing lines without a newline that were left for the next scan.
    pub partial_lines: usize,
    pub events_pruned: usize,
}

/// What a [`ScanReport`] says.
#[verifier::ext_equal]
pub struct ReportView {
    pub root_exists: bool,
    pub files_seen: nat,
    pub files_read: nat,
    pub files_skipped_old: nat,
    pub files_reset: nat,
    pub bytes_read: nat,
    pub events_added: nat,
    pub events_updated: nat,
    pub lines_ignored: nat,
    pub lines_malformed: nat,
    pub partial_lines: nat,
    pub events_pruned: nat,
}

impl View for ScanReport {
    type V = ReportView;

    open spec fn view(&self) -> ReportView {
        ReportView {
            root_exists: self.root_exists,
            files_seen: self.files_seen as nat,
            files_read: self.files_read as nat,
            files_skipped_old: self.files_skipped_old as nat,
            files_reset: self.files_reset as nat,
            bytes_read: self.bytes_read as nat,
            events_added: self.events_added as nat,
            events_updated: self.events_updated as nat,
            lines_ignored: self.lines_ignored as nat,
            lines_malformed: self.lines_malformed as nat,
            partial_lines: self.partial_lines as nat,
            events_pruned: self.events_pruned as nat,
        }
    }
}

/// The report of a scan that has not begun.
pub open spec fn no_report() -> ReportView {
    ReportView {
        root_exists: false,
        files_seen: 0,
        files_read: 0,
        files_skipped_old: 0,
        files_reset: 0,
        bytes_read: 0,
        events_added: 0,
        events_updated: 0,
        lines_ignored: 0,
        lines_malformed: 0,
        partial_lines: 0,
        events_pruned: 0,
    }
}

/// The report of a scan that finds so many files below the root, before it has looked at them.
pub open spec fn report_begun(files: nat) -> ReportView {
    ReportView { root_exists: true, files_seen: files, ..no_report() }
}

impl Default for ScanReport {
    fn default() -> (r: ScanReport)
        ensures
            r@ == no_report(),
    {
        ScanReport {
            root_exists: false,
            files_seen: 0,
            files_read: 0,
            files_skipped_old: 0,
            files_reset: 0,
            bytes_read: 0,
            events_added: 0,
            events_updated: 0,
            lines_ignored: 0,
            lines_malformed: 0,
            partial_lines: 0,
            events_pruned: 0,
        }
    }
}

impl ScanReport {
    /// The report with which a scan begins, given the files below the root if there is a root.
    /// Without one the scan is over, which is no error.
    pub fn begin(files: Option<usize>) -> (r: ScanReport)
        ensures
            r@ == match files {
                Some(n) => report_begun(n as nat),
                None => no_report(),
            },
    {
        let mut r = ScanReport::default();
        if let Some(n) = files {
            r.root_exists = true;
            r.files_seen = n;
        }
        r
    }

    /// Every count can grow by `n`.
    pub open spec fn has_room(self, n: int) -> bool {
        &&& self.files_read + n <= usize::MAX
        &&& self.files_skipped_old + n <= usize::MAX
        &&& self.files_reset + n <= usize::MAX
        &&& self.events_added + n <= usize::MAX
        &&& self.events_updated + n <= usize::MAX
        &&& self.lines_ignored + n <= usize::MAX
        &&& self.lines_malformed + n <= usize::MAX
        &&& self.partial_lines + n <= usize::MAX
    }

    /// Whether `lines` more lines and `bytes` more bytes can be counted.
    pub fn can_count(&self, lines: usize, bytes: u64) -> (r: bool)
        ensures
            r == (self.has_room(lines as int) && self.bytes_read + bytes <= u64::MAX),
    {
        let room: usize = usize::MAX - lines;
        self.files_read <= room && self.files_skipped_old <= room && self.files_reset <= room
            && self.events_added <= room && self.events_updated <= room && self.lines_ignored
            <= room && self.lines_malformed <= room && self.partial_lines <= room
            && self.bytes_read <= u64::MAX - bytes
    }
}

/// What is remembered of a file.
#[derive(Debug, Clone, Copy, PartialEq, Eq, Structural)]
pub struct FileState {
    pub id: u32,
    pub len: u64,
    pub mtime: Timestamp,
    /// Bytes consumed so far (always ends right after a newline, or at EOF once settled).
    pub offset: u64,
}

/// Length and modification time of a file.
#[derive(Debug, Clone, Copy, PartialEq, Eq, Structural)]
pub struct FileMeta {
    pub len: u64,
    pub mtime: Timestamp,
}

/// What to read of a file.
#[derive(Debug, Clone, Copy, PartialEq, Eq, Structural)]
pub struct ReadPlan {
    pub id: u32,
    /// Where to begin. Nothing is to be read if the file does not reach further.
    pub offset: u64,
    /// Whether a line without a newline at the end is final.
    pub settled: bool,
}

/// The outcome of [`Scanner::visit`], as a function of what the scanner knows.
pub struct Visited {
    /// The file is too old to be looked at.
    pub too_old: bool,
    /// The file was not known and gets a new id.
    pub is_new: bool,
    pub id: u32,
    /// The file has shrunk, so that what was read of it is void.
    pub reset: bool,
    pub plan: Option<ReadPlan>,
}

/// The file has not changed for `settle_after`.
pub open spec fn quiet(now: Timestamp, mtime: Timestamp, settle_after: Duration) -> bool {
    now.linear() >= mtime.linear() && now.linear() - mtime.linear() >= settle_after.nanos
}

/// When a scan looks at the files, and by which rules.
pub struct Terms {
    pub now: Timestamp,
    /// The moment before which files are skipped and events dropped.
    pub cutoff: Option<Timestamp>,
    /// How long a file must be quiet before its last line counts as final.
    pub settle_after: Duration,
}

/// What becomes of a visit to a file with the metadata `meta`, of which `known` is remembered.
pub open spec fn visited(
    known: Option<FileState>,
    next_id: nat,
    meta: FileMeta,
    terms: Terms,
) -> Visited {
    if terms.cutoff is Some && meta.mtime.earlier(terms.cutoff->0) {
        Visited { too_old: true, is_new: false, id: 0, reset: false, plan: None }
    } else {
        let id = match known {
            Some(f) => f.id,
            None => next_id as u32,
        };
        let reset = known is Some && meta.len < known->0.offset;
        let offset = if known is Some && !reset {
            known->0.offset
        } else {
            0
        };
        let changed = match known {
            Some(f) => meta.len != f.len || meta.mtime != f.mtime,
            None => meta.len != u64::MAX || meta.mtime != (Timestamp { secs: 0, nanos: 0 }),
        };
        let settled = quiet(terms.now, meta.mtime, terms.settle_after);
        Visited {
            too_old: false,
            is_new: known is None,
            id,
            reset,
            plan: if changed || (offset < meta.len && settled) {
                Some(ReadPlan { id, offset, settled })
            } else {
                None
            },
        }
    }
}

/// How many lines were of which kind.
pub struct Counts {
    pub added: nat,
    pub updated: nat,
    pub ignored: nat,
    pub malformed: nat,
}

/// No line so far.
pub open spec fn no_counts() -> Counts {
    Counts { added: 0, updated: 0, ignored: 0, malformed: 0 }
}

/// The text of a line, unless it is not UTF-8, and what it says if it has the shape of a
/// record.
pub type ReadLine = (Option<Seq<char>>, Option<RawRecord>);

/// What a line says; one that is not UTF-8 is malformed.
pub open spec fn line_says(line: ReadLine) -> Parsed {
    match line.0 {
        Some(text) => said(text, line.1),
        None => Parsed::Malformed,
    }
}

/// Lines with these texts, which read as these records.
pub open spec fn read_lines(
    texts: Seq<Option<Seq<char>>>,
    records: Seq<Option<RawRecord>>,
) -> Seq<ReadLine> {
    Seq::new(texts.len(), |i: int| (texts[i], records[i]))
}

/// The store and the counts after one line of `file`.
pub open spec fn after_line(
    state: (Seq<Entry>, Counts),
    line: ReadLine,
    file: u32,
) -> (Seq<Entry>, Counts) {
    let (entries, c) = state;
    match line_says(line) {
        Parsed::Usage(event) => (
            put(entries, Entry { event, file }),
            if has_id(entries, event.message_id) {
                Counts { updated: c.updated + 1, ..c }
            } else {
                Counts { added: c.added + 1, ..c }
            },
        ),
        Parsed::Ignored => (entries, Counts { ignored: c.ignored + 1, ..c }),
        Parsed::Malformed => (entries, Counts { malformed: c.malformed + 1, ..c }),
    }
}

/// The store and the counts after the lines of `file`, in order.
pub open spec fn after_lines(
    state: (Seq<Entry>, Counts),
    lines: Seq<ReadLine>,
    file: u32,
) -> (Seq<Entry>, Counts)
    decreases lines.len(),
{
    if lines.len() == 0 {
        state
    } else {
        after_line(after_lines(state, lines.drop_last(), file), lines.last(), file)
    }
}

/// The report with the counts of the lines of a file added.
pub open spec fn with_counts(r: ReportView, c: Counts) -> ReportView {
    ReportView {
        events_added: r.events_added + c.added,
        events_updated: r.events_updated + c.updated,
        lines_ignored: r.lines_ignored + c.ignored,
        lines_malformed: r.lines_malformed + c.malformed,
        ..r
    }
}

/// What a scanner knows in the course of a scan, and what it has to report so far.
#[verifier::ext_equal]
pub struct ScanState {
    /// What is remembered of each file, by path.
    pub known: Map<Seq<char>, FileState>,
    /// The id of the next new file.
    pub next_id: nat,
    /// The events read so far.
    pub entries: Seq<Entry>,
    pub report: ReportView,
}

impl ScanState {
    /// What is remembered of the file at `path`.
    pub open spec fn known_file(self, path: Seq<char>) -> Option<FileState> {
        if self.known.contains_key(path) {
            Some(self.known[path])
        } else {
            None
        }
    }

    /// What becomes of a visit to the file at `path`.
    pub open spec fn visit(self, path: Seq<char>, meta: FileMeta, terms: Terms) -> Visited {
        visited(self.known_file(path), self.next_id, meta, terms)
    }
}

/// One if it is so, and else zero.
pub open spec fn one_if(b: bool) -> nat {
    if b {
        1
    } else {
        0
    }
}

/// The state after a visit: a new file has an id, and what was read of a shrunk one is gone.
pub open spec fn after_visit(s: ScanState, v: Visited) -> ScanState {
    ScanState {
        next_id: s.next_id + one_if(v.is_new),
        entries: if v.reset {
            s.entries.filter(not_from(v.id))
        } else {
            s.entries
        },
        report: ReportView {
            files_skipped_old: s.report.files_skipped_old + one_if(v.too_old),
            files_reset: s.report.files_reset + one_if(v.reset),
            ..s.report
        },
        ..s
    }
}

/// What was read of a file.
pub struct Taken {
    /// How many bytes were read.
    pub bytes: nat,
    /// How many of them the lines take up.
    pub consumed: int,
    /// An incomplete line was left over.
    pub partial: bool,
    pub lines: Seq<ReadLine>,
}

/// The state after what was read of a file has been taken in.
pub open spec fn after_read(
    s: ScanState,
    path: Seq<char>,
    meta: FileMeta,
    plan: ReadPlan,
    taken: Taken,
) -> ScanState {
    let (entries, c) = after_lines((s.entries, no_counts()), taken.lines, plan.id);
    ScanState {
        known: s.known.insert(
            path,
            FileState {
                id: plan.id,
                len: meta.len,
                mtime: meta.mtime,
                offset: (plan.offset + taken.consumed) as u64,
            },
        ),
        entries,
        report: with_counts(
            ReportView {
                files_read: s.report.files_read + 1,
                bytes_read: s.report.bytes_read + taken.bytes,
                partial_lines: s.report.partial_lines + one_if(taken.partial),
                ..s.report
            },
            c,
        ),
        ..s
    }
}

/// The state after the end of a scan: events older than `cutoff` are gone.
pub open spec fn after_end(s: ScanState, cutoff: Option<Timestamp>) -> ScanState {
    match cutoff {
        Some(c) => {
            let kept = s.entries.filter(not_before(c));
            ScanState {
                entries: kept,
                report: ReportView {
                    events_pruned: (s.entries.len() - kept.len()) as nat,
                    ..s.report
                },
                ..s
            }
        },
        None => s,
    }
}

/// Reads the lines of transcript files into a store, each once.
pub struct Scanner {
    files: StringHashMap<FileState>,
    next_file_id: u32,
    store: UsageStore,
    retain: Option<Span>,
    settle_after: Duration,
}

impl Scanner {
    /// What is remembered of each file, by path.
    pub closed spec fn known(self) -> Map<Seq<char>, FileState> {
        self.files@
    }

    /// The id of the next new file.
    pub closed spec fn next_id(self) -> u32 {
        self.next_file_id
    }

    /// How far back events are kept, if not for ever.
    pub closed spec fn retention(self) -> Option<Span> {
        self.retain
    }

    /// How long a file must be quiet before its last line counts as final.
    pub closed spec fn settling(self) -> Duration {
        self.settle_after
    }

    /// The events read so far.
    pub closed spec fn entries(self) -> Seq<Entry> {
        self.store@
    }

    /// Ids in use lie below the next one, no two files share one, and no event comes from a
    /// file without one.
    pub closed spec fn wf(self) -> bool {
        &&& self.store.wf()
        &&& self.known().dom().finite()
        &&& forall|p: Seq<char>| #[trigger]
            self.known().contains_key(p) ==> self.known()[p].id < self.next_id()
        &&& forall|p: Seq<char>, q: Seq<char>|
            p != q && #[trigger] self.known().contains_key(p) && #[trigger] self.known().contains_key(
                q,
            ) ==> self.known()[p].id != self.known()[q].id
        &&& forall|i: int|
            0 <= i < self.store@.len() ==> (#[trigger] self.store@[i]).file < self.next_id()
        &&& self.retention() matches Some(d) ==> d.valid()
    }

    /// What is remembered of the file at `path`.
    pub open spec fn known_file(self, path: Seq<char>) -> Option<FileState> {
        if self.known().contains_key(path) {
            Some(self.known()[path])
        } else {
            None
        }
    }

    /// What the scanner knows, with the report so far.
    pub open spec fn state(self, report: ScanReport) -> ScanState {
        ScanState {
            known: self.known(),
            next_id: self.next_id() as nat,
            entries: self.entries(),
            report: report@,
        }
    }

    /// The rules by which the scanner looks at files at `now`.
    pub open spec fn terms(self, now: Timestamp, cutoff: Option<Timestamp>) -> Terms {
        Terms { now, cutoff, settle_after: self.settling() }
    }

    /// The id has been given out, to no file but the one at `path`.
    pub open spec fn owns(self, path: Seq<char>, id: u32) -> bool {
        &&& id < self.next_id()
        &&& forall|p: Seq<char>| #[trigger]
            self.known().contains_key(p) && self.known()[p].id == id ==> p == path
    }

    /// The moment before which events are dropped lies within the calendar.
    pub open spec fn retention_fits(self, now: Timestamp) -> bool {
        self.retention() matches Some(d) ==> second_in_range(shifted(now, -d.total()).0)
    }

    pub fn new() -> (s: Scanner)
        ensures
            s.wf(),
            s.known() == Map::<Seq<char>, FileState>::empty(),
            s.next_id() == 0,
            s.entries() == Seq::<Entry>::empty(),
            s.retention() is None,
            s.settling().nanos == 30_000_000_000,
    {
        Scanner {
            files: StringHashMap::new(),
            next_file_id: 0,
            store: UsageStore::new(),
            retain: None,
            settle_after: Duration::from_secs(30),
        }
    }

    /// Skip files not modified in the last `days` and prune older events.
    pub fn with_retention_days(self, days: i64) -> (s: Scanner)
        requires
            self.wf(),
            -MAX_SPAN_DAYS <= days <= MAX_SPAN_DAYS,
        ensures
            s.wf(),
            s.retention() is Some,
            s.retention()->0.total() == days * 86_400_000_000_000,
            s.known() == self.known(),
            s.next_id() == self.next_id(),
            s.entries() == self.entries(),
            s.settling() == self.settling(),
    {
        let mut s = self;
        s.retain = Some(Span::days(days));
        s
    }

    /// How long a file must be quiet before a newline-less tail is parsed as final.
    pub fn with_settle_after(self, d: Duration) -> (s: Scanner)
        requires
            self.wf(),
        ensures
            s.wf(),
            s.settling() == d,
            s.known() == self.known(),
            s.next_id() == self.next_id(),
            s.entries() == self.entries(),
            s.retention() == self.retention(),
    {
        let mut s = self;
        s.settle_after = d;
        s
    }

    /// The store of the events read so far.
    pub fn store(&self) -> (s: &UsageStore)
        requires
            self.wf(),
        ensures
            s.wf(),
            s@ == self.entries(),
    {
        &self.store
    }

    /// The number of files that have been read.
    pub fn tracked_files(&self) -> (n: usize)
        ensures
            n == self.known().len(),
    {
        self.files.len()
    }

    /// Whether a file can be visited: it is known, or an id is left for it.
    pub fn can_visit(&self, path: &str) -> (r: bool)
        ensures
            r == (self.known_file(path@) is Some || self.next_id() < u32::MAX),
    {
        self.files.contains_key(path) || self.next_file_id < u32::MAX
    }

    /// Whether [`Scanner::cutoff`] has an answer.
    pub fn has_cutoff(&self, now: Timestamp) -> (r: bool)
        requires
            self.wf(),
            now.valid(),
        ensures
            r == self.retention_fits(now),
    {
        match self.retain {
            Some(d) => checked_sub_signed(now, d).is_some(),
            None => true,
        }
    }

    /// The moment before which files are skipped and events dropped.
    pub fn cutoff(&self, now: Timestamp) -> (r: Option<Timestamp>)
        requires
            self.wf(),
            now.valid(),
            self.retention_fits(now),
        ensures
            r is Some <==> self.retention() is Some,
            r matches Some(t) ==> t == moved(now, -self.retention()->0.total()) && t.valid(),
    {
        match self.retain {
            Some(d) => checked_sub_signed(now, d),
            None => None,
        }
    }

    /// Decides what to read of the file at `path`, and drops what was read of it before if it
    /// has shrunk.
    pub fn visit(
        &mut self,
        path: &str,
        meta: FileMeta,
        now: Timestamp,
        cutoff: Option<Timestamp>,
        report: &mut ScanReport,
    ) -> (plan: Option<ReadPlan>)
        requires
            old(self).wf(),
            ({
                let v = old(self).state(*old(report)).visit(
                    path@,
                    meta,
                    old(self).terms(now, cutoff),
                );
                &&& v.is_new ==> old(self).next_id() < u32::MAX
                &&& v.too_old ==> old(report).files_skipped_old < usize::MAX
                &&& v.reset ==> old(report).files_reset < usize::MAX
            }),
        ensures
            final(self).wf(),
            ({
                let s = old(self).state(*old(report));
                let v = s.visit(path@, meta, old(self).terms(now, cutoff));
                &&& plan == v.plan
                &&& final(self).state(*final(report)) == after_visit(s, v)
            }),
            plan matches Some(p) ==> final(self).owns(path@, p.id),
            final(self).retention() == old(self).retention(),
            final(self).settling() == old(self).settling(),
    {
        if let Some(c) = cutoff {
            if meta.mtime.is_before(c) {
                report.files_skipped_old += 1;
                return None;
            }
        }
        let settled = is_quiet(now, meta.mtime, self.settle_after);
        let known = match self.files.get(path) {
            Some(f) => Some(*f),
            None => None,
        };
        let (id, mut offset, changed) = match known {
            Some(f) => (f.id, f.offset, meta.len != f.len || meta.mtime != f.mtime),
            None => {
                let id: u32 = self.next_file_id;
                self.next_file_id += 1;
                (id, 0, meta.len != u64::MAX || meta.mtime != (Timestamp { secs: 0, nanos: 0 }))
            },
        };
        if meta.len < offset {
            let ghost entries = self.store@;
            self.store.remove_file(id);
            proof {
                lemma_filter_files(entries, not_from(id), self.next_file_id);
            }
            offset = 0;
            report.files_reset += 1;
        }
        let pending_tail = offset < meta.len;
        if changed || (pending_tail && settled) {
            Some(ReadPlan { id, offset, settled })
        } else {
            None
        }
    }
}

impl Scanner {
    /// Takes in what was read of a file: the framed lines, and for each of them what it says
    /// if it has the shape of a record.
    pub fn absorb(
        &mut self,
        path: &str,
        meta: FileMeta,
        plan: ReadPlan,
        bytes: u64,
        framed: &Framed,
        records: Vec<Option<RawRecord>>,
        report: &mut ScanReport,
    )
        requires
            old(self).wf(),
            old(self).owns(path@, plan.id),
            records@.len() == framed.lines@.len(),
            old(report).has_room(records@.len() as int + 1),
            old(report).bytes_read + bytes <= u64::MAX,
            plan.offset + framed.consumed <= u64::MAX,
        ensures
            final(self).wf(),
            final(self).state(*final(report)) == after_read(
                old(self).state(*old(report)),
                path@,
                meta,
                plan,
                (Taken {
                    bytes: bytes as nat,
                    consumed: framed.consumed as int,
                    partial: framed.partial,
                    lines: read_lines(text_views(framed.lines@), records@),
                }),
            ),
            final(self).retention() == old(self).retention(),
            final(self).settling() == old(self).settling(),
    {
        report.files_read += 1;
        report.bytes_read += bytes;
        if framed.partial {
            report.partial_lines += 1;
        }
        let ghost lines = read_lines(text_views(framed.lines@), records@);
        take_lines(&framed.lines, records, plan.id, &mut self.store, report);
        proof {
            lemma_after_lines_files(
                (old(self).entries(), no_counts()),
                lines,
                plan.id,
                self.next_file_id,
            );
        }
        self.files.insert(
            path.to_owned(),
            FileState {
                id: plan.id,
                len: meta.len,
                mtime: meta.mtime,
                offset: plan.offset + framed.consumed as u64,
            },
        );
    }

    /// Ends a scan: drops the events older than `cutoff`.
    pub fn finish(&mut self, cutoff: Option<Timestamp>, report: &mut ScanReport)
        requires
            old(self).wf(),
        ensures
            final(self).wf(),
            final(self).state(*final(report)) == after_end(old(self).state(*old(report)), cutoff),
            final(self).retention() == old(self).retention(),
            final(self).settling() == old(self).settling(),
    {
        if let Some(c) = cutoff {
            report.events_pruned = self.store.prune_before(c);
            proof {
                old(self).entries().lemma_filter_len(not_before(c));
                lemma_filter_files(old(self).entries(), not_before(c), self.next_file_id);
            }
        }
    }
}

/// Puts the usage of each line into the store and counts the lines.
fn take_lines(
    texts: &Vec<Option<String>>,
    records: Vec<Option<RawRecord>>,
    file: u32,
    store: &mut UsageStore,
    report: &mut ScanReport,
)
    requires
        old(store).wf(),
        records@.len() == texts@.len(),
        old(report).has_room(records@.len() as int),
    ensures
        final(store).wf(),
        ({
            let (entries, c) = after_lines(
                (old(store)@, no_counts()),
                read_lines(text_views(texts@), records@),
                file,
            );
            &&& final(store)@ == entries
            &&& final(report)@ == with_counts(old(report)@, c)
        }),
{
    let ghost said_by = records@;
    let ghost all = read_lines(text_views(texts@), records@);
    let ghost start = (old(store)@, no_counts());
    assert(all.take(0) =~= Seq::<ReadLine>::empty());
    let mut i: usize = 0;
    for record in it: records
        invariant
            it.seq() == said_by,
            said_by.len() == texts@.len(),
            all == read_lines(text_views(texts@), said_by),
            i == it.index(),
            store.wf(),
            start == (old(store)@, no_counts()),
            old(report).has_room(all.len() as int),
            ({
                let (entries, c) = after_lines(start, all.take(i as int), file);
                &&& store@ == entries
                &&& c.added + c.updated + c.ignored + c.malformed == i
                &&& report@ == with_counts(old(report)@, c)
            }),
    {
        assert(all.take(i + 1).drop_last() =~= all.take(i as int));
        assert(all.take(i + 1).last() == (text_views(texts@)[i as int], record));
        let parsed = match &texts[i] {
            Some(t) => parse_line(t.as_str(), record),
            None => ParsedLine::Malformed,
        };
        match parsed {
            ParsedLine::Usage(ev) => match store.upsert(ev, file) {
                Upsert::Added => report.events_added += 1,
                Upsert::Updated => report.events_updated += 1,
            },
            ParsedLine::Ignored => report.lines_ignored += 1,
            ParsedLine::Malformed => report.lines_malformed += 1,
        }
        i += 1;
    }
    assert(all.take(all.len() as int) =~= all);
}

proof fn lemma_after_lines_files(
    state: (Seq<Entry>, Counts),
    lines: Seq<ReadLine>,
    file: u32,
    bound: u32,
)
    requires
        file < bound,
        forall|i: int| 0 <= i < state.0.len() ==> (#[trigger] state.0[i]).file < bound,
    ensures
        forall|i: int|
            0 <= i < after_lines(state, lines, file).0.len() ==> (#[trigger] after_lines(
                state,
                lines,
                file,
            ).0[i]).file < bound,
    decreases lines.len(),
{
    if lines.len() > 0 {
        lemma_after_lines_files(state, lines.drop_last(), file, bound);
        let before = after_lines(state, lines.drop_last(), file).0;
        let after = after_lines(state, lines, file).0;
        assert forall|i: int| 0 <= i < after.len() implies (#[trigger] after[i]).file < bound by {
            if let Parsed::Usage(event) = line_says(lines.last()) {
                let e = Entry { event, file };
                assert(after == put(before, e));
                if has_id(before, event.message_id) {
                    assert(crate::store::is_at(
                        before,
                        event.message_id,
                        crate::store::position(before, event.message_id),
                    ));
                }
                assert(after[i] == e || after[i] == before[i]);
            }
        }
    }
}

fn is_quiet(now: Timestamp, mtime: Timestamp, settle_after: Duration) -> (r: bool)
    ensures
        r == quiet(now, mtime, settle_after),
{
    let a: i128 = now.secs as i128 * 1_000_000_000 + now.nanos as i128;
    let b: i128 = mtime.secs as i128 * 1_000_000_000 + mtime.nanos as i128;
    a >= b && (a - b) as u128 >= settle_after.nanos
}

proof fn lemma_filter_files(entries: Seq<Entry>, keep: spec_fn(Entry) -> bool, bound: u32)
    requires
        forall|i: int| 0 <= i < entries.len() ==> (#[trigger] entries[i]).file < bound,
    ensures
        forall|i: int|
            0 <= i < entries.filter(keep).len() ==> (#[trigger] entries.filter(keep)[i]).file
                < bound,
    decreases entries.len(),
{
    reveal(Seq::filter);
    if entries.len() > 0 {
        let rest = entries.drop_last();
        lemma_filter_files(rest, keep, bound);
        assert forall|i: int| 0 <= i < entries.filter(keep).len() implies (
        #[trigger] entries.filter(keep)[i]).file < bound by {
            if i < rest.filter(keep).len() {
                assert(entries.filter(keep)[i] == rest.filter(keep)[i]);
            } else {
                assert(entries.filter(keep)[i] == entries.last());
            }
        }
    }
}

/// Whether a file of this name is a transcript: its extension is `jsonl`.
pub fn is_transcript(name: &str) -> (r: bool)
    ensures
        r == (ends_with(name@, ".jsonl"@) && name@.len() > 6),
{
    let chars = chars_of(name);
    let suffix = chars_of(".jsonl");
    proof {
        reveal_strlit(".jsonl");
    }
    if chars.len() <= 6 {
        return false;
    }
    let size: usize = chars.len();
    let start: usize = size - 6;
    let mut i: usize = 0;
    while i < 6
        invariant
            i <= 6,
            size == chars@.len(),
            chars@ == name@,
            suffix@ == ".jsonl"@,
            suffix@.len() == 6,
            size > 6,
            start == size - 6,
            forall|k: int| 0 <= k < i ==> chars@[start + k] == suffix@[k],
        decreases 6 - i,
    {
        if chars[start + i] != suffix[i] {
            assert(chars@.skip(start as int)[i as int] != suffix@[i as int]);
            return false;
        }
        i += 1;
    }
    assert(chars@.skip(start as int) =~= suffix@);
    true
}

/// The entries of the lines that carry usage.
pub open spec fn usage_entries(lines: Seq<ReadLine>, file: u32) -> Seq<Entry>
    decreases lines.len(),
{
    if lines.len() == 0 {
        Seq::empty()
    } else {
        match line_says(lines.last()) {
            Parsed::Usage(event) => usage_entries(lines.drop_last(), file).push(
                Entry { event, file },
            ),
            _ => usage_entries(lines.drop_last(), file),
        }
    }
}

/// Reading lines is putting their usage into the store, in order; with
/// [`last_record_wins`](crate::store::last_record_wins), the last line for a message decides.
pub proof fn lines_are_put_in_order(
    state: (Seq<Entry>, Counts),
    lines: Seq<ReadLine>,
    file: u32,
)
    ensures
        after_lines(state, lines, file).0 == put_all(state.0, usage_entries(lines, file)),
    decreases lines.len(),
{
    if lines.len() > 0 {
        lines_are_put_in_order(state, lines.drop_last(), file);
        let rest = usage_entries(lines.drop_last(), file);
        if let Parsed::Usage(event) = line_says(lines.last()) {
            assert(rest.push(Entry { event, file }).drop_last() =~= rest);
        }
    }
}

/// Reading lines in two steps is reading them in one.
pub proof fn reading_in_two_steps(
    state: (Seq<Entry>, Counts),
    first: Seq<ReadLine>,
    second: Seq<ReadLine>,
    file: u32,
)
    ensures
        after_lines(after_lines(state, first, file), second, file) == after_lines(
            state,
            first + second,
            file,
        ),
    decreases second.len(),
{
    if second.len() > 0 {
        reading_in_two_steps(state, first, second.drop_last(), file);
        assert((first + second).drop_last() =~= first + second.drop_last());
        assert((first + second).last() == second.last());
    } else {
        assert(first + second =~= first);
    }
}

proof fn lemma_texts_concat(x: Seq<Seq<u8>>, y: Seq<Seq<u8>>)
    ensures
        texts(x + y) == texts(x) + texts(y),
    decreases y.len(),
{
    if y.len() > 0 {
        lemma_texts_concat(x, y.drop_last());
        assert((x + y).drop_last() =~= x + y.drop_last());
        assert((x + y).last() == y.last());
        let line = trim_line(y.last());
        if line.len() > 0 {
            assert(texts(x) + texts(y.drop_last()).push(line_text(line)) =~= (texts(x) + texts(
                y.drop_last(),
            )).push(line_text(line)));
        }
    } else {
        assert(x + y =~= x);
        assert(texts(x) + texts(y) =~= texts(x));
    }
}

proof fn lemma_complete_len_bound(buf: Seq<u8>)
    ensures
        0 <= complete_len(buf) <= buf.len(),
    decreases buf.len(),
{
    let n = first_newline(buf);
    if first_newline_at(buf, n) {
        lemma_complete_len_bound(buf.skip(n + 1));
    }
}

proof fn lemma_complete_append(a: Seq<u8>, b: Seq<u8>)
    ensures
        0 <= complete_len(a) <= a.len(),
        complete_lines(a + b) == complete_lines(a) + complete_lines(a.skip(complete_len(a)) + b),
        complete_len(a + b) == complete_len(a) + complete_len(a.skip(complete_len(a)) + b),
    decreases a.len(),
{
    lemma_complete_len_bound(a);
    let n = first_newline(a);
    if first_newline_at(a, n) {
        assert(first_newline_at(a + b, n)) by {
            assert forall|k: int| 0 <= k < n implies (a + b)[k] != 0x0A by {
                assert((a + b)[k] == a[k]);
            }
        }
        lemma_first_newline(a + b, n);
        let rest = a.skip(n + 1);
        assert((a + b).take(n) =~= a.take(n));
        assert((a + b).skip(n + 1) =~= rest + b);
        lemma_complete_append(rest, b);
        assert(a.skip(complete_len(a)) =~= rest.skip(complete_len(rest)));
        assert(complete_lines(a + b) =~= complete_lines(a) + complete_lines(
            a.skip(complete_len(a)) + b,
        ));
    } else {
        assert(a.skip(0) =~= a);
        assert(complete_lines(a) + complete_lines(a + b) =~= complete_lines(a + b));
    }
}

/// A file that grows is read piece by piece as if it had been read whole: what an unsettled
/// scan of `a` leaves over, with the bytes `b` appended since, holds just the lines of `a + b`
/// that were not read yet.
pub proof fn appended_bytes_are_read_once(a: Seq<u8>, b: Seq<u8>, settled: bool)
    ensures
        ({
            let left = a.skip(complete_len(a)) + b;
            &&& texts(due_lines(a + b, settled)) == texts(due_lines(a, false)) + texts(
                due_lines(left, settled),
            )
            &&& complete_len(a + b) == complete_len(a) + complete_len(left)
        }),
{
    lemma_complete_append(a, b);
    let left = a.skip(complete_len(a)) + b;
    lemma_complete_len_bound(left);
    assert((a + b).skip(complete_len(a + b)) =~= left.skip(complete_len(left)));
    assert(due_lines(a + b, settled) =~= due_lines(a, false) + due_lines(left, settled));
    lemma_texts_concat(due_lines(a, false), due_lines(left, settled));
}

/// The lines of a buffer that are to be read now, where `read` gives what a text says that has
/// the shape of a record.
pub open spec fn lines_in(
    buf: Seq<u8>,
    settled: bool,
    read: spec_fn(Seq<char>) -> Option<RawRecord>,
) -> Seq<ReadLine> {
    texts(due_lines(buf, settled)).map_values(
        |text: Option<Seq<char>>|
            (
                text,
                match text {
                    Some(t) => read(t),
                    None => None,
                },
            ),
    )
}

/// Scanning a file, and again after bytes were appended, stores and counts what one scan of
/// the whole file does, however its lines read as records.
pub proof fn incremental_scan_equals_full_scan(
    state: (Seq<Entry>, Counts),
    a: Seq<u8>,
    b: Seq<u8>,
    settled: bool,
    file: u32,
    read: spec_fn(Seq<char>) -> Option<RawRecord>,
)
    ensures
        ({
            let left = a.skip(complete_len(a)) + b;
            after_lines(
                after_lines(state, lines_in(a, false, read), file),
                lines_in(left, settled, read),
                file,
            ) == after_lines(state, lines_in(a + b, settled, read), file)
        }),
{
    appended_bytes_are_read_once(a, b, settled);
    let left = a.skip(complete_len(a)) + b;
    let first = lines_in(a, false, read);
    let second = lines_in(left, settled, read);
    assert(lines_in(a + b, settled, read) =~= first + second);
    reading_in_two_steps(state, first, second, file);
}

/// Cutting blanks off a line takes nothing but blanks, from its two ends; it takes them all,
/// and a second time changes nothing more.
pub proof fn only_blanks_are_cut(line: Seq<u8>)
    ensures
        exists|i: int, j: int|
            #![trigger line.subrange(i, j)]
            0 <= i <= j <= line.len() && trim_line(line) == line.subrange(i, j) && (forall|k: int|
                0 <= k < i || j <= k < line.len() ==> blank(#[trigger] line[k])),
        trim_line(line).len() > 0 ==> !blank(trim_line(line)[0]) && !blank(trim_line(line).last()),
        trim_line(line).len() == 0 <==> forall|k: int|
            0 <= k < line.len() ==> blank(#[trigger] line[k]),
        trim_line(trim_line(line)) == trim_line(line),
{
    let front = trim_front(line);
    let i = lemma_trim_front(line);
    let n = lemma_trim_back(front);
    let cut = trim_line(line);
    assert(cut == front.take(n));
    assert(cut =~= line.subrange(i, i + n));
    assert forall|k: int| 0 <= k < i || i + n <= k < line.len() implies blank(
        #[trigger] line[k],
    ) by {
        if k >= i + n {
            assert(front[k - i] == line[k]);
        }
    }
    if cut.len() > 0 {
        assert(cut[0] == front[0]);
        assert(!blank(cut[0]) && !blank(cut.last()));
        assert(line[i] == cut[0]);
        assert(trim_front(cut) == cut);
        assert(trim_back(cut) == cut);
    } else {
        assert(n == 0);
        assert(cut =~= Seq::<u8>::empty());
    }
}

proof fn lemma_trim_front(line: Seq<u8>) -> (i: int)
    ensures
        0 <= i <= line.len(),
        trim_front(line) == line.skip(i),
        forall|k: int| 0 <= k < i ==> blank(#[trigger] line[k]),
        trim_front(line).len() > 0 ==> !blank(trim_front(line)[0]),
    decreases line.len(),
{
    if line.len() > 0 && blank(line[0]) {
        let rest = line.skip(1);
        let i = lemma_trim_front(rest);
        assert(rest.skip(i) =~= line.skip(i + 1));
        assert forall|k: int| 0 <= k < i + 1 implies blank(#[trigger] line[k]) by {
            if k > 0 {
                assert(rest[k - 1] == line[k]);
            }
        }
        i + 1
    } else {
        assert(line.skip(0) =~= line);
        0
    }
}

proof fn lemma_trim_back(line: Seq<u8>) -> (n: int)
    ensures
        0 <= n <= line.len(),
        trim_back(line) == line.take(n),
        forall|k: int| n <= k < line.len() ==> blank(#[trigger] line[k]),
        n > 0 ==> !blank(line[n - 1]),
    decreases line.len(),
{
    if line.len() > 0 && blank(line.last()) {
        let rest = line.drop_last();
        let n = lemma_trim_back(rest);
        assert(rest.take(n) =~= line.take(n));
        assert forall|k: int| n <= k < line.len() implies blank(#[trigger] line[k]) by {
            if k < rest.len() {
                assert(rest[k] == line[k]);
            }
        }
        n
    } else {
        assert(line.take(line.len() as int) =~= line);
        line.len() as int
    }
}

/// A file whose length and modification time are as remembered is not read again, unless it
/// has settled with a line still to be read at its end.
pub proof fn unchanged_file_is_not_read_again(f: FileState, next_id: nat, terms: Terms)
    requires
        f.offset <= f.len,
    ensures
        ({
            let v = visited(
                Some(f),
                next_id,
                FileMeta { len: f.len, mtime: f.mtime },
                terms,
            );
            &&& !v.reset
            &&& v.plan is Some <==> !v.too_old && f.offset < f.len && quiet(
                terms.now,
                f.mtime,
                terms.settle_after,
            )
        }),
{
}

/// Once a settled file has been read to its end, it is not read again until it changes.
pub proof fn settled_tail_is_read_once(
    plan: ReadPlan,
    meta: FileMeta,
    buf: Seq<u8>,
    next_id: nat,
    terms: Terms,
)
    requires
        plan.settled,
        plan.offset + buf.len() == meta.len,
    ensures
        ({
            let f = FileState {
                id: plan.id,
                len: meta.len,
                mtime: meta.mtime,
                offset: (plan.offset + buf.len()) as u64,
            };
            visited(Some(f), next_id, meta, terms).plan is None
        }),
{
}

/// A file that shrank below what was read of it is read again from its start.
pub proof fn shrunk_file_is_read_from_the_start(
    f: FileState,
    next_id: nat,
    meta: FileMeta,
    terms: Terms,
)
    requires
        f.offset <= f.len,
        meta.len < f.offset,
        !(terms.cutoff is Some && meta.mtime.earlier(terms.cutoff->0)),
    ensures
        ({
            let v = visited(Some(f), next_id, meta, terms);
            v.reset && v.plan is Some && v.plan->0.offset == 0 && v.plan->0.id == f.id
        }),
{
}

/// A file that grew is read on from where the last scan stopped.
pub proof fn grown_file_is_read_from_its_offset(
    f: FileState,
    next_id: nat,
    meta: FileMeta,
    terms: Terms,
)
    requires
        f.offset <= f.len < meta.len,
        !(terms.cutoff is Some && meta.mtime.earlier(terms.cutoff->0)),
    ensures
        ({
            let v = visited(Some(f), next_id, meta, terms);
            !v.reset && v.plan is Some && v.plan->0.offset == f.offset && v.plan->0.id == f.id
        }),
{
}

/// A file as a scan finds it.
pub struct FileFound {
    pub path: Seq<char>,
    pub mtime: Timestamp,
    pub bytes: Seq<u8>,
}

impl FileFound {
    pub open spec fn meta(self) -> FileMeta {
        FileMeta { len: self.bytes.len() as u64, mtime: self.mtime }
    }

    /// What is read of the file by plan.
    pub open spec fn part(self, plan: ReadPlan) -> Seq<u8> {
        if plan.offset < self.bytes.len() {
            self.bytes.skip(plan.offset as int)
        } else {
            Seq::empty()
        }
    }

    /// What reading the file by plan comes to.
    pub open spec fn taken(
        self,
        plan: ReadPlan,
        read: spec_fn(Seq<char>) -> Option<RawRecord>,
    ) -> Taken {
        let buf = self.part(plan);
        Taken {
            bytes: buf.len(),
            consumed: consumed_of(buf, plan.settled),
            partial: partial_of(buf, plan.settled),
            lines: lines_in(buf, plan.settled, read),
        }
    }
}

/// The state after one file: it is visited, and read as far as that asks for.
pub open spec fn scan_file(
    s: ScanState,
    f: FileFound,
    terms: Terms,
    read: spec_fn(Seq<char>) -> Option<RawRecord>,
) -> ScanState {
    let v = s.visit(f.path, f.meta(), terms);
    match v.plan {
        Some(plan) => after_read(after_visit(s, v), f.path, f.meta(), plan, f.taken(plan, read)),
        None => after_visit(s, v),
    }
}

/// The state after a list of files, one after another.
pub open spec fn scan_files(
    s: ScanState,
    files: Seq<FileFound>,
    terms: Terms,
    read: spec_fn(Seq<char>) -> Option<RawRecord>,
) -> ScanState
    decreases files.len(),
{
    if files.len() == 0 {
        s
    } else {
        scan_file(scan_files(s, files.drop_last(), terms, read), files.last(), terms, read)
    }
}

/// The state with the report of a scan that begins and finds so many files.
pub open spec fn scan_begun(s: ScanState, files: nat) -> ScanState {
    ScanState { report: report_begun(files), ..s }
}

/// A whole scan of the files below the root.
pub open spec fn whole_scan(
    s: ScanState,
    files: Seq<FileFound>,
    terms: Terms,
    read: spec_fn(Seq<char>) -> Option<RawRecord>,
) -> ScanState {
    after_end(scan_files(scan_begun(s, files.len()), files, terms, read), terms.cutoff)
}

/// The file is as it is remembered, and no line at its end has become final.
pub open spec fn is_unchanged(
    known: Map<Seq<char>, FileState>,
    f: FileFound,
    terms: Terms,
) -> bool {
    &&& known.contains_key(f.path)
    &&& known[f.path].len == f.meta().len
    &&& known[f.path].mtime == f.mtime
    &&& known[f.path].offset <= f.meta().len
    &&& known[f.path].offset < f.meta().len ==> !quiet(terms.now, f.mtime, terms.settle_after)
}

proof fn lemma_unchanged_files(
    s: ScanState,
    files: Seq<FileFound>,
    terms: Terms,
    read: spec_fn(Seq<char>) -> Option<RawRecord>,
)
    requires
        terms.cutoff is None,
        forall|i: int| 0 <= i < files.len() ==> is_unchanged(s.known, #[trigger] files[i], terms),
    ensures
        scan_files(s, files, terms, read) == s,
    decreases files.len(),
{
    if files.len() > 0 {
        let rest = files.drop_last();
        assert forall|i: int| 0 <= i < rest.len() implies is_unchanged(
            s.known,
            #[trigger] rest[i],
            terms,
        ) by {
            assert(rest[i] == files[i]);
        }
        lemma_unchanged_files(s, rest, terms, read);
        let f = files[files.len() - 1];
        assert(is_unchanged(s.known, f, terms));
        let v = s.visit(f.path, f.meta(), terms);
        assert(v.plan is None && !v.reset && !v.is_new && !v.too_old);
        assert(after_visit(s, v) =~= s);
    }
}

/// A scan of files that have not changed reads nothing and changes nothing: all it reports is
/// how many files it saw.
pub proof fn scan_of_unchanged_files_reads_nothing(
    s: ScanState,
    files: Seq<FileFound>,
    terms: Terms,
    read: spec_fn(Seq<char>) -> Option<RawRecord>,
)
    requires
        terms.cutoff is None,
        forall|i: int| 0 <= i < files.len() ==> is_unchanged(s.known, #[trigger] files[i], terms),
    ensures
        whole_scan(s, files, terms, read) == scan_begun(s, files.len()),
{
    lemma_unchanged_files(scan_begun(s, files.len()), files, terms, read);
}

/// No two files have the same path.
pub open spec fn distinct_paths(files: Seq<FileFound>) -> bool {
    forall|i: int, j: int|
        0 <= i < j < files.len() ==> (#[trigger] files[i]).path != (#[trigger] files[j]).path
}

/// No more has been read of a file than it held.
pub open spec fn is_sound(known: Map<Seq<char>, FileState>) -> bool {
    forall|p: Seq<char>| #[trigger] known.contains_key(p) ==> known[p].offset <= known[p].len
}

/// The file is remembered as it is.
pub open spec fn is_known(known: Map<Seq<char>, FileState>, f: FileFound) -> bool {
    &&& known.contains_key(f.path)
    &&& known[f.path].len == f.meta().len
    &&& known[f.path].mtime == f.mtime
}

proof fn lemma_consumed(buf: Seq<u8>, settled: bool)
    ensures
        0 <= consumed_of(buf, settled) <= buf.len(),
{
    lemma_complete_len_bound(buf);
}

proof fn lemma_scanned_file_is_known(
    s: ScanState,
    f: FileFound,
    terms: Terms,
    read: spec_fn(Seq<char>) -> Option<RawRecord>,
)
    requires
        terms.cutoff is None,
        is_sound(s.known),
        f.bytes.len() < u64::MAX,
    ensures
        ({
            let after = scan_file(s, f, terms, read);
            &&& is_sound(after.known)
            &&& is_known(after.known, f)
            &&& forall|p: Seq<char>|
                p != f.path ==> (#[trigger] after.known.contains_key(p) <==> s.known.contains_key(
                    p,
                )) && after.known[p] == s.known[p]
        }),
{
    let v = s.visit(f.path, f.meta(), terms);
    if let Some(plan) = v.plan {
        lemma_consumed(f.part(plan), plan.settled);
        assert(plan.offset <= f.bytes.len());
    }
}

/// After a scan its files are remembered as they are.
proof fn lemma_scanned_files_are_known(
    s: ScanState,
    files: Seq<FileFound>,
    terms: Terms,
    read: spec_fn(Seq<char>) -> Option<RawRecord>,
)
    requires
        terms.cutoff is None,
        is_sound(s.known),
        distinct_paths(files),
        forall|i: int| 0 <= i < files.len() ==> (#[trigger] files[i]).bytes.len() < u64::MAX,
    ensures
        is_sound(scan_files(s, files, terms, read).known),
        forall|i: int|
            0 <= i < files.len() ==> is_known(
                scan_files(s, files, terms, read).known,
                #[trigger] files[i],
            ),
    decreases files.len(),
{
    if files.len() > 0 {
        let rest = files.drop_last();
        let f = files.last();
        assert forall|i: int, j: int| 0 <= i < j < rest.len() implies (#[trigger] rest[i]).path != (
        #[trigger] rest[j]).path by {
            assert(files[i].path != files[j].path);
        }
        assert forall|i: int| 0 <= i < rest.len() implies (#[trigger] rest[i]).bytes.len()
            < u64::MAX by {
            assert(rest[i] == files[i]);
        }
        lemma_scanned_files_are_known(s, rest, terms, read);
        let before = scan_files(s, rest, terms, read);
        assert(files[files.len() - 1].bytes.len() < u64::MAX);
        lemma_scanned_file_is_known(before, f, terms, read);
        let after = scan_files(s, files, terms, read);
        assert forall|i: int| 0 <= i < files.len() implies is_known(
            after.known,
            #[trigger] files[i],
        ) by {
            if i < rest.len() {
                assert(rest[i] == files[i]);
                assert(is_known(before.known, rest[i]));
                assert(files[i].path != files[files.len() - 1].path);
                assert(after.known.contains_key(files[i].path));
            }
        }
    }
}

/// A scan that follows on another, with the same files, reads nothing and changes nothing,
/// unless a line that was left at the end of a file has become final since.
pub proof fn second_scan_reads_nothing(
    s: ScanState,
    files: Seq<FileFound>,
    first: Terms,
    second: Terms,
    read: spec_fn(Seq<char>) -> Option<RawRecord>,
)
    requires
        first.cutoff is None,
        second.cutoff is None,
        is_sound(s.known),
        distinct_paths(files),
        forall|i: int| 0 <= i < files.len() ==> (#[trigger] files[i]).bytes.len() < u64::MAX,
        ({
            let known = whole_scan(s, files, first, read).known;
            forall|i: int|
                0 <= i < files.len() && known[(#[trigger] files[i]).path].offset
                    < files[i].bytes.len() ==> !quiet(
                    second.now,
                    files[i].mtime,
                    second.settle_after,
                )
        }),
    ensures
        ({
            let after = whole_scan(s, files, first, read);
            whole_scan(after, files, second, read) == scan_begun(after, files.len())
        }),
{
    lemma_scanned_files_are_known(scan_begun(s, files.len()), files, first, read);
    let after = whole_scan(s, files, first, read);
    assert forall|i: int| 0 <= i < files.len() implies is_unchanged(
        after.known,
        #[trigger] files[i],
        second,
    ) by {
        assert(is_known(after.known, files[i]));
        assert(after.known.contains_key(files[i].path));
    }
    scan_of_unchanged_files_reads_nothing(after, files, second, read);
}

proof fn lemma_counts_do_not_matter(
    entries: Seq<Entry>,
    a: Counts,
    b: Counts,
    lines: Seq<ReadLine>,
    file: u32,
)
    ensures
        after_lines((entries, a), lines, file).0 == after_lines((entries, b), lines, file).0,
    decreases lines.len(),
{
    if lines.len() > 0 {
        lemma_counts_do_not_matter(entries, a, b, lines.drop_last(), file);
    }
}

/// Scanning a new file, and again after bytes were appended to it, leaves the scanner as one
/// scan of the grown file does, unless the first scan took an unfinished last line for final.
/// The second scan reads only what follows the last line that the first one read.
pub proof fn rescanning_a_grown_file_equals_one_scan(
    s: ScanState,
    f: FileFound,
    appended: Seq<u8>,
    mtime: Timestamp,
    first: Terms,
    second: Terms,
    read: spec_fn(Seq<char>) -> Option<RawRecord>,
)
    requires
        first.cutoff is None,
        second.cutoff is None,
        !s.known.contains_key(f.path),
        appended.len() > 0,
        f.bytes.len() + appended.len() < u64::MAX,
        quiet(first.now, f.mtime, first.settle_after) ==> complete_len(f.bytes) == f.bytes.len(),
    ensures
        ({
            let grown = FileFound { mtime, bytes: f.bytes + appended, ..f };
            let twice = whole_scan(whole_scan(s, seq![f], first, read), seq![grown], second, read);
            let once = whole_scan(s, seq![grown], second, read);
            &&& twice.known == once.known
            &&& twice.next_id == once.next_id
            &&& twice.entries == once.entries
            &&& twice.report.bytes_read == grown.bytes.len() - complete_len(f.bytes)
        }),
{
    reveal_with_fuel(scan_files, 2);
    let grown = FileFound { mtime, bytes: f.bytes + appended, ..f };
    assert(seq![f].drop_last() =~= Seq::<FileFound>::empty());
    assert(seq![grown].drop_last() =~= Seq::<FileFound>::empty());
    let id = s.next_id as u32;
    let settled = quiet(second.now, mtime, second.settle_after);
    let read_first = quiet(first.now, f.mtime, first.settle_after);
    let a = f.bytes;
    let left = a.skip(complete_len(a)) + appended;
    lemma_complete_len_bound(a);
    lemma_complete_len_bound(left);

    let begun = scan_begun(s, 1);
    let plan = ReadPlan { id, offset: 0, settled: read_first };
    assert(begun.visit(f.path, f.meta(), first).plan == Some(plan));
    assert(f.part(plan) =~= a);
    assert(due_lines(a, read_first) == due_lines(a, false));
    let middle = whole_scan(s, seq![f], first, read);
    assert(middle == scan_file(begun, f, first, read));
    assert(middle.known[f.path].offset == complete_len(a));

    let again = ReadPlan { id, offset: complete_len(a) as u64, settled };
    assert(scan_begun(middle, 1).visit(f.path, grown.meta(), second).plan == Some(again));
    assert(grown.part(again) =~= left);

    let whole = ReadPlan { id, offset: 0, settled };
    assert(begun.visit(f.path, grown.meta(), second).plan == Some(whole));
    assert(grown.part(whole) =~= a + appended);

    appended_bytes_are_read_once(a, appended, settled);
    assert(consumed_of(a + appended, settled) == complete_len(a) + consumed_of(left, settled));
    incremental_scan_equals_full_scan(
        (s.entries, no_counts()),
        a,
        appended,
        settled,
        id,
        read,
    );
    let (entries, counts) = after_lines((s.entries, no_counts()), lines_in(a, false, read), id);
    lemma_counts_do_not_matter(
        entries,
        counts,
        no_counts(),
        lines_in(left, settled, read),
        id,
    );
    let twice = whole_scan(middle, seq![grown], second, read);
    let once = whole_scan(s, seq![grown], second, read);
    assert(twice.known =~= once.known);
}

/// The file has shrunk below what was read of it.
pub open spec fn is_shrunk(known: Map<Seq<char>, FileState>, f: FileFound) -> bool {
    &&& known.contains_key(f.path)
    &&& f.bytes.len() < known[f.path].offset <= known[f.path].len
}

/// The state after a scan in which `f` is the only file that has changed, having shrunk.
pub open spec fn after_shrinking(
    s: ScanState,
    f: FileFound,
    settled: bool,
    read: spec_fn(Seq<char>) -> Option<RawRecord>,
) -> ScanState {
    let id = s.known[f.path].id;
    let forgotten = ScanState {
        entries: s.entries.filter(not_from(id)),
        report: ReportView { files_reset: s.report.files_reset + 1, ..s.report },
        ..s
    };
    let plan = ReadPlan { id, offset: 0, settled };
    after_read(forgotten, f.path, f.meta(), plan, f.taken(plan, read))
}

proof fn lemma_one_file_shrank(
    s: ScanState,
    files: Seq<FileFound>,
    at: int,
    terms: Terms,
    read: spec_fn(Seq<char>) -> Option<RawRecord>,
)
    requires
        terms.cutoff is None,
        distinct_paths(files),
        0 <= at < files.len(),
        is_shrunk(s.known, files[at]),
        forall|i: int|
            0 <= i < files.len() && i != at ==> is_unchanged(s.known, #[trigger] files[i], terms),
    ensures
        scan_files(s, files, terms, read) == after_shrinking(
            s,
            files[at],
            quiet(terms.now, files[at].mtime, terms.settle_after),
            read,
        ),
    decreases files.len(),
{
    let rest = files.drop_last();
    let last = files.len() - 1;
    if at == last {
        assert forall|i: int| 0 <= i < rest.len() implies is_unchanged(
            s.known,
            #[trigger] rest[i],
            terms,
        ) by {
            assert(is_unchanged(s.known, files[i], terms));
        }
        lemma_unchanged_files(s, rest, terms, read);
        let f = files[at];
        let v = s.visit(f.path, f.meta(), terms);
        assert(v.reset && v.plan is Some && v.plan->0.offset == 0);
        assert(after_visit(s, v).report == (ReportView {
            files_reset: s.report.files_reset + 1,
            ..s.report
        }));
    } else {
        assert forall|i: int, j: int| 0 <= i < j < rest.len() implies (#[trigger] rest[i]).path != (
        #[trigger] rest[j]).path by {
            assert(files[i].path != files[j].path);
        }
        assert(rest[at] == files[at]);
        assert forall|i: int| 0 <= i < rest.len() && i != at implies is_unchanged(
            s.known,
            #[trigger] rest[i],
            terms,
        ) by {
            assert(is_unchanged(s.known, files[i], terms));
        }
        lemma_one_file_shrank(s, rest, at, terms, read);
        let before = scan_files(s, rest, terms, read);
        let f = files[last];
        assert(is_unchanged(s.known, f, terms));
        assert(files[at].path != f.path);
        let v = before.visit(f.path, f.meta(), terms);
        assert(v.plan is None && !v.reset && !v.is_new && !v.too_old);
        assert(after_visit(before, v) =~= before);
    }
}

/// After a scan in which one file has shrunk below what was read of it, and the others are
/// unchanged, that file alone was reset and read, from its start. The store holds the last
/// record of each message in it and, of the events for other messages, those that did not come
/// from it, unchanged.
pub proof fn shrunk_file_is_rescanned(
    s: ScanState,
    files: Seq<FileFound>,
    at: int,
    terms: Terms,
    read: spec_fn(Seq<char>) -> Option<RawRecord>,
    message: Seq<char>,
)
    requires
        terms.cutoff is None,
        distinct_ids(s.entries),
        distinct_paths(files),
        0 <= at < files.len(),
        is_shrunk(s.known, files[at]),
        forall|i: int|
            0 <= i < files.len() && i != at ==> is_unchanged(s.known, #[trigger] files[i], terms),
    ensures
        ({
            let after = whole_scan(s, files, terms, read);
            let f = files[at];
            let id = s.known[f.path].id;
            let settled = quiet(terms.now, f.mtime, terms.settle_after);
            let new = last_for(usage_entries(lines_in(f.bytes, settled, read), id), message);
            let earlier = by_id(s.entries);
            let stays = earlier.contains_key(message) && earlier[message].file != id;
            &&& after.report.files_reset == 1
            &&& after.report.files_read == 1
            &&& after.report.bytes_read == f.bytes.len()
            &&& after.known[f.path].offset == consumed_of(f.bytes, settled)
            &&& by_id(after.entries).contains_key(message) <==> new is Some || stays
            &&& new is Some ==> by_id(after.entries)[message] == new->0
            &&& new is None && stays ==> by_id(after.entries)[message] == earlier[message]
        }),
{
    let begun = scan_begun(s, files.len());
    lemma_one_file_shrank(begun, files, at, terms, read);
    let f = files[at];
    let id = s.known[f.path].id;
    let settled = quiet(terms.now, f.mtime, terms.settle_after);
    assert(f.part(ReadPlan { id, offset: 0, settled }) =~= f.bytes);
    lemma_consumed(f.bytes, settled);
    let kept = s.entries.filter(not_from(id));
    let lines = lines_in(f.bytes, settled, read);
    lines_are_put_in_order((kept, no_counts()), lines, id);
    filter_keeps_the_rest(s.entries, not_from(id));
    last_record_wins(kept, usage_entries(lines, id), message);
    assert(by_id(kept).contains_key(message) <==> by_id(s.entries).contains_key(message)
        && not_from(id)(by_id(s.entries)[message]));
}

/// Lines, each with a newline behind it.
pub open spec fn with_newlines(lines: Seq<Seq<u8>>) -> Seq<u8>
    decreases lines.len(),
{
    if lines.len() == 0 {
        Seq::empty()
    } else {
        lines[0] + seq![0x0Au8] + with_newlines(lines.skip(1))
    }
}

/// The complete lines with their newlines make up the buffer, but for an unfinished line behind
/// the last newline. No line is left out, cut or joined to another, however long it is.
pub proof fn complete_lines_make_up_the_buffer(buf: Seq<u8>)
    ensures
        0 <= complete_len(buf) <= buf.len(),
        with_newlines(complete_lines(buf)) == buf.take(complete_len(buf)),
        forall|i: int, k: int|
            0 <= i < complete_lines(buf).len() && 0 <= k < complete_lines(buf)[i].len()
                ==> #[trigger] complete_lines(buf)[i][k] != 0x0A,
        forall|k: int| complete_len(buf) <= k < buf.len() ==> #[trigger] buf[k] != 0x0A,
    decreases buf.len(),
{
    let n = first_newline(buf);
    if first_newline_at(buf, n) {
        let rest = buf.skip(n + 1);
        complete_lines_make_up_the_buffer(rest);
        let lines = complete_lines(buf);
        assert(lines.skip(1) =~= complete_lines(rest));
        assert(lines[0] == buf.take(n));
        assert(with_newlines(lines) =~= buf.take(complete_len(buf)));
        assert forall|i: int, k: int| 0 <= i < lines.len() && 0 <= k < lines[i].len() implies
            #[trigger] lines[i][k] != 0x0A by {
            if i > 0 {
                assert(lines[i] == complete_lines(rest)[i - 1]);
                assert(complete_lines(rest)[i - 1][k] != 0x0A);
            }
        }
        assert forall|k: int| complete_len(buf) <= k < buf.len() implies #[trigger] buf[k]
            != 0x0A by {
            assert(rest[k - n - 1] == buf[k]);
        }
    } else {
        assert forall|k: int| 0 <= k < buf.len() implies #[trigger] buf[k] != 0x0A by {
            if buf[k] == 0x0A {
                let m = lemma_a_newline_comes_first(buf, k);
                assert(first_newline_at(buf, m));
            }
        }
        assert(buf.take(0) =~= Seq::<u8>::empty());
    }
}

proof fn lemma_a_newline_comes_first(buf: Seq<u8>, at: int) -> (n: int)
    requires
        0 <= at < buf.len(),
        buf[at] == 0x0A,
    ensures
        first_newline_at(buf, n),
    decreases at,
{
    if forall|k: int| 0 <= k < at ==> buf[k] != 0x0A {
        at
    } else {
        let k = choose|k: int| 0 <= k < at && buf[k] == 0x0A;
        lemma_a_newline_comes_first(buf, k)
    }
}

/// All complete lines are due. What follows the last newline is due as one more line once the
/// file has settled, and only then; the bytes of all due lines count as consumed.
pub proof fn which_lines_are_due(buf: Seq<u8>)
    ensures
        due_lines(buf, false) == complete_lines(buf),
        consumed_of(buf, false) == complete_len(buf),
        consumed_of(buf, true) == buf.len(),
        complete_len(buf) == buf.len() ==> due_lines(buf, true) == complete_lines(buf),
        complete_len(buf) < buf.len() ==> due_lines(buf, true) == complete_lines(buf).push(
            buf.skip(complete_len(buf)),
        ),
        !partial_of(buf, true),
        partial_of(buf, false) <==> buf.len() > 0 && buf.last() != 0x0A,
{
    complete_lines_make_up_the_buffer(buf);
    let lines = complete_lines(buf);
    if complete_len(buf) == buf.len() && buf.len() > 0 {
        assert(buf.take(buf.len() as int) =~= buf);
        lemma_newline_at_the_end(lines);
    } else if complete_len(buf) < buf.len() {
        assert(buf[buf.len() - 1] != 0x0A);
    }
}

proof fn lemma_newline_at_the_end(lines: Seq<Seq<u8>>)
    ensures
        with_newlines(lines).len() > 0 ==> with_newlines(lines).last() == 0x0A,
    decreases lines.len(),
{
    if lines.len() > 0 {
        lemma_newline_at_the_end(lines.skip(1));
    }
}

/// The bytes that count as blank are space, tab, line feed, form feed and carriage return.
pub proof fn blank_bytes(b: u8)
    ensures
        blank(b) <==> b == 32 || b == 9 || b == 10 || b == 12 || b == 13,
{
}

/// The line holds a byte that is not blank.
pub open spec fn has_ink() -> spec_fn(Seq<u8>) -> bool {
    |line: Seq<u8>|
        exists|k: int|
            0 <= k < line.len() && #[trigger] line[k] != 32 && line[k] != 9 && line[k] != 10
                && line[k] != 12 && line[k] != 13
}

/// Cutting the blanks around a line leaves what stands between them.
pub proof fn what_stands_between_blanks_is_kept(
    before: Seq<u8>,
    middle: Seq<u8>,
    after: Seq<u8>,
)
    requires
        forall|i: int|
            0 <= i < before.len() ==> #[trigger] before[i] == 32 || before[i] == 9 || before[i] == 10
                || before[i] == 12 || before[i] == 13,
        forall|i: int|
            0 <= i < after.len() ==> #[trigger] after[i] == 32 || after[i] == 9 || after[i] == 10
                || after[i] == 12 || after[i] == 13,
        middle.len() > 0,
        has_ink()(seq![middle[0]]),
        has_ink()(seq![middle.last()]),
    ensures
        trim_line(before + middle + after) == middle,
{
    let line = before + middle + after;
    assert(seq![middle[0]][0] == middle[0]);
    assert(seq![middle.last()][0] == middle.last());
    only_blanks_are_cut(line);
    let (i, j) = choose|i: int, j: int|
        #![trigger line.subrange(i, j)]
        0 <= i <= j <= line.len() && trim_line(line) == line.subrange(i, j) && (forall|k: int|
            0 <= k < i || j <= k < line.len() ==> blank(#[trigger] line[k]));
    let a = before.len() as int;
    let b = (before.len() + middle.len()) as int;
    assert(line[a] == middle[0] && line[b - 1] == middle.last());
    assert(!blank(line[a]) && !blank(line[b - 1]));
    assert(i <= a && b <= j);
    let cut = trim_line(line);
    assert(cut[0] == line[i] && cut.last() == line[j - 1]);
    if i < a {
        assert(line[i] == before[i]);
        assert(blank(line[i]));
    }
    if b < j {
        assert(line[j - 1] == after[j - 1 - b]);
        assert(blank(line[j - 1]));
    }
    assert(cut =~= middle);
}

/// Of a list of lines just those are read that have a byte which is not blank, all of them and in
/// order, whatever their length. The text of each is the decoding of its bytes without the blanks
/// around them, and there is none where these are not UTF-8.
pub proof fn every_line_with_ink_is_read(lines: Seq<Seq<u8>>)
    ensures
        texts(lines).len() == lines.filter(has_ink()).len(),
        forall|i: int|
            #![trigger texts(lines)[i]]
            0 <= i < texts(lines).len() ==> {
                let bytes = trim_line(lines.filter(has_ink())[i]);
                &&& valid_utf8(bytes) ==> texts(lines)[i] == Some(decode_utf8(bytes))
                &&& !valid_utf8(bytes) ==> texts(lines)[i] is None
            },
    decreases lines.len(),
{
    reveal(Seq::filter);
    if lines.len() > 0 {
        let rest = lines.drop_last();
        let line = lines.last();
        every_line_with_ink_is_read(rest);
        only_blanks_are_cut(line);
        if has_ink()(line) {
            let k = choose|k: int|
                0 <= k < line.len() && #[trigger] line[k] != 32 && line[k] != 9 && line[k] != 10
                    && line[k] != 12 && line[k] != 13;
            assert(!blank(line[k]));
        } else {
            assert forall|k: int| 0 <= k < line.len() implies blank(#[trigger] line[k]) by {
            }
        }
    }
}

/// Two buffers that differ only in the length of a line differ only in the text of that line: a
/// line of any length, complete and not blank, is read as one text.
pub proof fn one_line_gives_one_text(line: Seq<u8>, settled: bool)
    requires
        forall|k: int| 0 <= k < line.len() ==> line[k] != 0x0A,
        has_ink()(line),
    ensures
        texts(due_lines(line.push(0x0A), settled)).len() == 1,
        valid_utf8(trim_line(line)) ==> texts(due_lines(line.push(0x0A), settled))[0] == Some(
            decode_utf8(trim_line(line)),
        ),
        consumed_of(line.push(0x0A), settled) == line.len() + 1,
{
    let buf = line.push(0x0A);
    lemma_first_newline(buf, line.len() as int);
    assert(first_newline_at(buf, line.len() as int));
    let rest = buf.skip(line.len() as int + 1);
    assert(!first_newline_at(rest, first_newline(rest)));
    assert(complete_lines(rest) =~= Seq::empty());
    assert(buf.take(line.len() as int) =~= line);
    assert(complete_lines(buf) =~= seq![line]);
    assert(complete_len(rest) == 0);
    assert(first_newline(buf) == line.len());
    assert(complete_len(buf) == line.len() + 1 + complete_len(buf.skip(first_newline(buf) + 1)));
    assert(buf.skip(complete_len(buf)).len() == 0);
    let lines = due_lines(buf, settled);
    assert(lines =~= seq![line]);
    every_line_with_ink_is_read(lines);
    reveal(Seq::filter);
    assert(lines.drop_last() =~= Seq::empty());
    assert(lines.filter(has_ink()) =~= seq![line]);
    assert(texts(lines)[0] == texts(lines)[0]);
}

/// A report stands for just what its fields hold, and one that has begun counts nothing but the
/// files that it was told of.
pub proof fn reports_are_taken_as_they_are(r: ScanReport, files: nat)
    ensures
        r@.root_exists == r.root_exists,
        r@.files_seen == r.files_seen,
        r@.files_read == r.files_read,
        r@.files_skipped_old == r.files_skipped_old,
        r@.files_reset == r.files_reset,
        r@.bytes_read == r.bytes_read,
        r@.events_added == r.events_added,
        r@.events_updated == r.events_updated,
        r@.lines_ignored == r.lines_ignored,
        r@.lines_malformed == r.lines_malformed,
        r@.partial_lines == r.partial_lines,
        r@.events_pruned == r.events_pruned,
        ({
            let b = report_begun(files);
            &&& b.root_exists && b.files_seen == files
            &&& b.files_read + b.files_skipped_old + b.files_reset + b.bytes_read + b.events_added
                + b.events_updated + b.lines_ignored + b.lines_malformed + b.partial_lines
                + b.events_pruned == 0
            &&& !no_report().root_exists
            &&& no_report() == (ReportView { root_exists: false, files_seen: 0, ..b })
        }),
{
}

/// A file has settled when at least `settle_after` has passed since it was written.
pub proof fn when_files_settle(now: Timestamp, mtime: Timestamp, settle_after: Duration)
    ensures
        quiet(now, mtime, settle_after) <==> {
            let passed = (now.secs - mtime.secs) * 1_000_000_000 + now.nanos - mtime.nanos;
            passed >= 0 && passed >= settle_after.nanos
        },
{
    assert(now.secs * 1_000_000_000 - mtime.secs * 1_000_000_000 == (now.secs - mtime.secs)
        * 1_000_000_000);
}

/// What becomes of a visit: a file that was written before the cutoff is skipped. Any other is
/// read, from where the last reading ended, if its length or its time has changed, or if it has
/// settled with bytes left over; one that is shorter than what was read of it is read from its
/// start, and what was read of it is void. A new file is read from its start under a new id.
pub proof fn what_becomes_of_a_visit(
    known: Option<FileState>,
    next_id: nat,
    meta: FileMeta,
    terms: Terms,
)
    requires
        meta.len < u64::MAX,
        next_id <= u32::MAX,
    ensures
        ({
            let v = visited(known, next_id, meta, terms);
            let old_file = terms.cutoff matches Some(c) && (meta.mtime.secs < c.secs || (
            meta.mtime.secs == c.secs && meta.mtime.nanos < c.nanos));
            let settled = quiet(terms.now, meta.mtime, terms.settle_after);
            &&& v.too_old <==> old_file
            &&& old_file ==> v.plan is None && !v.is_new && !v.reset
            &&& !old_file && known is None ==> v.is_new && !v.reset && v.id == next_id && v.plan
                == Some(ReadPlan { id: next_id as u32, offset: 0, settled })
            &&& !old_file && known is Some ==> {
                let f = known->0;
                &&& !v.is_new && v.id == f.id
                &&& v.reset <==> meta.len < f.offset
                &&& v.plan is Some <==> meta.len != f.len || meta.mtime != f.mtime || (settled && (
                f.offset < meta.len || (meta.len < f.offset && meta.len > 0)))
                &&& v.plan matches Some(p) ==> p.id == f.id && p.settled == settled && p.offset
                    == if meta.len < f.offset {
                    0
                } else {
                    f.offset
                }
            }
        }),
{
}

/// Each line that is read counts once, as an event that is new or one that replaces another, as
/// ignored or as malformed. Only events change the store.
pub proof fn every_line_counts_once(
    state: (Seq<Entry>, Counts),
    line: ReadLine,
    file: u32,
)
    ensures
        ({
            let (entries, c) = after_line(state, line, file);
            let says = if line.0 is Some {
                said(line.0->0, line.1)
            } else {
                Parsed::Malformed
            };
            let known = exists|i: int|
                0 <= i < state.0.len() && says is Usage && (
                #[trigger] state.0[i]).event.message_id == says->Usage_0.message_id;
            &&& c.added == state.1.added + one_if(says is Usage && !known)
            &&& c.updated == state.1.updated + one_if(known)
            &&& c.ignored == state.1.ignored + one_if(says is Ignored)
            &&& c.malformed == state.1.malformed + one_if(says is Malformed)
            &&& !(says is Usage) ==> entries == state.0
            &&& says is Usage ==> entries == put(state.0, Entry { event: says->Usage_0, file })
        }),
{
    let says = line_says(line);
    if let Parsed::Usage(event) = says {
        if has_id(state.0, event.message_id) {
            let i = choose|i: int| is_at(state.0, event.message_id, i);
            assert(is_at(state.0, event.message_id, i));
            assert(state.0[i].event.message_id == event.message_id);
        }
        if exists|i: int|
            0 <= i < state.0.len() && (#[trigger] state.0[i]).event.message_id
                == event.message_id {
            let i = choose|i: int|
                0 <= i < state.0.len() && (#[trigger] state.0[i]).event.message_id
                    == event.message_id;
            assert(is_at(state.0, event.message_id, i));
        }
    }
}

/// The counts after a number of lines add up to that number, and there are just as many new
/// events as the store has grown by.
pub proof fn counts_add_up_to_the_lines(
    state: (Seq<Entry>, Counts),
    lines: Seq<ReadLine>,
    file: u32,
)
    ensures
        ({
            let (entries, c) = after_lines(state, lines, file);
            let b = state.1;
            &&& c.added + c.updated + c.ignored + c.malformed == b.added + b.updated + b.ignored
                + b.malformed + lines.len()
            &&& c.added - b.added == entries.len() - state.0.len()
        }),
    decreases lines.len(),
{
    if lines.len() > 0 {
        counts_add_up_to_the_lines(state, lines.drop_last(), file);
        every_line_counts_once(after_lines(state, lines.drop_last(), file), lines.last(), file);
    }
}

/// A list of lines is taken in line after line.
pub proof fn lines_are_taken_in_order(
    state: (Seq<Entry>, Counts),
    lines: Seq<ReadLine>,
    line: ReadLine,
    file: u32,
)
    ensures
        after_lines(state, Seq::empty(), file) == state,
        after_lines(state, lines.push(line), file) == after_line(
            after_lines(state, lines, file),
            line,
            file,
        ),
{
    assert(lines.push(line).drop_last() =~= lines);
}

/// Each text goes with the record at its own place.
pub proof fn texts_go_with_their_records(
    texts: Seq<Option<Seq<char>>>,
    records: Seq<Option<RawRecord>>,
    i: int,
)
    requires
        0 <= i < texts.len(),
    ensures
        read_lines(texts, records).len() == texts.len(),
        read_lines(texts, records)[i].0 == texts[i],
        read_lines(texts, records)[i].1 == records[i],
{
}

/// A visit counts what becomes of it. It changes nothing that was read but of a file that has
/// shrunk, whose events are all dropped and no others.
pub proof fn what_a_visit_changes(s: ScanState, v: Visited, e: Entry)
    ensures
        ({
            let t = after_visit(s, v);
            &&& t.known == s.known
            &&& t.next_id == s.next_id + one_if(v.is_new)
            &&& !v.reset ==> t.entries == s.entries
            &&& v.reset ==> (t.entries.contains(e) <==> s.entries.contains(e) && e.file != v.id)
            &&& t.report == (ReportView {
                files_skipped_old: s.report.files_skipped_old + one_if(v.too_old),
                files_reset: s.report.files_reset + one_if(v.reset),
                ..s.report
            })
        }),
{
    broadcast use vstd::seq_lib::group_filter_ensures;

    if v.reset {
        let kept = s.entries.filter(not_from(v.id));
        if kept.contains(e) {
            let i = choose|i: int| 0 <= i < kept.len() && kept[i] == e;
            assert(not_from(v.id)(kept[i]));
            s.entries.lemma_filter_contains_rev(not_from(v.id), e);
        }
        if s.entries.contains(e) && e.file != v.id {
            let i = choose|i: int| 0 <= i < s.entries.len() && s.entries[i] == e;
            s.entries.lemma_filter_contains(not_from(v.id), i);
        }
    }
}

/// What was read of a file is taken in once: its lines go to the store and the counts, and the
/// file is remembered with its id, its length and time, and the place where the next reading
/// begins. Nothing is changed of any other file.
pub proof fn what_reading_changes(
    s: ScanState,
    path: Seq<char>,
    meta: FileMeta,
    plan: ReadPlan,
    taken: Taken,
    other: Seq<char>,
)
    requires
        0 <= plan.offset + taken.consumed <= u64::MAX,
    ensures
        ({
            let t = after_read(s, path, meta, plan, taken);
            let (entries, c) = after_lines((s.entries, no_counts()), taken.lines, plan.id);
            &&& t.entries == entries
            &&& t.next_id == s.next_id
            &&& t.known.contains_key(path)
            &&& t.known[path].id == plan.id
            &&& t.known[path].len == meta.len
            &&& t.known[path].mtime == meta.mtime
            &&& t.known[path].offset == plan.offset + taken.consumed
            &&& other != path ==> t.known.contains_key(other) == s.known.contains_key(other)
                && t.known[other] == s.known[other]
            &&& t.report.files_read == s.report.files_read + 1
            &&& t.report.bytes_read == s.report.bytes_read + taken.bytes
            &&& t.report.partial_lines == s.report.partial_lines + one_if(taken.partial)
            &&& t.report.events_added == s.report.events_added + c.added
            &&& t.report.events_updated == s.report.events_updated + c.updated
            &&& t.report.lines_ignored == s.report.lines_ignored + c.ignored
            &&& t.report.lines_malformed == s.report.lines_malformed + c.malformed
            &&& t.report.root_exists == s.report.root_exists
            &&& t.report.files_seen == s.report.files_seen
            &&& t.report.files_skipped_old == s.report.files_skipped_old
            &&& t.report.files_reset == s.report.files_reset
            &&& t.report.events_pruned == s.report.events_pruned
            &&& no_counts().added + no_counts().updated + no_counts().ignored
                + no_counts().malformed == 0
        }),
{
}

/// At the end of a scan just the events before the cutoff are dropped, and counted; without a
/// cutoff none.
pub proof fn what_the_end_changes(s: ScanState, cutoff: Option<Timestamp>, e: Entry)
    ensures
        ({
            let t = after_end(s, cutoff);
            &&& t.known == s.known
            &&& t.next_id == s.next_id
            &&& cutoff is None ==> t == s
            &&& cutoff matches Some(c) ==> {
                let dropped = e.event.timestamp.secs < c.secs || (e.event.timestamp.secs == c.secs
                    && e.event.timestamp.nanos < c.nanos);
                &&& t.entries.contains(e) <==> s.entries.contains(e) && !dropped
                &&& t.entries.len() + t.report.events_pruned == s.entries.len()
                &&& t.report == (ReportView {
                    events_pruned: t.report.events_pruned,
                    ..s.report
                })
            }
        }),
{
    broadcast use vstd::seq_lib::group_filter_ensures;

    if let Some(c) = cutoff {
        let kept = s.entries.filter(not_before(c));
        s.entries.lemma_filter_len(not_before(c));
        if kept.contains(e) {
            let i = choose|i: int| 0 <= i < kept.len() && kept[i] == e;
            assert(not_before(c)(kept[i]));
            s.entries.lemma_filter_contains_rev(not_before(c), e);
        }
        if s.entries.contains(e) && not_before(c)(e) {
            let i = choose|i: int| 0 <= i < s.entries.len() && s.entries[i] == e;
            s.entries.lemma_filter_contains(not_before(c), i);
        }
    }
}

/// A file is looked up under its own path.
pub proof fn files_are_known_by_path(s: ScanState, path: Seq<char>, meta: FileMeta, terms: Terms)
    ensures
        s.known.contains_key(path) ==> s.visit(path, meta, terms) == visited(
            Some(s.known[path]),
            s.next_id,
            meta,
            terms,
        ),
        !s.known.contains_key(path) ==> s.visit(path, meta, terms) == visited(
            None,
            s.next_id,
            meta,
            terms,
        ),
{
}

/// What a line says is what its text and its record say; one that is not UTF-8 is malformed.
pub proof fn what_lines_say(text: Seq<char>, record: Option<RawRecord>)
    ensures
        line_says((Some(text), record)) == said(text, record),
        line_says((None, record)) is Malformed,
{
}

/// A file owns an id that has been given out, if no other file has it.
pub proof fn which_ids_are_owned(s: Scanner, path: Seq<char>, id: u32, other: Seq<char>)
    ensures
        s.owns(path, id) ==> id < s.next_id(),
        s.owns(path, id) && s.known().contains_key(other) && other != path ==> s.known()[other].id
            != id,
        id < s.next_id() && (forall|p: Seq<char>| #[trigger]
            s.known().contains_key(p) && p != path ==> s.known()[p].id != id) ==> s.owns(path, id),
{
}

/// A scanner remembers a file under its path, and no other.
pub proof fn what_is_remembered_of_a_file(s: Scanner, path: Seq<char>)
    ensures
        s.known().contains_key(path) ==> s.known_file(path) == Some(s.known()[path]),
        !s.known().contains_key(path) ==> s.known_file(path) is None,
{
}

} // verus!
