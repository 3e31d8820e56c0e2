//! Token counts and usage events.

use vstd::prelude::*;

use crate::time::Timestamp;

verus! {

/// Token counts from one API response's `message.usage` object.
///
/// `output` already counts thinking tokens; `thinking` is only the
/// `output_tokens_details.thinking_tokens` detail when present.
/// `cache_creation` is the total cache write; the `_5m` / `_1h` fields are the
/// breakdown from `usage.cache_creation` when present.
#[derive(Debug, Clone, Copy, PartialEq, Eq, Structural)]
pub struct TokenUsage {
    pub input: u64,
    pub output: u64,
    pub cache_creation: u64,
    pub cache_creation_5m: u64,
    pub cache_creation_1h: u64,
    pub cache_read: u64,
    pub thinking: u64,
}

/// Token counts of any size: what [`TokenUsage`] and sums of it stand for.
pub struct Tally {
    pub input: nat,
    pub output: nat,
    pub cache_creation: nat,
    pub cache_creation_5m: nat,
    pub cache_creation_1h: nat,
    pub cache_read: nat,
    pub thinking: nat,
}

impl Tally {
    /// No tokens.
    pub open spec fn zero() -> Tally {
        Tally {
            input: 0,
            output: 0,
            cache_creation: 0,
            cache_creation_5m: 0,
            cache_creation_1h: 0,
            cache_read: 0,
            thinking: 0,
        }
    }

    /// The counts of both, field by field.
    pub open spec fn plus(self, other: Tally) -> Tally {
        Tally {
            input: self.input + other.input,
            output: self.output + other.output,
            cache_creation: self.cache_creation + other.cache_creation,
            cache_creation_5m: self.cache_creation_5m + other.cache_creation_5m,
            cache_creation_1h: self.cache_creation_1h + other.cache_creation_1h,
            cache_read: self.cache_read + other.cache_read,
            thinking: self.thinking + other.thinking,
        }
    }

    /// Fresh input, output, cache writes and cache reads together.
    pub open spec fn total(self) -> nat {
        self.input + self.output + self.cache_creation + self.cache_read
    }

    /// Every count fits a [`TokenUsage`].
    pub open spec fn storable(self) -> bool {
        &&& self.input <= u64::MAX
        &&& self.output <= u64::MAX
        &&& self.cache_creation <= u64::MAX
        &&& self.cache_creation_5m <= u64::MAX
        &&& self.cache_creation_1h <= u64::MAX
        &&& self.cache_read <= u64::MAX
        &&& self.thinking <= u64::MAX
    }

    /// Every count, the total and the cache-write breakdown fit 64 bits.
    pub open spec fn fits(self) -> bool {
        &&& self.storable()
        &&& self.total() <= u64::MAX
        &&& self.cache_creation_5m + self.cache_creation_1h <= u64::MAX
    }
}

impl View for TokenUsage {
    type V = Tally;

    open spec fn view(&self) -> Tally {
        Tally {
            input: self.input as nat,
            output: self.output as nat,
            cache_creation: self.cache_creation as nat,
            cache_creation_5m: self.cache_creation_5m as nat,
            cache_creation_1h: self.cache_creation_1h as nat,
            cache_read: self.cache_read as nat,
            thinking: self.thinking as nat,
        }
    }
}

impl Default for TokenUsage {
    fn default() -> (u: TokenUsage)
        ensures
            u@ == Tally::zero(),
            u.input == 0 && u.output == 0 && u.cache_read == 0 && u.thinking == 0,
            u.cache_creation == 0 && u.cache_creation_5m == 0 && u.cache_creation_1h == 0,
    {
        TokenUsage {
            input: 0,
            output: 0,
            cache_creation: 0,
            cache_creation_5m: 0,
            cache_creation_1h: 0,
            cache_read: 0,
            thinking: 0,
        }
    }
}

impl TokenUsage {
    /// All tokens that were processed: fresh input + cache writes + cache reads + output.
    pub fn total(&self) -> (n: u64)
        requires
            self@.total() <= u64::MAX,
        ensures
            n == self@.total(),
            n == self.input + self.output + self.cache_creation + self.cache_read,
    {
        self.input + self.output + self.cache_creation + self.cache_read
    }

    /// Adds the counts of `other` to these.
    pub fn add(&mut self, other: &TokenUsage)
        requires
            old(self)@.plus(other@).storable(),
        ensures
            final(self)@ == old(self)@.plus(other@),
            final(self).input == old(self).input + other.input,
            final(self).output == old(self).output + other.output,
            final(self).cache_creation == old(self).cache_creation + other.cache_creation,
            final(self).cache_creation_5m == old(self).cache_creation_5m
                + other.cache_creation_5m,
            final(self).cache_creation_1h == old(self).cache_creation_1h
                + other.cache_creation_1h,
            final(self).cache_read == old(self).cache_read + other.cache_read,
            final(self).thinking == old(self).thinking + other.thinking,
    {
        self.input += other.input;
        self.output += other.output;
        self.cache_creation += other.cache_creation;
        self.cache_creation_5m += other.cache_creation_5m;
        self.cache_creation_1h += other.cache_creation_1h;
        self.cache_read += other.cache_read;
        self.thinking += other.thinking;
    }
}

/// One API response, extracted from an `assistant` transcript record.
#[derive(Debug, Clone, PartialEq, Eq)]
pub struct UsageEvent {
    /// `message.id` (the API `msg_…` id). Several transcript records share one id.
    pub message_id: String,
    pub session_id: String,
    pub timestamp: Timestamp,
    /// Raw `message.model` string as it stands in the transcript.
    pub model: String,
    pub usage: TokenUsage,
    /// `isSidechain` — true for subagent traffic.
    pub is_sidechain: bool,
    /// `usage.speed == "fast"` (fast mode is priced differently).
    pub fast: bool,
}

/// What a [`UsageEvent`] says.
#[verifier::ext_equal]
pub struct Event {
    pub message_id: Seq<char>,
    pub session: Seq<char>,
    pub timestamp: Timestamp,
    pub model: Seq<char>,
    pub usage: TokenUsage,
    pub is_sidechain: bool,
    pub fast: bool,
}

impl View for UsageEvent {
    type V = Event;

    open spec fn view(&self) -> Event {
        Event {
            message_id: self.message_id@,
            session: self.session_id@,
            timestamp: self.timestamp,
            model: self.model@,
            usage: self.usage,
            is_sidechain: self.is_sidechain,
            fast: self.fast,
        }
    }
}

/// Token counts stand for just the numbers that they hold.
pub proof fn counts_are_taken_as_they_are(u: TokenUsage)
    ensures
        u@.input == u.input,
        u@.output == u.output,
        u@.cache_creation == u.cache_creation,
        u@.cache_creation_5m == u.cache_creation_5m,
        u@.cache_creation_1h == u.cache_creation_1h,
        u@.cache_read == u.cache_read,
        u@.thinking == u.thinking,
{
}

/// Sums are taken kind by kind: no kind of token ever counts as another.
pub proof fn kinds_are_summed_apart(a: Tally, b: Tally)
    ensures
        a.plus(b).input == a.input + b.input,
        a.plus(b).output == a.output + b.output,
        a.plus(b).cache_creation == a.cache_creation + b.cache_creation,
        a.plus(b).cache_creation_5m == a.cache_creation_5m + b.cache_creation_5m,
        a.plus(b).cache_creation_1h == a.cache_creation_1h + b.cache_creation_1h,
        a.plus(b).cache_read == a.cache_read + b.cache_read,
        a.plus(b).thinking == a.thinking + b.thinking,
        a.plus(Tally::zero()) == a,
        a.plus(b) == b.plus(a),
{
}

/// Each processed token counts once in the total. Thinking tokens are part of the output, and
/// the breakdown of cache writes part of these, so neither adds to it.
pub proof fn total_counts_each_token_once(a: Tally, b: Tally, n: nat)
    ensures
        Tally::zero().total() == 0,
        a.plus(b).total() == a.total() + b.total(),
        (Tally { input: a.input + n, ..a }).total() == a.total() + n,
        (Tally { output: a.output + n, ..a }).total() == a.total() + n,
        (Tally { cache_creation: a.cache_creation + n, ..a }).total() == a.total() + n,
        (Tally { cache_read: a.cache_read + n, ..a }).total() == a.total() + n,
        (Tally { cache_creation_5m: n, ..a }).total() == a.total(),
        (Tally { cache_creation_1h: n, ..a }).total() == a.total(),
        (Tally { thinking: n, ..a }).total() == a.total(),
{
}

/// Counts fit exactly when each of them, their total and the breakdown of cache writes do.
pub proof fn fitting_counts(t: Tally)
    ensures
        t.storable() <==> t.input <= u64::MAX && t.output <= u64::MAX && t.cache_creation
            <= u64::MAX && t.cache_creation_5m <= u64::MAX && t.cache_creation_1h <= u64::MAX
            && t.cache_read <= u64::MAX && t.thinking <= u64::MAX,
        t.fits() <==> t.storable() && t.input + t.output + t.cache_creation + t.cache_read
            <= u64::MAX && t.cache_creation_5m + t.cache_creation_1h <= u64::MAX,
{
}

/// An event stands for just what its fields hold.
pub proof fn events_are_taken_as_they_are(ev: UsageEvent)
    ensures
        ev@.message_id == ev.message_id@,
        ev@.session == ev.session_id@,
        ev@.timestamp == ev.timestamp,
        ev@.model == ev.model@,
        ev@.usage == ev.usage,
        ev@.is_sidechain == ev.is_sidechain,
        ev@.fast == ev.fast,
{
}

} // verus!
