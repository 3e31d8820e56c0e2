//! The rate-limit snapshot written by the statusline hook.
//!
//! The hook writes `captured_at` (epoch seconds) next to the documented statusLine fields
//! (`rate_limits.five_hour` / `rate_limits.seven_day`, each with `used_percentage` 0–100 and
//! `resets_at` in Unix epoch seconds). They are present only for subscribers and only after
//! the first API response of a session.

use vstd::prelude::*;

use crate::time::{from_timestamp, nanos_between, signed_duration_since, Span, Timestamp};

verus! {

#[derive(Debug, Clone, Copy, PartialEq)]
pub struct LimitWindow<P> {
    pub used_percentage: P,
    pub resets_at: Timestamp,
}

#[derive(Debug, Clone, PartialEq)]
pub struct LimitSnapshot<P> {
    pub captured_at: Timestamp,
    pub session_id: Option<String>,
    pub model: Option<String>,
    pub context_used_percentage: Option<P>,
    pub five_hour: Option<LimitWindow<P>>,
    pub seven_day: Option<LimitWindow<P>>,
}

/// How much to trust a window reading right now.
#[derive(Debug, Clone, Copy, PartialEq, Eq, Structural)]
pub enum WindowState {
    /// Captured recently; the window has not reset since.
    Fresh,
    /// Older than the caller's freshness threshold, but the window has not reset yet.
    /// Usage may have grown since capture.
    Stale,
    /// `resets_at` has passed since capture. Nothing is known about the new window.
    Expired,
}

/// The snapshot file, as JSON gives it.
#[derive(Debug, Clone, PartialEq)]
pub struct RawFile<P> {
    pub captured_at: i64,
    pub session_id: Option<String>,
    pub model: Option<RawModel>,
    pub context_window: Option<RawContext<P>>,
    pub rate_limits: Option<RawLimits<P>>,
}

#[derive(Debug, Clone, PartialEq)]
pub struct RawModel {
    pub id: Option<String>,
    pub display_name: Option<String>,
}

#[derive(Debug, Clone, Copy, PartialEq)]
pub struct RawContext<P> {
    pub used_percentage: Option<P>,
}

#[derive(Debug, Clone, Copy, PartialEq)]
pub struct RawLimits<P> {
    pub five_hour: Option<RawWindow<P>>,
    pub seven_day: Option<RawWindow<P>>,
}

#[derive(Debug, Clone, Copy, PartialEq)]
pub struct RawWindow<P> {
    pub used_percentage: Option<P>,
    pub resets_at: Option<i64>,
}

/// The moment so many seconds after 1970, if the calendar reaches that far.
pub open spec fn second_moment(secs: i64) -> Option<Timestamp> {
    let t = Timestamp { secs, nanos: 0 };
    if t.valid() {
        Some(t)
    } else {
        None
    }
}

/// A window that has both its members, and a reset that the calendar reaches.
pub open spec fn complete_window<P>(w: Option<RawWindow<P>>) -> Option<LimitWindow<P>> {
    match w {
        Some(RawWindow { used_percentage: Some(p), resets_at: Some(r) }) => match second_moment(r) {
            Some(t) => Some(LimitWindow { used_percentage: p, resets_at: t }),
            None => None,
        },
        _ => None,
    }
}

/// The name to show for a model: its display name, or else its id.
pub open spec fn model_label(model: Option<RawModel>) -> Option<String> {
    match model {
        Some(m) => if m.display_name is Some {
            m.display_name
        } else {
            m.id
        },
        None => None,
    }
}

/// The snapshot that a file holds.
pub open spec fn snapshot_of<P>(raw: RawFile<P>) -> LimitSnapshot<P> {
    LimitSnapshot {
        captured_at: match second_moment(raw.captured_at) {
            Some(t) => t,
            None => Timestamp { secs: 0, nanos: 0 },
        },
        session_id: raw.session_id,
        model: model_label(raw.model),
        context_used_percentage: match raw.context_window {
            Some(c) => c.used_percentage,
            None => None,
        },
        five_hour: match raw.rate_limits {
            Some(l) => complete_window(l.five_hour),
            None => None,
        },
        seven_day: match raw.rate_limits {
            Some(l) => complete_window(l.seven_day),
            None => None,
        },
    }
}

fn window<P: Copy>(w: Option<RawWindow<P>>) -> (r: Option<LimitWindow<P>>)
    ensures
        r == complete_window(w),
{
    match w {
        Some(RawWindow { used_percentage: Some(p), resets_at: Some(secs) }) => match from_timestamp(
            secs,
            0,
        ) {
            Some(t) => Some(LimitWindow { used_percentage: p, resets_at: t }),
            None => None,
        },
        _ => None,
    }
}

/// How far a reading of a window that resets at `resets_at` is to be trusted.
pub open spec fn trust(
    captured_at: Timestamp,
    resets_at: Timestamp,
    now: Timestamp,
    fresh_for: Span,
) -> WindowState {
    if !now.earlier(resets_at) {
        WindowState::Expired
    } else if nanos_between(now, captured_at) > fresh_for.total() {
        WindowState::Stale
    } else {
        WindowState::Fresh
    }
}

impl<P: Copy> LimitSnapshot<P> {
    /// The snapshot that a file holds.
    pub fn from_raw(raw: RawFile<P>) -> (s: LimitSnapshot<P>)
        ensures
            s == snapshot_of(raw),
            s.captured_at.valid(),
    {
        let (five_hour, seven_day) = match raw.rate_limits {
            Some(l) => (window(l.five_hour), window(l.seven_day)),
            None => (None, None),
        };
        let captured_at = match from_timestamp(raw.captured_at, 0) {
            Some(t) => t,
            None => Timestamp { secs: 0, nanos: 0 },
        };
        let model = match raw.model {
            Some(m) => match m.display_name {
                Some(n) => Some(n),
                None => m.id,
            },
            None => None,
        };
        let context_used_percentage = match raw.context_window {
            Some(c) => c.used_percentage,
            None => None,
        };
        LimitSnapshot {
            captured_at,
            session_id: raw.session_id,
            model,
            context_used_percentage,
            five_hour,
            seven_day,
        }
    }

    /// The time since the snapshot was taken.
    pub fn age(&self, now: Timestamp) -> (d: Span)
        requires
            now.valid(),
            self.captured_at.valid(),
        ensures
            d.valid(),
            d.total() == nanos_between(now, self.captured_at),
    {
        signed_duration_since(now, self.captured_at)
    }

    /// How far the reading of a window is to be trusted.
    pub fn state(&self, w: &LimitWindow<P>, now: Timestamp, fresh_for: Span) -> (r: WindowState)
        requires
            now.valid(),
            self.captured_at.valid(),
        ensures
            r == trust(self.captured_at, w.resets_at, now, fresh_for),
    {
        if !now.is_before(w.resets_at) {
            WindowState::Expired
        } else if self.age(now).exceeds(fresh_for) {
            WindowState::Stale
        } else {
            WindowState::Fresh
        }
    }
}

/// Trust only wanes: a later look at the same reading never finds it fresher.
pub proof fn trust_wanes(
    captured_at: Timestamp,
    resets_at: Timestamp,
    now: Timestamp,
    later: Timestamp,
    fresh_for: Span,
)
    requires
        !later.earlier(now),
        now.nanos < crate::time::NANOS,
        later.nanos < crate::time::NANOS,
        captured_at.nanos < crate::time::NANOS,
    ensures
        trust(captured_at, resets_at, now, fresh_for) is Expired ==> trust(
            captured_at,
            resets_at,
            later,
            fresh_for,
        ) is Expired,
        trust(captured_at, resets_at, now, fresh_for) is Stale ==> !(trust(
            captured_at,
            resets_at,
            later,
            fresh_for,
        ) is Fresh),
{
}

/// Each window of a snapshot is made of the member of its own name alone: where that has a
/// percentage, and a reset that the calendar reaches, the window has just these, and otherwise
/// there is no such window.
pub proof fn windows_come_from_their_own_members<P>(raw: RawFile<P>)
    ensures
        ({
            let s = snapshot_of(raw);
            &&& raw.rate_limits is None ==> s.five_hour is None && s.seven_day is None
            &&& raw.rate_limits matches Some(l) ==> {
                &&& s.five_hour matches Some(w) ==> l.five_hour == Some(
                    RawWindow {
                        used_percentage: Some(w.used_percentage),
                        resets_at: Some(w.resets_at.secs),
                    },
                ) && w.resets_at.nanos == 0 && w.resets_at.valid()
                &&& s.seven_day matches Some(w) ==> l.seven_day == Some(
                    RawWindow {
                        used_percentage: Some(w.used_percentage),
                        resets_at: Some(w.resets_at.secs),
                    },
                ) && w.resets_at.nanos == 0 && w.resets_at.valid()
                &&& s.five_hour is Some <==> (l.five_hour matches Some(w) && w.used_percentage is Some
                    && w.resets_at is Some && crate::time::FIRST_SECOND <= w.resets_at->0
                    <= crate::time::LAST_SECOND)
                &&& s.seven_day is Some <==> (l.seven_day matches Some(w) && w.used_percentage is Some
                    && w.resets_at is Some && crate::time::FIRST_SECOND <= w.resets_at->0
                    <= crate::time::LAST_SECOND)
            }
        }),
{
}

/// Two files that agree on one member of the limits give the same window for it, whatever the
/// other member is.
pub proof fn windows_do_not_depend_on_each_other<P>(a: RawFile<P>, b: RawFile<P>)
    requires
        a.rate_limits is Some,
        b.rate_limits is Some,
    ensures
        a.rate_limits->0.five_hour == b.rate_limits->0.five_hour ==> snapshot_of(a).five_hour
            == snapshot_of(b).five_hour,
        a.rate_limits->0.seven_day == b.rate_limits->0.seven_day ==> snapshot_of(a).seven_day
            == snapshot_of(b).seven_day,
{
}

/// Exchanging the two members of the limits exchanges the two windows.
pub proof fn both_windows_are_read_alike<P>(a: RawFile<P>, b: RawFile<P>)
    requires
        a.rate_limits is Some,
        b.rate_limits is Some,
        a.rate_limits->0.five_hour == b.rate_limits->0.seven_day,
    ensures
        snapshot_of(a).five_hour == snapshot_of(b).seven_day,
{
}

/// A snapshot keeps the session of its file, the percentage of its context window, the display
/// name of its model or else the id, and the second at which it was captured, or else 1970.
pub proof fn snapshots_say_what_their_files_say<P>(raw: RawFile<P>)
    ensures
        ({
            let s = snapshot_of(raw);
            &&& s.session_id == raw.session_id
            &&& raw.context_window matches Some(c) ==> s.context_used_percentage
                == c.used_percentage
            &&& raw.context_window is None ==> s.context_used_percentage is None
            &&& raw.model is None ==> s.model is None
            &&& raw.model matches Some(m) ==> (m.display_name is Some ==> s.model
                == m.display_name) && (m.display_name is None ==> s.model == m.id)
            &&& s.captured_at.nanos == 0
            &&& crate::time::FIRST_SECOND <= raw.captured_at <= crate::time::LAST_SECOND
                ==> s.captured_at.secs == raw.captured_at
            &&& !(crate::time::FIRST_SECOND <= raw.captured_at <= crate::time::LAST_SECOND)
                ==> s.captured_at.secs == 0
        }),
{
}

/// A reading is expired exactly when its window has reset, however fresh it is. Until then it
/// is stale exactly when it is older than the caller accepts; at that age it is still fresh.
pub proof fn how_readings_age(
    captured_at: Timestamp,
    resets_at: Timestamp,
    now: Timestamp,
    fresh_for: Span,
)
    ensures
        ({
            let t = trust(captured_at, resets_at, now, fresh_for);
            let reset = now.secs > resets_at.secs || (now.secs == resets_at.secs && now.nanos
                >= resets_at.nanos);
            &&& t is Expired <==> reset
            &&& !reset ==> (t is Stale <==> nanos_between(now, captured_at) > fresh_for.secs
                * 1_000_000_000 + fresh_for.nanos)
        }),
{
}

} // verus!
