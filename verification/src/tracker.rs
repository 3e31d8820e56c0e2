//! Hover state machine. Pure logic, without a window.
//!
//! Hidden --(cursor in entry zone)--> Arming --(dwell elapsed)--> Visible
//! Visible --(cursor outside exit zone & panel)--> Leaving --(hide delay)--> Hidden
//! Leaving --(cursor back inside)--> Visible
//!
//! The exit zone is larger than the entry zone and the panel itself counts as
//! inside, which is the hysteresis that stops flicker at the boundary.

use vstd::prelude::*;

use crate::time::{Duration, Instant};

verus! {

/// A rectangle in screen pixels; `right` and `bottom` are exclusive.
#[derive(Debug, Clone, Copy, PartialEq, Eq, Structural)]
pub struct Rect {
    pub left: i32,
    pub top: i32,
    pub right: i32,
    pub bottom: i32,
}

impl Rect {
    /// Whether the point lies inside the half-open rectangle.
    pub open spec fn holds(self, x: int, y: int) -> bool {
        self.left <= x < self.right && self.top <= y < self.bottom
    }

    pub fn contains(&self, x: i32, y: i32) -> (r: bool)
        ensures
            r == self.holds(x as int, y as int),
    {
        x >= self.left && x < self.right && y >= self.top && y < self.bottom
    }

    pub fn width(&self) -> (w: i32)
        requires
            i32::MIN <= self.right - self.left <= i32::MAX,
        ensures
            w == self.right - self.left,
    {
        self.right - self.left
    }

    pub fn height(&self) -> (h: i32)
        requires
            i32::MIN <= self.bottom - self.top <= i32::MAX,
        ensures
            h == self.bottom - self.top,
    {
        self.bottom - self.top
    }
}

#[derive(Debug, Clone, Copy, PartialEq, Eq, Structural)]
pub enum State {
    Hidden,
    Arming { since: Instant },
    Visible,
    Leaving { since: Instant },
}

#[derive(Debug, Clone, Copy, PartialEq, Eq, Structural)]
pub enum Action {
    Nothing,
    Show,
    Hide,
}

#[derive(Debug, Clone, Copy)]
pub struct Input {
    pub cursor: (i32, i32),
    pub entry: Rect,
    pub exit: Rect,
    /// Current on-screen panel rectangle, if any part of it is visible.
    pub panel: Option<Rect>,
    /// True while a fullscreen app has focus or a drag is in progress: never show.
    pub suppressed: bool,
    /// True while the user has pinned the panel (expanded view): never auto-hide.
    pub pinned: bool,
}

impl Input {
    /// The cursor calls for the panel: it is in the entry zone and nothing forbids showing.
    pub open spec fn invites(self) -> bool {
        self.entry.holds(self.cursor.0 as int, self.cursor.1 as int) && !self.suppressed
    }

    /// The cursor is in the exit zone or over the panel.
    pub open spec fn inside(self) -> bool {
        let (x, y) = self.cursor;
        self.exit.holds(x as int, y as int) || (self.panel matches Some(p) && p.holds(
            x as int,
            y as int,
        ))
    }

    /// The panel should stay: the user has pinned it, or the cursor is inside and nothing
    /// forbids showing.
    pub open spec fn retains(self) -> bool {
        self.pinned || (self.inside() && !self.suppressed)
    }
}

/// The state and the action that follow on `state` when `input` is seen at `now`.
pub open spec fn step(
    state: State,
    dwell: Duration,
    hide_delay: Duration,
    now: Instant,
    input: Input,
) -> (State, Action) {
    match state {
        State::Hidden => (
            if input.invites() {
                State::Arming { since: now }
            } else {
                State::Hidden
            },
            Action::Nothing,
        ),
        State::Arming { since } => if !input.invites() {
            (State::Hidden, Action::Nothing)
        } else if now.since(since) >= dwell.nanos {
            (State::Visible, Action::Show)
        } else {
            (state, Action::Nothing)
        },
        State::Visible => (
            if input.retains() {
                State::Visible
            } else {
                State::Leaving { since: now }
            },
            Action::Nothing,
        ),
        State::Leaving { since } => if input.retains() {
            (State::Visible, Action::Nothing)
        } else if now.since(since) >= hide_delay.nanos {
            (State::Hidden, Action::Hide)
        } else {
            (state, Action::Nothing)
        },
    }
}

pub struct Tracker {
    pub state: State,
    pub dwell: Duration,
    pub hide_delay: Duration,
}

impl Tracker {
    pub fn new(dwell: Duration, hide_delay: Duration) -> (t: Tracker)
        ensures
            t == (Tracker { state: State::Hidden, dwell, hide_delay }),
    {
        Tracker { state: State::Hidden, dwell, hide_delay }
    }

    pub fn is_visible(&self) -> (r: bool)
        ensures
            r == (self.state is Visible || self.state is Leaving),
    {
        match self.state {
            State::Visible | State::Leaving { .. } => true,
            _ => false,
        }
    }

    pub fn tick(&mut self, now: Instant, input: &Input) -> (action: Action)
        ensures
            (final(self).state, action) == step(
                old(self).state,
                old(self).dwell,
                old(self).hide_delay,
                now,
                *input,
            ),
            final(self).dwell == old(self).dwell,
            final(self).hide_delay == old(self).hide_delay,
    {
        let (x, y) = input.cursor;
        let in_entry = input.entry.contains(x, y);
        let over_panel = match input.panel {
            Some(p) => p.contains(x, y),
            None => false,
        };
        let inside = input.exit.contains(x, y) || over_panel;
        match self.state {
            State::Hidden => {
                if in_entry && !input.suppressed {
                    self.state = State::Arming { since: now };
                }
                Action::Nothing
            },
            State::Arming { since } => {
                if !in_entry || input.suppressed {
                    self.state = State::Hidden;
                    Action::Nothing
                } else if now.duration_since(since).nanos >= self.dwell.nanos {
                    self.state = State::Visible;
                    Action::Show
                } else {
                    Action::Nothing
                }
            },
            State::Visible => {
                if input.pinned {
                    return Action::Nothing;
                }
                if !inside || input.suppressed {
                    self.state = State::Leaving { since: now };
                }
                Action::Nothing
            },
            State::Leaving { since } => {
                if input.pinned || (inside && !input.suppressed) {
                    self.state = State::Visible;
                    Action::Nothing
                } else if now.duration_since(since).nanos >= self.hide_delay.nanos {
                    self.state = State::Hidden;
                    Action::Hide
                } else {
                    Action::Nothing
                }
            },
        }
    }

    /// Force-hide (e.g. display change or explicit dismiss).
    pub fn reset(&mut self)
        ensures
            *final(self) == (Tracker { state: State::Hidden, ..*old(self) }),
    {
        self.state = State::Hidden;
    }
}

/// The state after a number of ticks, each with its time and input, from a hidden panel.
pub open spec fn state_after(
    dwell: Duration,
    hide_delay: Duration,
    ticks: Seq<(Instant, Input)>,
) -> State
    decreases ticks.len(),
{
    if ticks.len() == 0 {
        State::Hidden
    } else {
        step(
            state_after(dwell, hide_delay, ticks.drop_last()),
            dwell,
            hide_delay,
            ticks.last().0,
            ticks.last().1,
        ).0
    }
}

/// The action of the last of a number of ticks.
pub open spec fn last_action(
    dwell: Duration,
    hide_delay: Duration,
    ticks: Seq<(Instant, Input)>,
) -> Action
    recommends
        ticks.len() > 0,
{
    step(
        state_after(dwell, hide_delay, ticks.drop_last()),
        dwell,
        hide_delay,
        ticks.last().0,
        ticks.last().1,
    ).1
}

/// Every tick from position `from` on invites the panel.
pub open spec fn inviting_from(ticks: Seq<(Instant, Input)>, from: int) -> bool {
    forall|i: int| from <= i < ticks.len() ==> (#[trigger] ticks[i]).1.invites()
}

/// No tick from position `from` on retains the panel.
pub open spec fn releasing_from(ticks: Seq<(Instant, Input)>, from: int) -> bool {
    forall|i: int| from <= i < ticks.len() ==> !(#[trigger] ticks[i]).1.retains()
}

/// While showing is suppressed the panel is never shown, and while it is pinned it is never
/// hidden.
pub proof fn suppressed_never_shows_and_pinned_never_hides(
    state: State,
    dwell: Duration,
    hide_delay: Duration,
    now: Instant,
    input: Input,
)
    ensures
        input.suppressed ==> step(state, dwell, hide_delay, now, input).1 != Action::Show,
        input.pinned ==> step(state, dwell, hide_delay, now, input).1 != Action::Hide,
{
}

/// While the cursor is in the exit zone or over the panel, a visible panel stays visible.
pub proof fn hysteresis_keeps_the_panel_open(
    dwell: Duration,
    hide_delay: Duration,
    now: Instant,
    input: Input,
)
    requires
        input.inside(),
        !input.suppressed,
    ensures
        step(State::Visible, dwell, hide_delay, now, input) == (State::Visible, Action::Nothing),
        forall|since: Instant|
            #![auto]
            step(State::Leaving { since }, dwell, hide_delay, now, input) == (
                State::Visible,
                Action::Nothing,
            ),
{
}

proof fn lemma_waiting_since(dwell: Duration, hide_delay: Duration, ticks: Seq<(Instant, Input)>)
    ensures
        state_after(dwell, hide_delay, ticks) matches State::Arming { since } ==> exists|i: int|
            0 <= i < ticks.len() && (#[trigger] ticks[i]).0 == since && inviting_from(ticks, i),
        state_after(dwell, hide_delay, ticks) matches State::Leaving { since } ==> exists|i: int|
            0 <= i < ticks.len() && (#[trigger] ticks[i]).0 == since && releasing_from(ticks, i),
    decreases ticks.len(),
{
    if ticks.len() > 0 {
        let rest = ticks.drop_last();
        let n = ticks.len() - 1;
        lemma_waiting_since(dwell, hide_delay, rest);
        let before = state_after(dwell, hide_delay, rest);
        let after = state_after(dwell, hide_delay, ticks);
        if let State::Arming { since } = after {
            if before is Arming {
                let i = choose|i: int|
                    0 <= i < rest.len() && (#[trigger] rest[i]).0 == since && inviting_from(rest, i);
                assert(ticks[i].0 == since);
                assert forall|k: int| i <= k < ticks.len() implies (
                #[trigger] ticks[k]).1.invites() by {
                    if k < n {
                        assert(rest[k] == ticks[k]);
                    }
                }
            } else {
                assert(ticks[n].0 == since && inviting_from(ticks, n));
            }
        }
        if let State::Leaving { since } = after {
            if before is Leaving {
                let i = choose|i: int|
                    0 <= i < rest.len() && (#[trigger] rest[i]).0 == since && releasing_from(
                        rest,
                        i,
                    );
                assert(ticks[i].0 == since);
                assert forall|k: int| i <= k < ticks.len() implies !(
                #[trigger] ticks[k]).1.retains() by {
                    if k < n {
                        assert(rest[k] == ticks[k]);
                    }
                }
            } else {
                assert(ticks[n].0 == since && releasing_from(ticks, n));
            }
        }
    }
}

/// The panel is shown only after the cursor has been seen in the entry zone, with nothing
/// forbidding it, at every tick for at least the dwell time.
pub proof fn shown_only_after_dwelling(
    dwell: Duration,
    hide_delay: Duration,
    ticks: Seq<(Instant, Input)>,
)
    requires
        ticks.len() > 0,
        last_action(dwell, hide_delay, ticks) == Action::Show,
    ensures
        exists|i: int|
            0 <= i < ticks.len() - 1 && inviting_from(ticks, i) && ticks.last().0.since(
                (#[trigger] ticks[i]).0,
            ) >= dwell.nanos,
{
    let rest = ticks.drop_last();
    lemma_waiting_since(dwell, hide_delay, rest);
    let since = state_after(dwell, hide_delay, rest)->Arming_since;
    let i = choose|i: int|
        0 <= i < rest.len() && (#[trigger] rest[i]).0 == since && inviting_from(rest, i);
    assert(ticks[i].0 == since);
    assert forall|k: int| i <= k < ticks.len() implies (#[trigger] ticks[k]).1.invites() by {
        if k < ticks.len() - 1 {
            assert(rest[k] == ticks[k]);
        }
    }
    assert(inviting_from(ticks, i));
}

/// The panel is hidden only after it has been left, and neither pinned nor come back to, at
/// every tick for at least the hide delay.
pub proof fn hidden_only_after_leaving(
    dwell: Duration,
    hide_delay: Duration,
    ticks: Seq<(Instant, Input)>,
)
    requires
        ticks.len() > 0,
        last_action(dwell, hide_delay, ticks) == Action::Hide,
    ensures
        exists|i: int|
            0 <= i < ticks.len() - 1 && releasing_from(ticks, i) && ticks.last().0.since(
                (#[trigger] ticks[i]).0,
            ) >= hide_delay.nanos,
{
    let rest = ticks.drop_last();
    lemma_waiting_since(dwell, hide_delay, rest);
    let since = state_after(dwell, hide_delay, rest)->Leaving_since;
    let i = choose|i: int|
        0 <= i < rest.len() && (#[trigger] rest[i]).0 == since && releasing_from(rest, i);
    assert(ticks[i].0 == since);
    assert forall|k: int| i <= k < ticks.len() implies !(#[trigger] ticks[k]).1.retains() by {
        if k < ticks.len() - 1 {
            assert(rest[k] == ticks[k]);
        }
    }
    assert(releasing_from(ticks, i));
}

/// A point lies in a rectangle from its left and top edge on, and before its right and bottom
/// edge.
pub proof fn which_points_lie_inside(r: Rect, x: int, y: int)
    ensures
        r.holds(x, y) <==> r.left <= x && x < r.right && r.top <= y && y < r.bottom,
{
}

/// What the cursor does to the panel: it invites it from the entry zone, unless showing is
/// suppressed; it keeps it from the exit zone or from over the panel, unless showing is
/// suppressed; and a pinned panel stays in any case.
pub proof fn what_the_cursor_does(input: Input)
    ensures
        ({
            let x = input.cursor.0;
            let y = input.cursor.1;
            let in_entry = input.entry.left <= x < input.entry.right && input.entry.top <= y
                < input.entry.bottom;
            let in_exit = input.exit.left <= x < input.exit.right && input.exit.top <= y
                < input.exit.bottom;
            let over = input.panel matches Some(p) && p.left <= x < p.right && p.top <= y < p.bottom;
            &&& input.invites() <==> in_entry && !input.suppressed
            &&& input.inside() <==> in_exit || over
            &&& input.retains() <==> input.pinned || ((in_exit || over) && !input.suppressed)
        }),
{
}

/// A hidden panel begins to wait as soon as the cursor invites it, and stays hidden otherwise;
/// nothing is shown yet.
pub proof fn hidden_panels_wait(dwell: Duration, hide_delay: Duration, now: Instant, input: Input)
    ensures
        ({
            let (state, action) = step(State::Hidden, dwell, hide_delay, now, input);
            &&& action is Nothing
            &&& input.invites() ==> state == (State::Arming { since: now })
            &&& !input.invites() ==> state is Hidden
        }),
{
}

/// A waiting panel is shown at the first tick at which the dwell time has passed, and given up at
/// the first at which the cursor does not invite it; until then it waits on.
pub proof fn waiting_panels_are_shown(
    since: Instant,
    dwell: Duration,
    hide_delay: Duration,
    now: Instant,
    input: Input,
)
    ensures
        ({
            let passed = if now.nanos >= since.nanos {
                now.nanos - since.nanos
            } else {
                0
            };
            let (state, action) = step(State::Arming { since }, dwell, hide_delay, now, input);
            &&& !input.invites() ==> state is Hidden && action is Nothing
            &&& input.invites() && passed >= dwell.nanos ==> state is Visible
                && action is Show
            &&& input.invites() && passed < dwell.nanos ==> state == (
            State::Arming { since }) && action is Nothing
        }),
{
}

/// A visible panel begins to leave as soon as nothing keeps it, and stays otherwise; it is not
/// hidden yet.
pub proof fn visible_panels_leave(
    dwell: Duration,
    hide_delay: Duration,
    now: Instant,
    input: Input,
)
    ensures
        ({
            let (state, action) = step(State::Visible, dwell, hide_delay, now, input);
            &&& action is Nothing
            &&& input.retains() ==> state is Visible
            &&& !input.retains() ==> state == (State::Leaving { since: now })
        }),
{
}

/// A leaving panel is hidden at the first tick at which the delay has passed, and stays at the
/// first at which something keeps it; until then it leaves on.
pub proof fn leaving_panels_are_hidden(
    since: Instant,
    dwell: Duration,
    hide_delay: Duration,
    now: Instant,
    input: Input,
)
    ensures
        ({
            let passed = if now.nanos >= since.nanos {
                now.nanos - since.nanos
            } else {
                0
            };
            let (state, action) = step(State::Leaving { since }, dwell, hide_delay, now, input);
            &&& input.retains() ==> state is Visible && action is Nothing
            &&& !input.retains() && passed >= hide_delay.nanos ==> state is Hidden
                && action is Hide
            &&& !input.retains() && passed < hide_delay.nanos ==> state == (
            State::Leaving { since }) && action is Nothing
        }),
{
}

} // verus!
