//! The popup window without a window system: where it goes, when it slides in and out, and
//! what its clicks and settings change.
//!
//! Sizes come scaled to physical pixels; drawing, timers and the slide curve are the window's
//! own business.

use vstd::prelude::*;

use crate::time::{Duration, Instant};
use crate::tracker::{step, Action, Input, Rect, State, Tracker};

verus! {

/// Sizes in physical pixels.
#[derive(Debug, Clone, Copy, PartialEq, Eq, Structural)]
pub struct Measures {
    /// Room for the shadow beside and below the panel.
    pub margin: i32,
    pub panel_w: i32,
    pub panel_h: i32,
    /// Half the width of the entry zone.
    pub entry_half: i32,
    /// Height of the entry zone.
    pub entry_height: i32,
    /// How much wider the exit zone is on each side.
    pub exit_extra: i32,
    /// How far the exit zone reaches below the panel.
    pub exit_below: i32,
}

/// Where the panel and its zones are on a display.
#[derive(Debug, Clone, Copy, PartialEq, Eq, Structural)]
pub struct Geometry {
    pub margin: i32,
    pub panel_w: i32,
    pub panel_h: i32,
    /// Left edge of the window.
    pub x: i32,
    /// Top edge of the window while it is shown.
    pub shown_y: i32,
    /// Top edge of the window while it is hidden.
    pub hidden_y: i32,
    pub win_w: i32,
    pub win_h: i32,
    pub entry: Rect,
    pub exit: Rect,
}

/// Half of a number, rounded towards zero.
pub open spec fn half(n: int) -> int {
    if n >= 0 {
        n / 2
    } else {
        -((-n) / 2)
    }
}

/// The larger of two numbers.
pub open spec fn larger(a: int, b: int) -> int {
    if a >= b {
        a
    } else {
        b
    }
}

/// The horizontal middle of a display.
pub open spec fn middle(bounds: Rect) -> int {
    half(bounds.left + bounds.right)
}

/// Half the width of the exit zone: that of the entry zone or the panel, and the margin.
pub open spec fn exit_half(m: Measures) -> int {
    larger(m.entry_half as int, half(m.panel_w as int)) + m.exit_extra
}

/// The number fits a coordinate.
pub open spec fn coordinate(n: int) -> bool {
    i32::MIN <= n <= i32::MAX
}

/// Every coordinate of the panel and its zones fits.
pub open spec fn geometry_fits(bounds: Rect, m: Measures) -> bool {
    let win_w = m.panel_w + 2 * m.margin;
    let win_h = m.panel_h + m.margin;
    &&& coordinate(2 * m.margin)
    &&& coordinate(win_w)
    &&& coordinate(win_h)
    &&& coordinate(bounds.left + bounds.right)
    &&& coordinate(middle(bounds) - half(win_w))
    &&& coordinate(bounds.top - win_h)
    &&& coordinate(middle(bounds) - m.entry_half)
    &&& coordinate(middle(bounds) + m.entry_half)
    &&& coordinate(bounds.top + larger(m.entry_height as int, 1))
    &&& coordinate(exit_half(m))
    &&& coordinate(middle(bounds) - exit_half(m))
    &&& coordinate(middle(bounds) + exit_half(m))
    &&& coordinate(bounds.top + m.panel_h)
    &&& coordinate(bounds.top + m.panel_h + m.exit_below)
}

/// The geometry of the panel on a display: centred at its top edge, with the entry zone there
/// and the exit zone around both.
pub open spec fn geometry_of(bounds: Rect, m: Measures) -> Geometry {
    let win_w = m.panel_w + 2 * m.margin;
    let win_h = m.panel_h + m.margin;
    let cx = middle(bounds);
    Geometry {
        margin: m.margin,
        panel_w: m.panel_w,
        panel_h: m.panel_h,
        x: (cx - half(win_w)) as i32,
        shown_y: bounds.top,
        hidden_y: (bounds.top - win_h) as i32,
        win_w: win_w as i32,
        win_h: win_h as i32,
        entry: Rect {
            left: (cx - m.entry_half) as i32,
            top: bounds.top,
            right: (cx + m.entry_half) as i32,
            bottom: (bounds.top + larger(m.entry_height as int, 1)) as i32,
        },
        exit: Rect {
            left: (cx - exit_half(m)) as i32,
            top: bounds.top,
            right: (cx + exit_half(m)) as i32,
            bottom: (bounds.top + m.panel_h + m.exit_below) as i32,
        },
    }
}

/// Half of a number, rounded towards zero.
pub fn half_of(n: i64) -> (r: i64)
    requires
        n > i64::MIN,
    ensures
        r == half(n as int),
{
    if n >= 0 {
        n / 2
    } else {
        -((-n) / 2)
    }
}

fn is_coordinate(n: i64) -> (r: bool)
    ensures
        r == coordinate(n as int),
{
    -0x8000_0000 <= n && n <= 0x7fff_ffff
}

/// Whether [`geometry`] has an answer.
pub fn has_geometry(bounds: Rect, m: Measures) -> (r: bool)
    ensures
        r == geometry_fits(bounds, m),
{
    let win_w: i64 = m.panel_w as i64 + 2 * m.margin as i64;
    let win_h: i64 = m.panel_h as i64 + m.margin as i64;
    let cx: i64 = half_of(bounds.left as i64 + bounds.right as i64);
    let entry_half: i64 = m.entry_half as i64;
    let panel_half: i64 = half_of(m.panel_w as i64);
    let wider: i64 = if entry_half >= panel_half {
        entry_half
    } else {
        panel_half
    };
    let exit: i64 = wider + m.exit_extra as i64;
    let top: i64 = bounds.top as i64;
    let entry_height: i64 = if m.entry_height >= 1 {
        m.entry_height as i64
    } else {
        1
    };
    is_coordinate(2 * m.margin as i64) && is_coordinate(win_w) && is_coordinate(win_h)
        && is_coordinate(bounds.left as i64 + bounds.right as i64) && is_coordinate(
        cx - half_of(win_w),
    ) && is_coordinate(top - win_h) && is_coordinate(cx - entry_half) && is_coordinate(
        cx + entry_half,
    ) && is_coordinate(top + entry_height) && is_coordinate(exit) && is_coordinate(cx - exit)
        && is_coordinate(cx + exit) && is_coordinate(top + m.panel_h as i64) && is_coordinate(
        top + m.panel_h as i64 + m.exit_below as i64,
    )
}

/// Where the panel and its zones are on a display.
pub fn geometry(bounds: Rect, m: Measures) -> (g: Geometry)
    requires
        geometry_fits(bounds, m),
    ensures
        g == geometry_of(bounds, m),
{
    let win_w: i32 = m.panel_w + 2 * m.margin;
    let win_h: i32 = m.panel_h + m.margin;
    let cx: i32 = half_of((bounds.left + bounds.right) as i64) as i32;
    let panel_half: i32 = half_of(m.panel_w as i64) as i32;
    let wider: i32 = if m.entry_half >= panel_half {
        m.entry_half
    } else {
        panel_half
    };
    let exit: i32 = wider + m.exit_extra;
    let entry_height: i32 = if m.entry_height >= 1 {
        m.entry_height
    } else {
        1
    };
    Geometry {
        margin: m.margin,
        panel_w: m.panel_w,
        panel_h: m.panel_h,
        x: cx - half_of(win_w as i64) as i32,
        shown_y: bounds.top,
        hidden_y: bounds.top - win_h,
        win_w,
        win_h,
        entry: Rect {
            left: cx - m.entry_half,
            top: bounds.top,
            right: cx + m.entry_half,
            bottom: bounds.top + entry_height,
        },
        exit: Rect {
            left: cx - exit,
            top: bounds.top,
            right: cx + exit,
            bottom: bounds.top + m.panel_h + m.exit_below,
        },
    }
}

/// The exit zone holds the entry zone: a cursor that calls the panel does not at once dismiss
/// it.
pub proof fn exit_zone_holds_entry_zone(bounds: Rect, m: Measures, x: int, y: int)
    requires
        geometry_fits(bounds, m),
        m.exit_extra >= 0,
        m.entry_height <= m.panel_h + m.exit_below,
        m.panel_h + m.exit_below >= 1,
        geometry_of(bounds, m).entry.holds(x, y),
    ensures
        geometry_of(bounds, m).exit.holds(x, y),
{
}

/// A slide of the window from one height to another.
#[derive(Debug, Clone, Copy, PartialEq, Eq, Structural)]
pub struct Anim {
    pub from: i32,
    pub to: i32,
    pub start: Instant,
    pub dur: Duration,
}

/// The state of the panel.
pub struct Panel {
    pub tracker: Tracker,
    pub geo: Option<Geometry>,
    pub anim: Option<Anim>,
    pub cur_y: i32,
    pub shown: bool,
    pub expanded: bool,
}

/// What the window is to do after a look at the cursor.
#[derive(Debug, Clone, Copy, PartialEq, Eq, Structural)]
pub enum Move {
    Stay,
    StartShow,
    StartHide,
}

/// What a step of the slide came to.
#[derive(Debug, Clone, Copy, PartialEq, Eq, Structural)]
pub enum Slide {
    /// There is no slide; its timer is to be stopped.
    Idle,
    Moving,
    /// The slide is over and the panel shown.
    Arrived,
    /// The slide is over and the panel hidden.
    Hidden,
}

/// The rectangle of the panel on the screen.
pub open spec fn panel_area(geo: Option<Geometry>, shown: bool, cur_y: i32) -> Option<Rect> {
    match geo {
        Some(g) => if shown {
            Some(
                Rect {
                    left: (g.x + g.margin) as i32,
                    top: larger(cur_y as int, g.shown_y as int) as i32,
                    right: (g.x + g.margin + g.panel_w) as i32,
                    bottom: (cur_y + g.panel_h) as i32,
                },
            )
        } else {
            None
        },
        None => None,
    }
}

/// The coordinates of [`panel_area`] fit.
pub open spec fn area_fits(geo: Option<Geometry>, shown: bool, cur_y: i32) -> bool {
    geo matches Some(g) ==> (shown ==> coordinate(g.x + g.margin) && coordinate(
        g.x + g.margin + g.panel_w,
    ) && coordinate(cur_y + g.panel_h))
}

impl Panel {
    pub fn new(dwell: Duration, hide_delay: Duration) -> (p: Panel)
        ensures
            p == (Panel {
                tracker: Tracker { state: State::Hidden, dwell, hide_delay },
                geo: None,
                anim: None,
                cur_y: 0,
                shown: false,
                expanded: false,
            }),
    {
        Panel {
            tracker: Tracker::new(dwell, hide_delay),
            geo: None,
            anim: None,
            cur_y: 0,
            shown: false,
            expanded: false,
        }
    }

    /// Takes over a geometry if there is none yet, with the panel above the display. Says
    /// whether there is one now.
    pub fn ensure_geometry(&mut self, found: Option<Geometry>) -> (r: bool)
        ensures
            r == (old(self).geo is Some || found is Some),
            *final(self) == if old(self).geo is None && found is Some {
                Panel { geo: found, cur_y: found->0.hidden_y, ..*old(self) }
            } else {
                *old(self)
            },
    {
        if self.geo.is_some() {
            return true;
        }
        match found {
            Some(g) => {
                self.cur_y = g.hidden_y;
                self.geo = found;
                true
            },
            None => false,
        }
    }

    /// Takes over the geometry of a panel whose height has changed; it stays where it is.
    pub fn resize(&mut self, g: Geometry)
        ensures
            *final(self) == (Panel { geo: Some(g), ..*old(self) }),
    {
        self.geo = Some(g);
    }

    /// Whether [`Panel::poll`] can be asked: there is a geometry, and the panel's rectangle
    /// fits.
    pub fn can_poll(&self) -> (r: bool)
        ensures
            r == (self.geo is Some && area_fits(self.geo, self.shown, self.cur_y)),
    {
        match self.geo {
            Some(g) => {
                let left: i64 = g.x as i64 + g.margin as i64;
                !self.shown || (is_coordinate(left) && is_coordinate(left + g.panel_w as i64)
                    && is_coordinate(self.cur_y as i64 + g.panel_h as i64))
            },
            None => false,
        }
    }

    /// The rectangle of the panel on the screen, if it is shown.
    pub fn panel_rect(&self) -> (r: Option<Rect>)
        requires
            area_fits(self.geo, self.shown, self.cur_y),
        ensures
            r == panel_area(self.geo, self.shown, self.cur_y),
    {
        let g = match self.geo {
            Some(g) => g,
            None => return None,
        };
        if !self.shown {
            return None;
        }
        Some(
            Rect {
                left: g.x + g.margin,
                top: if self.cur_y >= g.shown_y {
                    self.cur_y
                } else {
                    g.shown_y
                },
                right: g.x + g.margin + g.panel_w,
                bottom: self.cur_y + g.panel_h,
            },
        )
    }

    /// Whether it matters at this cursor position if showing is suppressed.
    pub fn near(&self, x: i32, y: i32) -> (r: bool)
        ensures
            r == (self.geo is Some && (self.geo->0.exit.holds(x as int, y as int)
                || !(self.tracker.state is Hidden))),
    {
        match self.geo {
            Some(g) => g.exit.contains(x, y) || match self.tracker.state {
                State::Hidden => false,
                _ => true,
            },
            None => false,
        }
    }

    /// What the tracker is told.
    pub open spec fn input(self, cursor: (i32, i32), suppressed: bool) -> Input {
        Input {
            cursor,
            entry: self.geo->0.entry,
            exit: self.geo->0.exit,
            panel: panel_area(self.geo, self.shown, self.cur_y),
            suppressed,
            pinned: self.expanded,
        }
    }

    /// The move that follows on an action of the tracker, which is then in `state`. Without
    /// an action, a slide out of sight is reversed if the cursor came back, and a panel that
    /// is still in place is taken away if it should not be there.
    pub open spec fn reaction(self, state: State, action: Action) -> Move {
        let visible = state is Visible || state is Leaving;
        let hidden_y = self.geo->0.hidden_y;
        match action {
            Action::Show => Move::StartShow,
            Action::Hide => Move::StartHide,
            Action::Nothing => if visible && self.shown && self.anim is Some && self.anim->0.to
                == hidden_y {
                Move::StartShow
            } else if !visible && self.shown && self.anim is None && self.cur_y
                == self.geo->0.shown_y {
                Move::StartHide
            } else {
                Move::Stay
            },
        }
    }

    /// Looks at the cursor.
    pub fn poll(&mut self, now: Instant, cursor: (i32, i32), suppressed: bool) -> (r: Move)
        requires
            old(self).geo is Some,
            area_fits(old(self).geo, old(self).shown, old(self).cur_y),
        ensures
            ({
                let (state, action) = step(
                    old(self).tracker.state,
                    old(self).tracker.dwell,
                    old(self).tracker.hide_delay,
                    now,
                    old(self).input(cursor, suppressed),
                );
                &&& r == old(self).reaction(state, action)
                &&& *final(self) == (Panel {
                    tracker: Tracker { state, ..old(self).tracker },
                    ..*old(self)
                })
            }),
    {
        let g = match self.geo {
            Some(g) => g,
            None => return Move::Stay,
        };
        let input = Input {
            cursor,
            entry: g.entry,
            exit: g.exit,
            panel: self.panel_rect(),
            suppressed,
            pinned: self.expanded,
        };
        let action = self.tracker.tick(now, &input);
        match action {
            Action::Show => Move::StartShow,
            Action::Hide => Move::StartHide,
            Action::Nothing => {
                let visible = self.tracker.is_visible();
                let hiding = match self.anim {
                    Some(a) => a.to == g.hidden_y,
                    None => false,
                };
                if visible && self.shown && hiding {
                    Move::StartShow
                } else if !visible && self.shown && self.anim.is_none() && self.cur_y
                    == g.shown_y {
                    Move::StartHide
                } else {
                    Move::Stay
                }
            },
        }
    }

    /// Puts a hidden panel above the display, ready to be drawn. Says whether there is a
    /// panel to show.
    pub fn prepare_show(&mut self) -> (r: bool)
        ensures
            r == (old(self).geo is Some),
            *final(self) == (Panel {
                cur_y: if old(self).geo is Some && !old(self).shown {
                    old(self).geo->0.hidden_y
                } else {
                    old(self).cur_y
                },
                ..*old(self)
            }),
    {
        match self.geo {
            Some(g) => {
                if !self.shown {
                    self.cur_y = g.hidden_y;
                }
                true
            },
            None => false,
        }
    }

    /// Begins to slide the panel in, once it has been drawn. Says whether the window was
    /// hidden until now.
    pub fn start_show(&mut self, now: Instant, dur: Duration) -> (was_hidden: bool)
        requires
            old(self).geo is Some,
        ensures
            was_hidden == !old(self).shown,
            *final(self) == (Panel {
                shown: true,
                anim: Some(
                    Anim {
                        from: old(self).cur_y,
                        to: old(self).geo->0.shown_y,
                        start: now,
                        dur,
                    },
                ),
                ..*old(self)
            }),
    {
        let was_hidden = !self.shown;
        self.shown = true;
        if let Some(g) = self.geo {
            self.anim = Some(Anim { from: self.cur_y, to: g.shown_y, start: now, dur });
        }
        was_hidden
    }

    /// Begins to slide the panel out. Says whether there was one to slide.
    pub fn start_hide(&mut self, now: Instant, dur: Duration) -> (r: bool)
        ensures
            r == (old(self).geo is Some && old(self).shown),
            *final(self) == if r {
                Panel {
                    anim: Some(
                        Anim {
                            from: old(self).cur_y,
                            to: old(self).geo->0.hidden_y,
                            start: now,
                            dur,
                        },
                    ),
                    ..*old(self)
                }
            } else {
                *old(self)
            },
    {
        match self.geo {
            Some(g) => {
                if !self.shown {
                    return false;
                }
                self.anim = Some(Anim { from: self.cur_y, to: g.hidden_y, start: now, dur });
                true
            },
            None => false,
        }
    }

    /// Moves the window to height `y` of its slide, which is over if `done`. A panel that has
    /// slid out is collapsed.
    pub fn anim_tick(&mut self, y: i32, done: bool) -> (r: Slide)
        ensures
            ({
                let p = *old(self);
                let hides = p.geo is Some && p.anim is Some && done && p.anim->0.to
                    == p.geo->0.hidden_y;
                &&& r == if p.geo is None || p.anim is None {
                    Slide::Idle
                } else if !done {
                    Slide::Moving
                } else if hides {
                    Slide::Hidden
                } else {
                    Slide::Arrived
                }
                &&& *final(self) == if p.geo is None || p.anim is None {
                    p
                } else {
                    Panel {
                        cur_y: y,
                        anim: if done {
                            None
                        } else {
                            p.anim
                        },
                        shown: p.shown && !hides,
                        expanded: p.expanded && !hides,
                        geo: if hides && p.expanded {
                            None
                        } else {
                            p.geo
                        },
                        ..p
                    }
                }
            }),
    {
        let (g, a) = match (self.geo, self.anim) {
            (Some(g), Some(a)) => (g, a),
            _ => return Slide::Idle,
        };
        self.cur_y = y;
        if !done {
            return Slide::Moving;
        }
        self.anim = None;
        if a.to == g.hidden_y {
            self.shown = false;
            if self.expanded {
                self.expanded = false;
                self.geo = None;
            }
            Slide::Hidden
        } else {
            Slide::Arrived
        }
    }

    /// Expands or collapses the panel. Says whether it is to be drawn again.
    pub fn toggle_expanded(&mut self) -> (redraw: bool)
        ensures
            redraw == old(self).shown,
            *final(self) == (Panel { expanded: !old(self).expanded, ..*old(self) }),
    {
        self.expanded = !self.expanded;
        self.shown
    }

    /// Hides the panel at once. Says whether it was shown.
    pub fn hide_now(&mut self) -> (was_shown: bool)
        ensures
            was_shown == old(self).shown,
            *final(self) == (Panel {
                shown: false,
                anim: None,
                expanded: false,
                tracker: Tracker { state: State::Hidden, ..old(self).tracker },
                ..*old(self)
            }),
    {
        let was_shown = self.shown;
        self.shown = false;
        self.anim = None;
        self.expanded = false;
        self.tracker.reset();
        was_shown
    }

    /// Hides the panel at once and forgets where it was.
    pub fn on_display_change(&mut self) -> (was_shown: bool)
        ensures
            was_shown == old(self).shown,
            *final(self) == (Panel {
                shown: false,
                anim: None,
                expanded: false,
                geo: None,
                tracker: Tracker { state: State::Hidden, ..old(self).tracker },
                ..*old(self)
            }),
    {
        let was_shown = self.hide_now();
        self.geo = None;
        was_shown
    }

    /// Takes over the delays of new settings; the geometry is to be made anew. Says whether
    /// the panel is to be drawn again.
    pub fn apply_settings(&mut self, dwell_ms: u64, hide_delay_ms: u64) -> (redraw: bool)
        ensures
            redraw == old(self).shown,
            final(self).tracker.state == old(self).tracker.state,
            final(self).tracker.dwell.nanos == dwell_ms * 1_000_000,
            final(self).tracker.hide_delay.nanos == hide_delay_ms * 1_000_000,
            *final(self) == (Panel { tracker: final(self).tracker, geo: None, ..*old(self) }),
    {
        self.tracker.dwell = Duration::from_millis(dwell_ms);
        self.tracker.hide_delay = Duration::from_millis(hide_delay_ms);
        self.geo = None;
        self.shown
    }
}

/// While the panel is expanded and visible, no look at the cursor hides it.
pub proof fn expanded_panel_stays(p: Panel, now: Instant, cursor: (i32, i32), suppressed: bool)
    requires
        p.expanded,
        p.tracker.state is Visible || p.tracker.state is Leaving,
    ensures
        ({
            let (state, action) = step(
                p.tracker.state,
                p.tracker.dwell,
                p.tracker.hide_delay,
                now,
                p.input(cursor, suppressed),
            );
            state is Visible && p.reaction(state, action) != Move::StartHide
        }),
{
}

/// While showing is suppressed, a hidden panel stays hidden.
pub proof fn suppressed_panel_stays_hidden(p: Panel, now: Instant, cursor: (i32, i32))
    requires
        !p.shown,
        p.tracker.state is Hidden || p.tracker.state is Arming,
    ensures
        ({
            let (state, action) = step(
                p.tracker.state,
                p.tracker.dwell,
                p.tracker.hide_delay,
                now,
                p.input(cursor, true),
            );
            state is Hidden && p.reaction(state, action) == Move::Stay
        }),
{
}

/// What was last found on suppression, if that is less than 250 ms ago.
pub fn recent_suppression(at: Instant, value: bool, now: Instant) -> (r: Option<bool>)
    ensures
        r == if now.since(at) < 250_000_000 {
            Some(value)
        } else {
            None
        },
{
    if now.duration_since(at).nanos < 250_000_000 {
        Some(value)
    } else {
        None
    }
}

/// Whether the settings file is to be looked at again: two seconds have passed.
pub fn settings_check_due(last: Instant, now: Instant) -> (r: bool)
    ensures
        r == (now.since(last) >= 2_000_000_000),
{
    now.duration_since(last).nanos >= 2_000_000_000
}

/// Which settings are in effect: when their file was last written, and their version.
#[derive(Debug, Clone, Copy, PartialEq, Eq, Structural)]
pub struct SettingsWatch {
    /// In nanoseconds since 1970.
    pub mtime: Option<i128>,
    pub version: u64,
}

impl SettingsWatch {
    /// Notes when the file was last written. Says whether it is to be read again.
    pub fn see_file(&mut self, mtime: Option<i128>) -> (reload: bool)
        ensures
            reload == (mtime != old(self).mtime),
            *final(self) == (SettingsWatch { mtime, ..*old(self) }),
    {
        let same = match (mtime, self.mtime) {
            (Some(a), Some(b)) => a == b,
            (None, None) => true,
            _ => false,
        };
        self.mtime = mtime;
        !same
    }

    /// Notes the version of the settings. Says whether they are to be applied.
    pub fn see_version(&mut self, version: u64) -> (apply: bool)
        ensures
            apply == (version != old(self).version),
            *final(self) == (SettingsWatch { version, ..*old(self) }),
    {
        let apply = version != self.version;
        self.version = version;
        apply
    }
}

/// The period of the cursor timer in milliseconds: that of the settings, but at least 15.
pub fn poll_period(poll_ms: u64) -> (r: u32)
    ensures
        poll_ms <= u32::MAX ==> r == larger(poll_ms as int, 15),
        r == larger(poll_ms as int, 15) as u32,
{
    (if poll_ms >= 15 {
        poll_ms
    } else {
        15
    }) as u32
}

/// Halves are rounded towards zero.
pub proof fn halves_are_rounded_towards_zero(n: int)
    ensures
        n >= 0 ==> 0 <= 2 * half(n) <= n <= 2 * half(n) + 1,
        half(-n) == -half(n),
{
}

/// The panel is as large as it was measured, with a margin on three sides. It is centred at the
/// top edge of the display, and just above it while it is hidden.
pub proof fn where_the_panel_is(bounds: Rect, m: Measures)
    requires
        geometry_fits(bounds, m),
    ensures
        ({
            let g = geometry_of(bounds, m);
            &&& g.margin == m.margin && g.panel_w == m.panel_w && g.panel_h == m.panel_h
            &&& g.win_w == m.panel_w + 2 * m.margin
            &&& g.win_h == m.panel_h + m.margin
            &&& g.shown_y == bounds.top
            &&& g.hidden_y + g.win_h == bounds.top
            &&& -2 <= (2 * g.x + g.win_w) - (bounds.left + bounds.right) <= 2
        }),
{
}

/// The entry zone lies at the top edge of the display, as far to the left of its middle as to the
/// right, and is at least one pixel high.
pub proof fn where_the_entry_zone_is(bounds: Rect, m: Measures)
    requires
        geometry_fits(bounds, m),
    ensures
        ({
            let e = geometry_of(bounds, m).entry;
            &&& e.top == bounds.top
            &&& e.bottom >= bounds.top + 1 && e.bottom >= bounds.top + m.entry_height
            &&& e.bottom == bounds.top + 1 || e.bottom == bounds.top + m.entry_height
            &&& e.right - e.left == 2 * m.entry_half
            &&& -1 <= (e.left + e.right) - (bounds.left + bounds.right) <= 1
        }),
{
}

/// The exit zone lies around the panel and the entry zone: it reaches on both sides by the extra
/// beyond the wider of the two, and below the panel as far as it was measured.
pub proof fn where_the_exit_zone_is(bounds: Rect, m: Measures)
    requires
        geometry_fits(bounds, m),
    ensures
        ({
            let e = geometry_of(bounds, m).exit;
            let w = e.right - e.left;
            &&& e.top == bounds.top
            &&& e.bottom == bounds.top + m.panel_h + m.exit_below
            &&& w >= 2 * m.entry_half + 2 * m.exit_extra
            &&& w >= m.panel_w - 1 + 2 * m.exit_extra
            &&& w == 2 * m.entry_half + 2 * m.exit_extra || -1 <= w - m.panel_w - 2 * m.exit_extra
                <= 1
            &&& -1 <= (e.left + e.right) - (bounds.left + bounds.right) <= 1
        }),
{
}

/// While it is shown, the panel covers its width from the margin on, from where the window has
/// slid to, but not above the display.
pub proof fn what_the_panel_covers(g: Geometry, cur_y: i32)
    requires
        area_fits(Some(g), true, cur_y),
    ensures
        panel_area(None, true, cur_y) is None,
        panel_area(Some(g), false, cur_y) is None,
        panel_area(Some(g), true, cur_y) matches Some(r) && r.left == g.x + g.margin && r.right
            - r.left == g.panel_w && r.bottom == cur_y + g.panel_h && r.top >= cur_y && r.top
            >= g.shown_y && (r.top == cur_y || r.top == g.shown_y),
{
}

/// The tracker is told of the zones, of the panel and of the pin as they are.
pub proof fn what_the_tracker_is_told(p: Panel, cursor: (i32, i32), suppressed: bool)
    requires
        p.geo is Some,
    ensures
        ({
            let i = p.input(cursor, suppressed);
            &&& i.cursor == cursor
            &&& i.entry == p.geo->0.entry
            &&& i.exit == p.geo->0.exit
            &&& i.panel == panel_area(p.geo, p.shown, p.cur_y)
            &&& i.suppressed == suppressed
            &&& i.pinned == p.expanded
        }),
{
}

/// The window follows the tracker. Without an action it turns round if it slides out although
/// the panel should stay, and slides out if it stands there although it should not.
pub proof fn how_the_window_follows(p: Panel, state: State)
    requires
        p.geo is Some,
    ensures
        p.reaction(state, Action::Show) is StartShow,
        p.reaction(state, Action::Hide) is StartHide,
        ({
            let wanted = state is Visible || state is Leaving;
            let sliding_out = p.anim matches Some(a) && a.to == p.geo->0.hidden_y;
            let standing = p.anim is None && p.cur_y == p.geo->0.shown_y;
            let r = p.reaction(state, Action::Nothing);
            &&& r is StartShow <==> p.shown && wanted && sliding_out
            &&& r is StartHide <==> p.shown && !wanted && standing
            &&& !p.shown ==> r is Stay
        }),
{
}

/// A panel of any size up to a million pixels fits a display within a million pixels of the
/// origin, and so does what it covers.
pub proof fn panels_of_any_usual_size_fit(bounds: Rect, m: Measures, shown: bool, cur_y: i32)
    requires
        -1_000_000 <= bounds.left <= 1_000_000,
        -1_000_000 <= bounds.right <= 1_000_000,
        -1_000_000 <= bounds.top <= 1_000_000,
        0 <= m.panel_w <= 1_000_000,
        0 <= m.panel_h <= 1_000_000,
        0 <= m.margin <= 1_000_000,
        0 <= m.entry_half <= 1_000_000,
        0 <= m.entry_height <= 1_000_000,
        0 <= m.exit_extra <= 1_000_000,
        0 <= m.exit_below <= 1_000_000,
        -10_000_000 <= cur_y <= 10_000_000,
    ensures
        geometry_fits(bounds, m),
        area_fits(Some(geometry_of(bounds, m)), shown, cur_y),
        area_fits(None, shown, cur_y),
{
}

/// A number fits a coordinate if it has 32 bits.
pub proof fn which_numbers_are_coordinates(n: int)
    ensures
        coordinate(n) <==> -0x8000_0000 <= n <= 0x7fff_ffff,
{
}

} // verus!
