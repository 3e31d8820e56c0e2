use usage_core::time::{Duration, Instant};
use usage_core::tracker::{Action, Input, Rect, State, Tracker};

fn start() -> Instant {
    Instant { nanos: 5_000_000_000 }
}

fn later(t: Instant, ms: u64) -> Instant {
    Instant { nanos: t.nanos + ms as u128 * 1_000_000 }
}

fn zones() -> (Rect, Rect) {
    let entry = Rect { left: 800, top: 0, right: 1120, bottom: 4 };
    let exit = Rect { left: 700, top: 0, right: 1220, bottom: 160 };
    (entry, exit)
}

fn input(cursor: (i32, i32), panel: Option<Rect>) -> Input {
    let (entry, exit) = zones();
    Input { cursor, entry, exit, panel, suppressed: false, pinned: false }
}

fn ms(n: u64) -> Duration {
    Duration::from_millis(n)
}

#[test]
fn passing_through_does_not_show() {
    let mut t = Tracker::new(ms(200), ms(400));
    let t0 = start();
    assert_eq!(t.tick(t0, &input((900, 1), None)), Action::Nothing);
    assert_eq!(t.tick(later(t0, 100), &input((900, 300), None)), Action::Nothing);
    assert_eq!(t.state, State::Hidden);
}

#[test]
fn dwell_then_show() {
    let mut t = Tracker::new(ms(200), ms(400));
    let t0 = start();
    t.tick(t0, &input((900, 1), None));
    assert_eq!(t.tick(later(t0, 150), &input((905, 2), None)), Action::Nothing);
    assert_eq!(t.tick(later(t0, 210), &input((905, 2), None)), Action::Show);
    assert!(t.is_visible());
}

#[test]
fn hysteresis_keeps_panel_open_in_exit_zone_and_over_panel() {
    let mut t = Tracker::new(ms(200), ms(400));
    let t0 = start();
    t.tick(t0, &input((900, 1), None));
    t.tick(later(t0, 250), &input((900, 1), None));
    let panel = Rect { left: 790, top: 0, right: 1130, bottom: 120 };
    // Inside exit zone but outside entry zone: still visible.
    assert_eq!(t.tick(later(t0, 300), &input((720, 150), Some(panel))), Action::Nothing);
    assert_eq!(t.state, State::Visible);
    // Over the panel body: still visible.
    assert_eq!(t.tick(later(t0, 350), &input((1000, 100), Some(panel))), Action::Nothing);
    assert_eq!(t.state, State::Visible);
}

#[test]
fn leave_then_hide_after_delay_and_reentry_cancels() {
    let mut t = Tracker::new(ms(200), ms(400));
    let t0 = start();
    t.tick(t0, &input((900, 1), None));
    t.tick(later(t0, 250), &input((900, 1), None));
    // Move far away.
    assert_eq!(t.tick(later(t0, 300), &input((100, 900), None)), Action::Nothing);
    assert!(matches!(t.state, State::Leaving { .. }));
    // Come back before the delay: cancel.
    assert_eq!(t.tick(later(t0, 500), &input((900, 50), None)), Action::Nothing);
    assert_eq!(t.state, State::Visible);
    // Leave for good.
    t.tick(later(t0, 600), &input((100, 900), None));
    assert_eq!(t.tick(later(t0, 900), &input((100, 900), None)), Action::Nothing);
    assert_eq!(t.tick(later(t0, 1001), &input((100, 900), None)), Action::Hide);
    assert_eq!(t.state, State::Hidden);
}

#[test]
fn suppressed_never_shows_and_hides_visible() {
    let mut t = Tracker::new(ms(200), ms(400));
    let t0 = start();
    let mut i = input((900, 1), None);
    i.suppressed = true;
    t.tick(t0, &i);
    t.tick(later(t0, 500), &i);
    assert_eq!(t.state, State::Hidden);

    let mut t = Tracker::new(ms(200), ms(400));
    t.tick(t0, &input((900, 1), None));
    t.tick(later(t0, 250), &input((900, 1), None));
    assert!(t.is_visible());
    let mut i = input((900, 1), None);
    i.suppressed = true;
    t.tick(later(t0, 300), &i);
    assert!(matches!(t.state, State::Leaving { .. }));
    assert_eq!(t.tick(later(t0, 800), &i), Action::Hide);
}

#[test]
fn pinned_never_auto_hides() {
    let mut t = Tracker::new(ms(200), ms(400));
    let t0 = start();
    t.tick(t0, &input((900, 1), None));
    t.tick(later(t0, 250), &input((900, 1), None));
    let mut i = input((100, 900), None);
    i.pinned = true;
    for k in 0..50 {
        assert_eq!(t.tick(later(t0, 300 + k * 100), &i), Action::Nothing);
    }
    assert_eq!(t.state, State::Visible);
    i.pinned = false;
    t.tick(later(t0, 6000), &i);
    assert_eq!(t.tick(later(t0, 6500), &i), Action::Hide);
}

#[test]
fn rect_sizes_and_edges() {
    let r = Rect { left: -10, top: 5, right: 30, bottom: 25 };
    assert_eq!(r.width(), 40);
    assert_eq!(r.height(), 20);
    assert!(r.contains(-10, 5));
    assert!(r.contains(29, 24));
    assert!(!r.contains(30, 24));
    assert!(!r.contains(29, 25));
}

#[test]
fn show_needs_the_whole_dwell_and_hide_the_whole_delay() {
    let mut t = Tracker::new(ms(200), ms(400));
    let t0 = start();
    t.tick(t0, &input((900, 1), None));
    assert_eq!(t.tick(later(t0, 199), &input((900, 1), None)), Action::Nothing);
    assert_eq!(t.tick(later(t0, 200), &input((900, 1), None)), Action::Show);
    t.tick(later(t0, 300), &input((100, 900), None));
    assert_eq!(t.tick(later(t0, 699), &input((100, 900), None)), Action::Nothing);
    assert_eq!(t.tick(later(t0, 700), &input((100, 900), None)), Action::Hide);
}

#[test]
fn reset_hides() {
    let mut t = Tracker::new(ms(0), ms(400));
    let t0 = start();
    t.tick(t0, &input((900, 1), None));
    assert_eq!(t.tick(t0, &input((900, 1), None)), Action::Show);
    t.reset();
    assert_eq!(t.state, State::Hidden);
    assert!(!t.is_visible());
    assert_eq!(t.dwell, ms(0));
}

#[test]
fn a_clock_that_runs_backwards_counts_as_no_time() {
    let mut t = Tracker::new(ms(1), ms(400));
    let t0 = start();
    t.tick(t0, &input((900, 1), None));
    let before = Instant { nanos: t0.nanos - 1_000_000_000 };
    assert_eq!(t.tick(before, &input((900, 1), None)), Action::Nothing);
}
