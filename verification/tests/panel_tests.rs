use usage_core::monitors::{mark_internal, select, Monitor};
use usage_core::panel::{
    geometry, half_of, has_geometry, poll_period, recent_suppression, settings_check_due, Measures,
    Move, Panel, SettingsWatch, Slide,
};
use usage_core::product;
use usage_core::settings::Settings;
use usage_core::settings_ui::{
    apply_form, centred, command_of, controls, display_items, moved_slider, range_param,
    selected_item, tick_step, value_text, wide, Command, Control, ControlKind, Form, PageValues,
    ID_ANIM, ID_AUTO_REFRESH, ID_CANCEL, ID_DWELL, ID_HIDE, ID_OPACITY, ID_OPEN_FILE, ID_SAVE,
    ID_SHOW_DAILY, ID_WIDTH, ID_ZONE, WIN_H, WIN_W,
};
use usage_core::time::{Duration, Instant};
use usage_core::tracker::{Rect, State};

fn monitor(device: &str, primary: bool, internal: bool) -> Monitor {
    let bounds = Rect { left: 0, top: 0, right: 1920, bottom: 1080 };
    Monitor { handle: 1, device: device.into(), bounds, work: bounds, primary, internal, dpi: 96 }
}

#[test]
fn displays_by_setting() {
    let list = vec![
        monitor("\\\\.\\DISPLAY1", false, false),
        monitor("\\\\.\\DISPLAY2", true, false),
        monitor("\\\\.\\DISPLAY3", false, true),
    ];
    let pick = |setting: &str| select(&list, setting).unwrap().device.clone();
    assert_eq!(pick("primary"), "\\\\.\\DISPLAY2");
    assert_eq!(pick("internal"), "\\\\.\\DISPLAY3");
    assert_eq!(pick("\\\\.\\display1"), "\\\\.\\DISPLAY1");
    assert_eq!(pick("other"), "\\\\.\\DISPLAY2");
    assert_eq!(select(&list[..1], "internal").unwrap().device, "\\\\.\\DISPLAY1");
    assert_eq!(select(&list[..2], "internal").unwrap().device, "\\\\.\\DISPLAY2");
    assert!(select(&[], "primary").is_none());
    // The words are taken literally.
    assert_eq!(pick("PRIMARY"), "\\\\.\\DISPLAY2");
    assert_eq!(pick("INTERNAL"), "\\\\.\\DISPLAY2");
}

#[test]
fn internal_displays_are_marked() {
    let list = vec![monitor("A1", false, true), monitor("b2", true, false)];
    let r = mark_internal(list, &vec!["B2".to_string()]);
    assert!(!r[0].internal && r[1].internal && r[1].primary);
    assert_eq!(r[1].device, "b2");
}

fn measures() -> Measures {
    Measures {
        margin: 28,
        panel_w: 340,
        panel_h: 200,
        entry_half: 172,
        entry_height: 3,
        exit_extra: 115,
        exit_below: 40,
    }
}

fn screen() -> Rect {
    Rect { left: 0, top: 0, right: 1920, bottom: 1080 }
}

#[test]
fn the_panel_hangs_from_the_middle_of_the_top_edge() {
    let g = geometry(screen(), measures());
    assert_eq!((g.win_w, g.win_h), (396, 228));
    assert_eq!((g.x, g.shown_y, g.hidden_y), (762, 0, -228));
    assert_eq!(g.entry, Rect { left: 788, top: 0, right: 1132, bottom: 3 });
    assert_eq!(g.exit, Rect { left: 673, top: 0, right: 1247, bottom: 240 });
    // A zone is at least a pixel high, and a wide panel makes the exit zone wide.
    let m = Measures { entry_height: 0, panel_w: 600, ..measures() };
    let left = Rect { left: -1921, top: -10, right: 0, bottom: 1070 };
    let g = geometry(left, m);
    assert_eq!(g.entry.bottom, -9);
    assert_eq!((g.exit.left, g.exit.right), (-960 - 415, -960 + 415));
}

#[test]
fn geometry_that_does_not_fit() {
    assert!(has_geometry(screen(), measures()));
    assert!(!has_geometry(screen(), Measures { margin: i32::MAX, ..measures() }));
    assert!(!has_geometry(Rect { top: i32::MIN, ..screen() }, measures()));
    assert_eq!((half_of(-3), half_of(3), half_of(-4)), (-1, 1, -2));
}

fn ms(n: u128) -> Instant {
    Instant { nanos: n * 1_000_000 }
}

fn panel() -> Panel {
    let mut p = Panel::new(Duration::from_millis(200), Duration::from_millis(450));
    p.geo = Some(geometry(screen(), measures()));
    p
}

fn shown_panel() -> Panel {
    let mut p = panel();
    assert!(p.can_poll());
    assert_eq!(p.poll(ms(0), (960, 1), false), Move::Stay);
    assert_eq!(p.poll(ms(200), (960, 1), false), Move::StartShow);
    assert!(p.prepare_show());
    assert_eq!(p.cur_y, -228);
    assert!(p.start_show(ms(200), Duration::from_millis(180)));
    assert_eq!(p.anim_tick(-100, false), Slide::Moving);
    assert_eq!(p.anim_tick(0, true), Slide::Arrived);
    assert!(p.shown && p.anim.is_none());
    p
}

#[test]
fn a_panel_comes_and_goes() {
    let mut p = shown_panel();
    assert_eq!(p.panel_rect(), Some(Rect { left: 790, top: 0, right: 1130, bottom: 200 }));
    assert_eq!(p.poll(ms(500), (10, 900), false), Move::Stay);
    assert!(matches!(p.tracker.state, State::Leaving { .. }));
    assert_eq!(p.poll(ms(950), (10, 900), false), Move::StartHide);
    assert!(p.start_hide(ms(950), Duration::from_millis(180)));
    assert_eq!(p.anim.unwrap().to, -228);
    assert_eq!(p.anim_tick(-228, true), Slide::Hidden);
    assert!(!p.shown && p.geo.is_some());
    assert_eq!(p.panel_rect(), None);
    assert!(!p.start_hide(ms(999), Duration::from_millis(180)));
    assert_eq!(p.anim_tick(0, true), Slide::Idle);
}

#[test]
fn a_slide_out_is_reversed() {
    let mut p = shown_panel();
    p.start_hide(ms(950), Duration::from_millis(180));
    assert_eq!(p.poll(ms(960), (960, 1), false), Move::StartShow);
    assert!(!p.start_show(ms(960), Duration::from_millis(180)));
    assert_eq!(p.anim.unwrap().to, 0);
    // A panel in place that should not be there is taken away.
    let mut p = shown_panel();
    p.tracker.reset();
    assert_eq!(p.poll(ms(960), (10, 900), false), Move::StartHide);
}

#[test]
fn an_expanded_panel_stays_until_it_is_dismissed() {
    let mut p = shown_panel();
    assert!(p.toggle_expanded());
    for t in 1..50u128 {
        assert_eq!(p.poll(ms(1000 * t), (10, 900), true), Move::Stay);
    }
    assert!(p.hide_now());
    assert!(!p.shown && !p.expanded && p.anim.is_none() && p.geo.is_some());
    assert_eq!(p.tracker.state, State::Hidden);
    let mut p = shown_panel();
    p.toggle_expanded();
    p.start_hide(ms(0), Duration::from_millis(0));
    assert_eq!(p.anim_tick(-228, true), Slide::Hidden);
    assert!(!p.expanded && p.geo.is_none());
    let mut p = shown_panel();
    assert!(p.on_display_change());
    assert!(p.geo.is_none() && !p.can_poll() && !p.prepare_show());
}

#[test]
fn where_suppression_matters() {
    let mut p = panel();
    assert!(p.near(960, 100));
    assert!(!p.near(10, 900));
    p.poll(ms(0), (960, 1), false);
    assert!(p.near(10, 900));
    assert_eq!(p.poll(ms(500), (960, 1), true), Move::Stay);
    assert_eq!(p.tracker.state, State::Hidden);
    assert_eq!(recent_suppression(ms(0), true, ms(249)), Some(true));
    assert_eq!(recent_suppression(ms(0), true, ms(250)), None);
}

#[test]
fn new_settings_are_taken_over() {
    let mut p = shown_panel();
    assert!(p.apply_settings(5, 6));
    assert_eq!(p.tracker.dwell, Duration::from_millis(5));
    assert_eq!(p.tracker.hide_delay, Duration::from_millis(6));
    assert!(p.geo.is_none() && p.shown);
    assert!(!settings_check_due(ms(0), ms(1999)));
    assert!(settings_check_due(ms(0), ms(2000)));
    assert_eq!((poll_period(3), poll_period(15), poll_period(40)), (15, 15, 40));
}

#[test]
fn texts_of_the_sliders() {
    assert_eq!(value_text(ID_OPACITY, 95), "95%");
    assert_eq!(value_text(ID_DWELL, 200), "200 ms");
    assert_eq!(value_text(ID_HIDE, 0), "0 ms");
    assert_eq!(value_text(ID_ANIM, 180), "180 ms");
    assert_eq!(value_text(ID_ZONE, 18), "18% of width");
    assert_eq!(value_text(ID_WIDTH, 340), "340 px");
    assert_eq!(value_text(1, -7), "-7");
    assert_eq!(value_text(1, i32::MIN), "-2147483648");
}

#[test]
fn wide_strings_end_in_zero() {
    for s in ["", "abc", "ä€", "x😀\u{10ffff}"] {
        let mut units: Vec<u16> = s.encode_utf16().collect();
        units.push(0);
        assert_eq!(wide(s), units);
    }
}

#[test]
fn the_list_of_displays() {
    let mut wide_screen = monitor("D2", true, true);
    wide_screen.bounds = Rect { left: -100, top: 5, right: 100, bottom: 105 };
    let items = display_items(&vec![monitor("D1", false, false), wide_screen]);
    let labels: Vec<(&str, &str)> =
        items.iter().map(|i| (i.label.as_str(), i.value.as_str())).collect();
    assert_eq!(
        labels,
        [
            ("Laptop display (internal)", "internal"),
            ("Primary display", "primary"),
            ("D1  1920x1080", "D1"),
            ("D2  200x100  (internal)  (primary)", "D2"),
        ]
    );
    assert_eq!(selected_item(&items, "Primary"), 1);
    assert_eq!(selected_item(&items, "d2"), 3);
    assert_eq!(selected_item(&items, "gone"), 0);
    let twice = display_items(&vec![monitor("D", false, false), monitor("d", false, false)]);
    assert_eq!(selected_item(&twice, "D"), 3);
}

#[test]
fn saving_the_form() {
    let items = display_items(&vec![monitor("D1", false, false)]);
    let mut s = Settings::defaults(1, 2, "id".to_string());
    let form = Form {
        dwell: 10,
        hide: 20,
        width: 400,
        anim: 30,
        display: 2,
        run_at_login: true,
        auto_refresh: false,
    };
    apply_form(&mut s, &form, &items);
    assert_eq!((s.dwell_ms, s.hide_delay_ms, s.panel_width_px, s.animation_ms), (10, 20, 400, 30));
    assert_eq!(s.display, "D1");
    assert!(s.run_at_login && !s.auto_refresh_token);
    assert_eq!((s.hot_zone_width_fraction, s.poll_ms), (1, 40));
    apply_form(&mut s, &Form { display: -1, ..form }, &items);
    assert_eq!(s.display, "D1");
    apply_form(&mut s, &Form { display: 3, ..form }, &items);
    assert_eq!(s.display, "D1");
    apply_form(&mut s, &Form { display: 1, ..form }, &items);
    assert_eq!(s.display, "primary");
}

#[test]
fn numbers_for_the_controls() {
    assert_eq!(range_param(30, 100), (100 << 16) | 30);
    assert_eq!(tick_step(30, 100), 7);
    assert_eq!(tick_step(4, 9), 1);
    let work = Rect { left: 10, top: 0, right: 1290, bottom: 700 };
    assert_eq!(centred(work, 560, 536), (370, 82));
    assert_eq!(centred(work, 1283, 703), (9, -1));
}

#[test]
fn geometry_is_taken_over_once() {
    let mut p = Panel::new(Duration::from_millis(200), Duration::from_millis(450));
    assert!(!p.ensure_geometry(None));
    let g = geometry(screen(), measures());
    assert!(p.ensure_geometry(Some(g)));
    assert_eq!((p.geo, p.cur_y), (Some(g), g.hidden_y));
    p.cur_y = 7;
    let taller = geometry(screen(), Measures { panel_h: 300, ..measures() });
    assert!(p.ensure_geometry(Some(taller)));
    assert_eq!((p.geo, p.cur_y), (Some(g), 7));
    assert!(p.ensure_geometry(None));
    p.resize(taller);
    assert_eq!((p.geo, p.cur_y), (Some(taller), 7));
}

#[test]
fn settings_are_watched() {
    let mut w = SettingsWatch { mtime: None, version: 0 };
    assert!(!w.see_file(None));
    assert!(w.see_file(Some(5)));
    assert!(!w.see_file(Some(5)));
    assert!(w.see_file(Some(-5)));
    assert!(w.see_file(None));
    assert!(!w.see_version(0));
    assert!(w.see_version(2));
    assert!(!w.see_version(2));
    assert_eq!(w, SettingsWatch { mtime: None, version: 2 });
}

fn values() -> PageValues {
    PageValues {
        opacity: 97,
        dwell: 200,
        hide: 450,
        zone: 18,
        width: 340,
        anim: 180,
        show_credits: true,
        show_model_windows: true,
        show_today: true,
        show_breakdown: true,
        show_by_model: true,
        show_daily: false,
        run_at_login: false,
        auto_refresh: true,
    }
}

#[test]
fn settings_page_is_laid_out() {
    let page = controls(&values());
    assert_eq!(page.len(), 33);
    assert_eq!(
        page[1],
        Control {
            kind: ControlKind::Slider { range: 100 * 65_536 + 30, page: 5, ticks: 7, pos: 97 },
            text: String::new(),
            id: ID_OPACITY,
            x: 175,
            y: 16,
            w: 250,
            h: 30,
        }
    );
    assert_eq!((page[2].text.as_str(), page[2].id, page[2].y), ("97%", ID_OPACITY + 50, 22));
    assert_eq!(page[10].id, ID_ZONE);
    assert_eq!(page[11].text, "18% of width");
    let by_id = |id: i32| page.iter().find(|c| c.id == id).unwrap();
    assert_eq!(by_id(ID_SHOW_DAILY).kind, ControlKind::Check { on: false });
    assert_eq!(
        by_id(ID_AUTO_REFRESH).text,
        format!("Renew {} Code token automatically", product::title())
    );
    assert_eq!(by_id(ID_SAVE).kind, ControlKind::DefaultButton);
    assert_eq!((by_id(ID_SAVE).x, by_id(ID_SAVE).y), (445, 472));
    for (i, c) in page.iter().enumerate() {
        assert!(c.x + c.w <= WIN_W && c.y + c.h <= WIN_H);
        assert!(c.id == 0 || page[i + 1..].iter().all(|d| d.id != c.id));
    }
}

#[test]
fn controls_of_the_page_do_what_they_say() {
    assert_eq!(command_of(ID_SAVE), Command::SaveAndClose);
    assert_eq!(command_of(ID_CANCEL), Command::Close);
    assert_eq!(command_of(ID_OPEN_FILE), Command::OpenFile);
    assert_eq!(command_of(ID_DWELL), Command::Ignore);
    assert_eq!(moved_slider(ID_DWELL, 50), Some((ID_DWELL + 50, "50 ms".to_string())));
    assert_eq!(moved_slider(ID_ANIM, 0), Some((ID_ANIM + 50, "0 ms".to_string())));
    assert_eq!(moved_slider(ID_ANIM + 1, 0), None);
    assert_eq!(moved_slider(ID_OPACITY - 1, 0), None);
}
