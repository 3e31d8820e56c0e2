use usage_core::render::{layout, Area, Edge, Font, Item, Tone};
use usage_core::view::{BarRow, BarState, ViewModel};

fn row(pct: Option<f64>, state: BarState) -> BarRow<f64> {
    BarRow { label: "Label".into(), right: "right".into(), pct, state }
}

fn model(bars: Vec<BarRow<f64>>, expanded: bool) -> ViewModel<f64> {
    ViewModel {
        bars,
        today: "today".into(),
        today_sub: "sub".into(),
        footer: "footer".into(),
        footer_warn: false,
        detail: vec![
            (String::new(), "Header".into()),
            ("left".into(), "right".into()),
        ],
        expanded,
    }
}

fn whole_line(top: u128) -> Area {
    Area { left: Edge::Left(0), right: Edge::Right(0), top, bottom: top + 17 }
}

fn text(text: &str, font: Font, area: Area, tone: Tone) -> Item<f64> {
    Item::Text { text: text.into(), font, area, tone }
}

#[test]
fn collapsed_panel_is_laid_out() {
    let vm = model(vec![row(Some(42.0), BarState::Fresh)], false);
    let track = Area { left: Edge::Left(0), right: Edge::Right(46), top: 37, bottom: 45 };
    let figure = Area { left: Edge::Right(46), right: Edge::Right(0), top: 29, bottom: 53 };
    let label = Area { left: Edge::Left(0), right: Edge::Right(60), top: 14, bottom: 32 };
    let right = Area { left: Edge::Left(90), right: Edge::Right(0), top: 15, bottom: 32 };
    assert_eq!(
        layout(&vm),
        vec![
            text("Label", Font::Label, label, Tone::Text),
            text("right", Font::LabelRight, right, Tone::Muted),
            Item::Track { area: track },
            Item::Level { pct: 42.0, area: track, stale: false },
            Item::Figure { pct: 42.0, area: figure, tone: Tone::Text },
            text("today", Font::Body, whole_line(66), Tone::Text),
            text("sub", Font::Small, whole_line(83), Tone::Muted),
            text("footer", Font::Small, whole_line(106), Tone::Muted),
        ]
    );
}

#[test]
fn expanded_panel_shows_its_rows() {
    let mut vm = model(vec![], true);
    vm.footer_warn = true;
    let left = Area { right: Edge::Left(110), ..whole_line(79) };
    let right = Area { left: Edge::Left(100), ..whole_line(79) };
    assert_eq!(
        layout(&vm),
        vec![
            text("today", Font::Body, whole_line(22), Tone::Text),
            text("sub", Font::Small, whole_line(39), Tone::Muted),
            text("Header", Font::Header, whole_line(62), Tone::Accent),
            text("left", Font::Body, left, Tone::Text),
            text("right", Font::BodyRight, right, Tone::Muted),
            text("footer", Font::Small, whole_line(102), Tone::Warning),
        ]
    );
}

#[test]
fn bars_without_a_current_reading() {
    let vm = model(
        vec![
            row(Some(95.0), BarState::Stale),
            row(None, BarState::Expired),
            row(None, BarState::Missing),
        ],
        false,
    );
    let items = layout(&vm);
    let tones: Vec<Tone> = items
        .iter()
        .filter_map(|i| match i {
            Item::Text { tone, .. } | Item::Figure { tone, .. } => Some(*tone),
            _ => None,
        })
        .collect();
    assert_eq!(
        &tones[..9],
        &[
            Tone::Muted, Tone::Muted, Tone::Muted, Tone::Muted, Tone::Missing, Tone::Muted,
            Tone::Muted, Tone::Missing, Tone::Muted
        ]
    );
    assert!(matches!(items[3], Item::Level { stale: true, .. }));
    assert!(matches!(&items[8], Item::Text { text, font: Font::Figure, .. } if text == "--"));
    // The second bar begins a row further down.
    assert!(matches!(&items[5], Item::Text { area, .. } if area.top == 58));
}

#[test]
fn nothing_is_drawn_below_the_panel() {
    for expanded in [false, true] {
        let vm = model(vec![row(Some(1.0), BarState::Fresh), row(None, BarState::Missing)], expanded);
        let height = vm.height();
        for item in layout(&vm) {
            let area = match item {
                Item::Text { area, .. }
                | Item::Track { area }
                | Item::Level { area, .. }
                | Item::Figure { area, .. } => area,
            };
            assert!(area.top < area.bottom && area.bottom <= height);
        }
    }
}
