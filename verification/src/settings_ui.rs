//! The settings page without a window system: what its controls show and what saving them
//! changes.

use vstd::prelude::*;

use crate::monitors::Monitor;
use crate::panel::{half, half_of};
use crate::product;
use crate::settings::Settings;
use crate::text::{
    chars_of, same_ignoring_case, signed_decimal, signed_decimal_of, str_eq_ignoring_case,
};
use crate::tracker::Rect;

verus! {

// Control ids.
pub const ID_OPACITY: i32 = 101;

pub const ID_DWELL: i32 = 102;

pub const ID_HIDE: i32 = 103;

pub const ID_ZONE: i32 = 104;

pub const ID_WIDTH: i32 = 105;

pub const ID_ANIM: i32 = 106;

/// How far the id of a slider's text is from that of the slider.
pub const VALUE_LABEL_OFFSET: i32 = 50;

pub const ID_DISPLAY: i32 = 110;

pub const ID_SHOW_CREDITS: i32 = 121;

pub const ID_SHOW_MODEL_WINDOWS: i32 = 122;

pub const ID_SHOW_TODAY: i32 = 123;

pub const ID_SHOW_BREAKDOWN: i32 = 124;

pub const ID_SHOW_BY_MODEL: i32 = 125;

pub const ID_SHOW_DAILY: i32 = 126;

pub const ID_RUN_AT_LOGIN: i32 = 127;

pub const ID_AUTO_REFRESH: i32 = 128;

pub const ID_SAVE: i32 = 201;

pub const ID_CANCEL: i32 = 202;

pub const ID_OPEN_FILE: i32 = 203;

/// Size of the window in logical pixels.
pub const WIN_W: u32 = 560;

pub const WIN_H: u32 = 536;

/// The unit of a slider.
pub open spec fn unit_of(id: i32) -> Seq<char> {
    if id == ID_OPACITY {
        "%"@
    } else if id == ID_DWELL || id == ID_HIDE || id == ID_ANIM {
        " ms"@
    } else if id == ID_ZONE {
        "% of width"@
    } else if id == ID_WIDTH {
        " px"@
    } else {
        Seq::empty()
    }
}

/// The text beside a slider.
pub fn value_text(id: i32, pos: i32) -> (r: String)
    ensures
        r@ == signed_decimal(pos as int) + unit_of(id),
{
    let mut s = signed_decimal_of(pos as i64);
    if id == ID_OPACITY {
        s.append("%");
    } else if id == ID_DWELL || id == ID_HIDE || id == ID_ANIM {
        s.append(" ms");
    } else if id == ID_ZONE {
        s.append("% of width");
    } else if id == ID_WIDTH {
        s.append(" px");
    }
    assert(s@ =~= signed_decimal(pos as int) + unit_of(id));
    s
}

/// The UTF-16 units of a character.
pub open spec fn utf16(c: char) -> Seq<u16> {
    let n = c as u32;
    if n < 0x1_0000 {
        seq![n as u16]
    } else {
        seq![
            (0xD800 + (n - 0x1_0000) / 0x400) as u16,
            (0xDC00 + (n - 0x1_0000) % 0x400) as u16,
        ]
    }
}

/// The UTF-16 units of a text.
pub open spec fn utf16_text(s: Seq<char>) -> Seq<u16>
    decreases s.len(),
{
    if s.len() == 0 {
        Seq::empty()
    } else {
        utf16_text(s.drop_last()) + utf16(s.last())
    }
}

/// The text in UTF-16, with a zero at its end.
pub fn wide(s: &str) -> (r: Vec<u16>)
    ensures
        r@ == utf16_text(s@).push(0),
{
    let chars = chars_of(s);
    let mut out: Vec<u16> = Vec::new();
    let mut i: usize = 0;
    assert(out@ =~= utf16_text(chars@.take(0)));
    while i < chars.len()
        invariant
            i <= chars@.len(),
            out@ == utf16_text(chars@.take(i as int)),
        decreases chars@.len() - i,
    {
        let ghost before = out@;
        let c = chars[i];
        let n: u32 = c as u32;
        if n < 0x1_0000 {
            out.push(n as u16);
        } else {
            out.push((0xD800 + (n - 0x1_0000) / 0x400) as u16);
            out.push((0xDC00 + (n - 0x1_0000) % 0x400) as u16);
        }
        assert(chars@.take(i + 1).drop_last() =~= chars@.take(i as int));
        assert(out@ =~= before + utf16(c));
        i += 1;
    }
    assert(chars@.take(i as int) =~= chars@);
    out.push(0);
    out
}

/// An entry of the list of displays: what it shows and what it stands for.
#[derive(Debug, Clone, PartialEq, Eq)]
pub struct DisplayItem {
    pub label: String,
    pub value: String,
}

/// The views of a list of displays.
pub open spec fn item_views(items: Seq<DisplayItem>) -> Seq<(Seq<char>, Seq<char>)> {
    items.map_values(|i: DisplayItem| (i.label@, i.value@))
}

/// Width and height of a display fit.
pub open spec fn size_fits(m: Monitor) -> bool {
    &&& i32::MIN <= m.bounds.right - m.bounds.left <= i32::MAX
    &&& i32::MIN <= m.bounds.bottom - m.bounds.top <= i32::MAX
}

/// A display in the list: its device and size, and whether it is the internal or the primary
/// one.
pub open spec fn display_label(m: Monitor) -> Seq<char> {
    let name = m.device@ + "  "@ + signed_decimal(m.bounds.right - m.bounds.left) + "x"@
        + signed_decimal(m.bounds.bottom - m.bounds.top);
    let name = if m.internal {
        name + "  (internal)"@
    } else {
        name
    };
    if m.primary {
        name + "  (primary)"@
    } else {
        name
    }
}

/// The list of displays: two choices by kind, and each display by name.
pub open spec fn display_list(monitors: Seq<Monitor>) -> Seq<(Seq<char>, Seq<char>)> {
    seq![
        ("Laptop display (internal)"@, "internal"@),
        ("Primary display"@, "primary"@),
    ] + Seq::new(
        monitors.len(),
        |i: int| (display_label(monitors[i]), monitors[i].device@),
    )
}

fn make_label(m: &Monitor) -> (r: String)
    requires
        size_fits(*m),
    ensures
        r@ == display_label(*m),
{
    let mut name = m.device.clone();
    name.append("  ");
    name.append(signed_decimal_of(m.bounds.width() as i64).as_str());
    name.append("x");
    name.append(signed_decimal_of(m.bounds.height() as i64).as_str());
    if m.internal {
        name.append("  (internal)");
    }
    if m.primary {
        name.append("  (primary)");
    }
    name
}

/// The list of displays to choose from.
pub fn display_items(monitors: &Vec<Monitor>) -> (r: Vec<DisplayItem>)
    requires
        forall|i: int| 0 <= i < monitors@.len() ==> size_fits(#[trigger] monitors@[i]),
    ensures
        item_views(r@) == display_list(monitors@),
{
    let mut items: Vec<DisplayItem> = Vec::new();
    items.push(
        DisplayItem {
            label: "Laptop display (internal)".to_owned(),
            value: "internal".to_owned(),
        },
    );
    items.push(
        DisplayItem { label: "Primary display".to_owned(), value: "primary".to_owned() },
    );
    let ghost all = display_list(monitors@);
    let mut i: usize = 0;
    assert(item_views(items@) =~= all.take(2));
    while i < monitors.len()
        invariant
            i <= monitors@.len(),
            all == display_list(monitors@),
            forall|k: int| 0 <= k < monitors@.len() ==> size_fits(#[trigger] monitors@[k]),
            item_views(items@) =~= all.take(i + 2),
        decreases monitors@.len() - i,
    {
        let m = &monitors[i];
        let item = DisplayItem { label: make_label(m), value: m.device.clone() };
        assert(all[i + 2] == (item.label@, item.value@));
        assert(item_views(items@.push(item)) =~= item_views(items@).push(
            (item.label@, item.value@),
        ));
        items.push(item);
        i += 1;
    }
    assert(all.take(i + 2) =~= all);
    items
}

/// The entry that the setting stands for: the last one of that value, or else the first.
pub open spec fn chosen(items: Seq<(Seq<char>, Seq<char>)>, setting: Seq<char>) -> int
    decreases items.len(),
{
    if items.len() == 0 {
        0
    } else if same_ignoring_case(items.last().1, setting) {
        items.len() - 1
    } else {
        chosen(items.drop_last(), setting)
    }
}

/// The entry to be selected for the setting.
pub fn selected_item(items: &Vec<DisplayItem>, setting: &str) -> (r: usize)
    ensures
        r == chosen(item_views(items@), setting@),
{
    let ghost all = item_views(items@);
    let mut selected: usize = 0;
    let mut i: usize = 0;
    while i < items.len()
        invariant
            i <= items@.len(),
            all == item_views(items@),
            selected == chosen(all.take(i as int), setting@),
        decreases items@.len() - i,
    {
        assert(all.take(i + 1).drop_last() =~= all.take(i as int));
        assert(all.take(i + 1).last() == all[i as int]);
        if str_eq_ignoring_case(items[i].value.as_str(), setting) {
            selected = i;
        }
        i += 1;
    }
    assert(all.take(i as int) =~= all);
    selected
}

/// The range of a slider, packed as its message wants it.
pub fn range_param(min: u16, max: u16) -> (r: u32)
    ensures
        r == max * 0x1_0000 + min,
{
    max as u32 * 0x1_0000 + min as u32
}

/// The distance between the ticks of a slider: a tenth of its range, but at least one.
pub fn tick_step(min: u16, max: u16) -> (r: u16)
    requires
        min <= max,
    ensures
        r == ticks(min, max),
{
    let step: u16 = (max - min) / 10;
    if step >= 1 {
        step
    } else {
        1
    }
}

/// What a control of the page is.
#[derive(Debug, Clone, Copy, PartialEq, Eq, Structural)]
pub enum ControlKind {
    Label,
    Heading,
    Slider {
        /// The range, packed as its message wants it.
        range: u32,
        page: u16,
        ticks: u16,
        pos: i32,
    },
    Choice,
    Check { on: bool },
    Button,
    DefaultButton,
}

/// A control of the page, in logical pixels. A label that never changes has the id zero.
#[derive(Debug, Clone, PartialEq, Eq)]
pub struct Control {
    pub kind: ControlKind,
    pub text: String,
    pub id: i32,
    pub x: u32,
    pub y: u32,
    pub w: u32,
    pub h: u32,
}

/// What a [`Control`] says.
#[verifier::ext_equal]
pub struct ControlView {
    pub kind: ControlKind,
    pub text: Seq<char>,
    pub id: i32,
    pub x: u32,
    pub y: u32,
    pub w: u32,
    pub h: u32,
}

impl View for Control {
    type V = ControlView;

    open spec fn view(&self) -> ControlView {
        ControlView {
            kind: self.kind,
            text: self.text@,
            id: self.id,
            x: self.x,
            y: self.y,
            w: self.w,
            h: self.h,
        }
    }
}

/// The views of a list of controls.
pub open spec fn control_views(list: Seq<Control>) -> Seq<ControlView> {
    list.map_values(|c: Control| c@)
}

/// What the page shows of the settings when it is opened.
#[derive(Debug, Clone, Copy, PartialEq, Eq, Structural)]
pub struct PageValues {
    /// In percent.
    pub opacity: i32,
    pub dwell: i32,
    pub hide: i32,
    /// The width of the hot zone in percent.
    pub zone: i32,
    pub width: i32,
    pub anim: i32,
    pub show_credits: bool,
    pub show_model_windows: bool,
    pub show_today: bool,
    pub show_breakdown: bool,
    pub show_by_model: bool,
    pub show_daily: bool,
    pub run_at_login: bool,
    pub auto_refresh: bool,
}

/// The distance between the ticks of a slider: a tenth of its range, but at least one.
pub open spec fn ticks(min: u16, max: u16) -> int {
    if (max - min) / 10 >= 1 {
        (max - min) / 10
    } else {
        1
    }
}

/// The row of a slider at height `y`: its label, the slider, and the text beside it.
pub open spec fn slider_row(
    y: int,
    label: Seq<char>,
    id: i32,
    range: (u16, u16),
    page: u16,
    pos: i32,
) -> Seq<ControlView> {
    seq![
        ControlView {
            kind: ControlKind::Label,
            text: label,
            id: 0,
            x: 20,
            y: (y + 6) as u32,
            w: 150,
            h: 22,
        },
        ControlView {
            kind: ControlKind::Slider {
                range: (range.1 * 0x1_0000 + range.0) as u32,
                page,
                ticks: ticks(range.0, range.1) as u16,
                pos,
            },
            text: Seq::empty(),
            id,
            x: 175,
            y: y as u32,
            w: 250,
            h: 30,
        },
        ControlView {
            kind: ControlKind::Label,
            text: signed_decimal(pos as int) + unit_of(id),
            id: (id + VALUE_LABEL_OFFSET) as i32,
            x: 435,
            y: (y + 6) as u32,
            w: 110,
            h: 22,
        },
    ]
}

/// A box to tick.
pub open spec fn check_at(x: int, y: int, label: Seq<char>, id: i32, on: bool) -> ControlView {
    ControlView {
        kind: ControlKind::Check { on },
        text: label,
        id,
        x: x as u32,
        y: y as u32,
        w: 250,
        h: 24,
    }
}

/// The heading of a group of boxes.
pub open spec fn heading_at(y: int, text: Seq<char>) -> ControlView {
    ControlView { kind: ControlKind::Heading, text, id: 0, x: 20, y: y as u32, w: 300, h: 22 }
}

/// The sliders, at the top of the page.
pub open spec fn sliders(v: PageValues) -> Seq<ControlView> {
    slider_row(16, "Opacity"@, ID_OPACITY, (30, 100), 5, v.opacity) + slider_row(
        52,
        "Show after (dwell)"@,
        ID_DWELL,
        (0, 1000),
        50,
        v.dwell,
    ) + slider_row(88, "Hide after leaving"@, ID_HIDE, (0, 2000), 50, v.hide) + slider_row(
        124,
        "Hot zone width"@,
        ID_ZONE,
        (4, 60),
        2,
        v.zone,
    ) + slider_row(160, "Panel width"@, ID_WIDTH, (260, 600), 20, v.width) + slider_row(
        196,
        "Slide animation"@,
        ID_ANIM,
        (0, 500),
        20,
        v.anim,
    )
}

/// The choice of a display, below the sliders.
pub open spec fn display_choice() -> Seq<ControlView> {
    seq![
        ControlView {
            kind: ControlKind::Label,
            text: "Display"@,
            id: 0,
            x: 20,
            y: 240,
            w: 150,
            h: 22,
        },
        ControlView {
            kind: ControlKind::Choice,
            text: Seq::empty(),
            id: ID_DISPLAY,
            x: 175,
            y: 236,
            w: 370,
            h: 200,
        },
    ]
}

/// The boxes to tick, in two groups.
pub open spec fn checks(v: PageValues) -> Seq<ControlView> {
    seq![
        heading_at(280, "Show on the panel"@),
        check_at(20, 306, "Usage credits (billed)"@, ID_SHOW_CREDITS, v.show_credits),
        check_at(
            290,
            306,
            "Per-model weekly windows"@,
            ID_SHOW_MODEL_WINDOWS,
            v.show_model_windows,
        ),
        check_at(20, 334, "Today's tokens and cost"@, ID_SHOW_TODAY, v.show_today),
        check_at(
            290,
            334,
            "Weekly window by surface (expanded)"@,
            ID_SHOW_BREAKDOWN,
            v.show_breakdown,
        ),
        check_at(20, 362, "By model, last 7 days (expanded)"@, ID_SHOW_BY_MODEL, v.show_by_model),
        check_at(290, 362, "Last 7 days (expanded)"@, ID_SHOW_DAILY, v.show_daily),
        heading_at(402, "Behaviour"@),
        check_at(20, 428, "Start with Windows"@, ID_RUN_AT_LOGIN, v.run_at_login),
        check_at(
            290,
            428,
            "Renew "@ + product::title_case() + " Code token automatically"@,
            ID_AUTO_REFRESH,
            v.auto_refresh,
        ),
    ]
}

/// A button in the last row.
pub open spec fn button_at(x: int, w: int, kind: ControlKind, label: Seq<char>, id: i32) -> ControlView {
    ControlView { kind, text: label, id, x: x as u32, y: 472, w: w as u32, h: 30 }
}

/// The buttons, at the bottom of the page.
pub open spec fn buttons() -> Seq<ControlView> {
    seq![
        button_at(20, 150, ControlKind::Button, "Open settings.json"@, ID_OPEN_FILE),
        button_at(340, 95, ControlKind::Button, "Cancel"@, ID_CANCEL),
        button_at(445, 95, ControlKind::DefaultButton, "Save"@, ID_SAVE),
    ]
}

/// The controls of the page, in the order of the tab key.
pub open spec fn page_of(v: PageValues) -> Seq<ControlView> {
    sliders(v) + display_choice() + checks(v) + buttons()
}

fn push_control(list: &mut Vec<Control>, c: Control)
    ensures
        control_views(final(list)@) == control_views(old(list)@).push(c@),
{
    assert(control_views(list@.push(c)) =~= control_views(list@).push(c@));
    list.push(c);
}

fn push_slider(
    list: &mut Vec<Control>,
    y: u32,
    label: &str,
    id: i32,
    range: (u16, u16),
    page: u16,
    pos: i32,
)
    requires
        y < 1000,
        100 < id < 200,
        range.0 <= range.1,
    ensures
        control_views(final(list)@) == control_views(old(list)@) + slider_row(
            y as int,
            label@,
            id,
            range,
            page,
            pos,
        ),
{
    push_control(
        list,
        Control {
            kind: ControlKind::Label,
            text: label.to_owned(),
            id: 0,
            x: 20,
            y: y + 6,
            w: 150,
            h: 22,
        },
    );
    push_control(
        list,
        Control {
            kind: ControlKind::Slider {
                range: range_param(range.0, range.1),
                page,
                ticks: tick_step(range.0, range.1),
                pos,
            },
            text: String::new(),
            id,
            x: 175,
            y,
            w: 250,
            h: 30,
        },
    );
    push_control(
        list,
        Control {
            kind: ControlKind::Label,
            text: value_text(id, pos),
            id: id + VALUE_LABEL_OFFSET,
            x: 435,
            y: y + 6,
            w: 110,
            h: 22,
        },
    );
    assert(control_views(list@) =~= control_views(old(list)@) + slider_row(
        y as int,
        label@,
        id,
        range,
        page,
        pos,
    ));
}

fn push_check(list: &mut Vec<Control>, x: u32, y: u32, label: &str, id: i32, on: bool)
    ensures
        control_views(final(list)@) == control_views(old(list)@).push(
            check_at(x as int, y as int, label@, id, on),
        ),
{
    push_control(
        list,
        Control {
            kind: ControlKind::Check { on },
            text: label.to_owned(),
            id,
            x,
            y,
            w: 250,
            h: 24,
        },
    );
}

fn push_heading(list: &mut Vec<Control>, y: u32, text: &str)
    ensures
        control_views(final(list)@) == control_views(old(list)@).push(heading_at(y as int, text@)),
{
    push_control(
        list,
        Control {
            kind: ControlKind::Heading,
            text: text.to_owned(),
            id: 0,
            x: 20,
            y,
            w: 300,
            h: 22,
        },
    );
}

fn push_button(list: &mut Vec<Control>, x: u32, w: u32, kind: ControlKind, label: &str, id: i32)
    ensures
        control_views(final(list)@) == control_views(old(list)@).push(
            button_at(x as int, w as int, kind, label@, id),
        ),
{
    push_control(list, Control { kind, text: label.to_owned(), id, x, y: 472, w, h: 30 });
}

fn push_sliders(list: &mut Vec<Control>, v: &PageValues)
    ensures
        control_views(final(list)@) == control_views(old(list)@) + sliders(*v),
{
    push_slider(list, 16, "Opacity", ID_OPACITY, (30, 100), 5, v.opacity);
    push_slider(list, 52, "Show after (dwell)", ID_DWELL, (0, 1000), 50, v.dwell);
    push_slider(list, 88, "Hide after leaving", ID_HIDE, (0, 2000), 50, v.hide);
    push_slider(list, 124, "Hot zone width", ID_ZONE, (4, 60), 2, v.zone);
    push_slider(list, 160, "Panel width", ID_WIDTH, (260, 600), 20, v.width);
    push_slider(list, 196, "Slide animation", ID_ANIM, (0, 500), 20, v.anim);
    assert(control_views(list@) =~= control_views(old(list)@) + sliders(*v));
}

fn push_checks(list: &mut Vec<Control>, v: &PageValues)
    ensures
        control_views(final(list)@) == control_views(old(list)@) + checks(*v),
{
    push_heading(list, 280, "Show on the panel");
    push_check(list, 20, 306, "Usage credits (billed)", ID_SHOW_CREDITS, v.show_credits);
    push_check(
        list,
        290,
        306,
        "Per-model weekly windows",
        ID_SHOW_MODEL_WINDOWS,
        v.show_model_windows,
    );
    push_check(list, 20, 334, "Today's tokens and cost", ID_SHOW_TODAY, v.show_today);
    push_check(
        list,
        290,
        334,
        "Weekly window by surface (expanded)",
        ID_SHOW_BREAKDOWN,
        v.show_breakdown,
    );
    push_check(
        list,
        20,
        362,
        "By model, last 7 days (expanded)",
        ID_SHOW_BY_MODEL,
        v.show_by_model,
    );
    push_check(list, 290, 362, "Last 7 days (expanded)", ID_SHOW_DAILY, v.show_daily);
    push_heading(list, 402, "Behaviour");
    push_check(list, 20, 428, "Start with Windows", ID_RUN_AT_LOGIN, v.run_at_login);
    let mut renew = "Renew ".to_owned();
    renew.append(product::title().as_str());
    renew.append(" Code token automatically");
    push_check(list, 290, 428, renew.as_str(), ID_AUTO_REFRESH, v.auto_refresh);
    assert(control_views(list@) =~= control_views(old(list)@) + checks(*v));
}

/// The controls of the page, in the order of the tab key.
pub fn controls(v: &PageValues) -> (r: Vec<Control>)
    ensures
        control_views(r@) == page_of(*v),
{
    let mut list: Vec<Control> = Vec::new();
    assert(control_views(list@) =~= Seq::empty());
    push_sliders(&mut list, v);
    push_control(
        &mut list,
        Control {
            kind: ControlKind::Label,
            text: "Display".to_owned(),
            id: 0,
            x: 20,
            y: 240,
            w: 150,
            h: 22,
        },
    );
    push_control(
        &mut list,
        Control {
            kind: ControlKind::Choice,
            text: String::new(),
            id: ID_DISPLAY,
            x: 175,
            y: 236,
            w: 370,
            h: 200,
        },
    );
    assert(control_views(list@) =~= sliders(*v) + display_choice());
    push_checks(&mut list, v);
    push_button(&mut list, 20, 150, ControlKind::Button, "Open settings.json", ID_OPEN_FILE);
    push_button(&mut list, 340, 95, ControlKind::Button, "Cancel", ID_CANCEL);
    push_button(&mut list, 445, 95, ControlKind::DefaultButton, "Save", ID_SAVE);
    assert(control_views(list@) =~= page_of(*v));
    list
}

/// Every control lies within the window.
pub proof fn controls_fit_the_window(v: PageValues, i: int)
    requires
        0 <= i < page_of(v).len(),
    ensures
        page_of(v)[i].x + page_of(v)[i].w <= WIN_W,
        page_of(v)[i].y + page_of(v)[i].h <= WIN_H,
{
    assert(page_of(v).len() == 33);
}

/// No two controls have the same id, but for the labels that never change.
pub proof fn ids_are_distinct(v: PageValues, i: int, j: int)
    requires
        0 <= i < j < page_of(v).len(),
        page_of(v)[i].id != 0,
    ensures
        page_of(v)[i].id != page_of(v)[j].id,
{
    assert(page_of(v).len() == 33);
}

/// What happens when a control is used.
#[derive(Debug, Clone, Copy, PartialEq, Eq, Structural)]
pub enum Command {
    Ignore,
    SaveAndClose,
    Close,
    OpenFile,
}

/// What the control of that id is for.
pub fn command_of(id: i32) -> (r: Command)
    ensures
        r == if id == ID_SAVE {
            Command::SaveAndClose
        } else if id == ID_CANCEL {
            Command::Close
        } else if id == ID_OPEN_FILE {
            Command::OpenFile
        } else {
            Command::Ignore
        },
{
    if id == ID_SAVE {
        Command::SaveAndClose
    } else if id == ID_CANCEL {
        Command::Close
    } else if id == ID_OPEN_FILE {
        Command::OpenFile
    } else {
        Command::Ignore
    }
}

/// The text that is to be renewed when the slider of that id is moved, and its new content.
pub fn moved_slider(id: i32, pos: i32) -> (r: Option<(i32, String)>)
    ensures
        r is Some <==> ID_OPACITY <= id <= ID_ANIM,
        r matches Some(t) ==> t.0 == id + VALUE_LABEL_OFFSET && t.1@ == signed_decimal(pos as int)
            + unit_of(id),
{
    if ID_OPACITY <= id && id <= ID_ANIM {
        Some((id + VALUE_LABEL_OFFSET, value_text(id, pos)))
    } else {
        None
    }
}

/// What the user has entered.
#[derive(Debug, Clone, Copy, PartialEq, Eq, Structural)]
pub struct Form {
    pub dwell: i32,
    pub hide: i32,
    pub width: i32,
    pub anim: i32,
    /// The selected entry of the list of displays; negative if there is none.
    pub display: i64,
    pub run_at_login: bool,
    pub auto_refresh: bool,
}

/// The settings after a form has been saved. Everything that the form does not hold, and the
/// width of the hot zone, which it holds as a percentage, stays as it is.
pub fn apply_form<F>(settings: &mut Settings<F>, form: &Form, items: &Vec<DisplayItem>)
    ensures
        *final(settings) == (Settings {
            dwell_ms: form.dwell as u64,
            hide_delay_ms: form.hide as u64,
            panel_width_px: form.width as u32,
            animation_ms: form.anim as u64,
            display: final(settings).display,
            run_at_login: form.run_at_login,
            auto_refresh_token: form.auto_refresh,
            ..*old(settings)
        }),
        final(settings).display@ == if 0 <= form.display < items@.len() {
            items@[form.display as int].value@
        } else {
            old(settings).display@
        },
{
    settings.dwell_ms = form.dwell as u64;
    settings.hide_delay_ms = form.hide as u64;
    settings.panel_width_px = form.width as u32;
    settings.animation_ms = form.anim as u64;
    if form.display >= 0 && (form.display as u64) < items.len() as u64 {
        settings.display = items[form.display as usize].value.clone();
    }
    settings.run_at_login = form.run_at_login;
    settings.auto_refresh_token = form.auto_refresh;
}

/// The top left corner of a window of that size in the middle of the work area.
pub fn centred(work: Rect, w: i32, h: i32) -> (r: (i64, i64))
    ensures
        r.0 == work.left + half(work.right - work.left - w),
        r.1 == work.top + half(work.bottom - work.top - h),
{
    let free_w: i64 = work.right as i64 - work.left as i64 - w as i64;
    let free_h: i64 = work.bottom as i64 - work.top as i64 - h as i64;
    (work.left as i64 + half_of(free_w), work.top as i64 + half_of(free_h))
}

/// Each slider has a row of its own: its name, its range, and where it stands, with the position
/// and its unit beside it.
pub proof fn what_the_sliders_show(v: PageValues)
    ensures
        ({
            let page = page_of(v);
            &&& page[0].text == "Opacity"@
            &&& page[1].id == 101
            &&& page[1].kind == (ControlKind::Slider {
                range: 6553630,
                page: 5,
                ticks: 7,
                pos: v.opacity,
            })
            &&& page[2].id == 151
            &&& page[2].text == signed_decimal(v.opacity as int) + "%"@
            &&& page[3].text == "Show after (dwell)"@
            &&& page[4].id == 102
            &&& page[4].kind == (ControlKind::Slider {
                range: 65536000,
                page: 50,
                ticks: 100,
                pos: v.dwell,
            })
            &&& page[5].id == 152
            &&& page[5].text == signed_decimal(v.dwell as int) + " ms"@
            &&& page[6].text == "Hide after leaving"@
            &&& page[7].id == 103
            &&& page[7].kind == (ControlKind::Slider {
                range: 131072000,
                page: 50,
                ticks: 200,
                pos: v.hide,
            })
            &&& page[8].id == 153
            &&& page[8].text == signed_decimal(v.hide as int) + " ms"@
            &&& page[9].text == "Hot zone width"@
            &&& page[10].id == 104
            &&& page[10].kind == (ControlKind::Slider {
                range: 3932164,
                page: 2,
                ticks: 5,
                pos: v.zone,
            })
            &&& page[11].id == 154
            &&& page[11].text == signed_decimal(v.zone as int) + "% of width"@
            &&& page[12].text == "Panel width"@
            &&& page[13].id == 105
            &&& page[13].kind == (ControlKind::Slider {
                range: 39321860,
                page: 20,
                ticks: 34,
                pos: v.width,
            })
            &&& page[14].id == 155
            &&& page[14].text == signed_decimal(v.width as int) + " px"@
            &&& page[15].text == "Slide animation"@
            &&& page[16].id == 106
            &&& page[16].kind == (ControlKind::Slider {
                range: 32768000,
                page: 20,
                ticks: 50,
                pos: v.anim,
            })
            &&& page[17].id == 156
            &&& page[17].text == signed_decimal(v.anim as int) + " ms"@
        }),
{
}

/// The rows of the sliders stand below each other at equal distances, with the text of each on
/// the left of the slider and its value on the right.
pub proof fn where_the_sliders_stand(v: PageValues, k: int)
    requires
        0 <= k < 6,
    ensures
        ({
            let label = page_of(v)[3 * k];
            let slider = page_of(v)[3 * k + 1];
            let value = page_of(v)[3 * k + 2];
            &&& label.kind is Label && label.id == 0 && value.kind is Label
            &&& label.x == 20 && slider.x == 175 && value.x == 435
            &&& label.w == 150 && slider.w == 250 && value.w == 110
            &&& slider.y == 16 + 36 * k && label.y == slider.y + 6 && value.y == slider.y + 6
            &&& label.h == 22 && slider.h == 30 && value.h == 22
            &&& slider.text.len() == 0
        }),
{
    let page = page_of(v);
    assert(page.subrange(0, 18) =~= sliders(v));
    assert(k == 0 || k == 1 || k == 2 || k == 3 || k == 4 || k == 5);
}

/// Each box is ticked just if its own setting is on.
pub proof fn what_the_boxes_show(v: PageValues)
    ensures
        ({
            let page = page_of(v);
            &&& page[20].text == "Show on the panel"@
            &&& page[27].text == "Behaviour"@
            &&& page[21].text == "Usage credits (billed)"@
            &&& page[21].id == 121
            &&& page[21].kind == (ControlKind::Check { on: v.show_credits })
            &&& page[22].text == "Per-model weekly windows"@
            &&& page[22].id == 122
            &&& page[22].kind == (ControlKind::Check { on: v.show_model_windows })
            &&& page[23].text == "Today's tokens and cost"@
            &&& page[23].id == 123
            &&& page[23].kind == (ControlKind::Check { on: v.show_today })
            &&& page[24].text == "Weekly window by surface (expanded)"@
            &&& page[24].id == 124
            &&& page[24].kind == (ControlKind::Check { on: v.show_breakdown })
            &&& page[25].text == "By model, last 7 days (expanded)"@
            &&& page[25].id == 125
            &&& page[25].kind == (ControlKind::Check { on: v.show_by_model })
            &&& page[26].text == "Last 7 days (expanded)"@
            &&& page[26].id == 126
            &&& page[26].kind == (ControlKind::Check { on: v.show_daily })
            &&& page[28].text == "Start with Windows"@
            &&& page[28].id == 127
            &&& page[28].kind == (ControlKind::Check { on: v.run_at_login })
            &&& page[29].text == "Renew "@ + product::title_case() + " Code token automatically"@
            &&& page[29].id == 128
            &&& page[29].kind == (ControlKind::Check { on: v.auto_refresh })
        }),
{
}

/// The boxes stand in two columns below their headings.
pub proof fn where_the_boxes_stand(v: PageValues, i: int)
    requires
        20 <= i < 30,
    ensures
        ({
            let c = page_of(v)[i];
            let heading = i == 20 || i == 27;
            let row = if i <= 26 {
                306 + 28 * ((i - 21) / 2)
            } else {
                428
            };
            &&& heading ==> c.kind is Heading && c.id == 0 && c.x == 20 && c.w == 300 && c.h == 22
                && c.y == if i == 20 {
                280int
            } else {
                402
            }
            &&& !heading ==> c.kind is Check && c.w == 250 && c.h == 24 && c.y == row
            &&& !heading && (i == 21 || i == 23 || i == 25 || i == 28) ==> c.x == 20
            &&& !heading && (i == 22 || i == 24 || i == 26 || i == 29) ==> c.x == 290
        }),
{
    assert(i == 20 || i == 21 || i == 22 || i == 23 || i == 24 || i == 25 || i == 26 || i == 27 || i
        == 28 || i == 29);
}

/// The displays are chosen from a list between the sliders and the boxes, and the three buttons
/// stand in a row at the end.
pub proof fn what_else_is_on_the_page(v: PageValues)
    ensures
        ({
            let page = page_of(v);
            &&& page.len() == 33
            &&& page[18].kind is Label && page[18].text == "Display"@ && page[18].id == 0
            &&& page[18].x == 20 && page[18].y == 240 && page[18].w == 150 && page[18].h == 22
            &&& page[19].kind is Choice && page[19].text.len() == 0 && page[19].id == 110
            &&& page[19].x == 175 && page[19].y == 236 && page[19].w == 370 && page[19].h == 200
            &&& page[30].kind is Button && page[30].text == "Open settings.json"@
            &&& page[30].id == 203 && page[30].x == 20 && page[30].w == 150
            &&& page[31].kind is Button && page[31].text == "Cancel"@
            &&& page[31].id == 202 && page[31].x == 340 && page[31].w == 95
            &&& page[32].kind is DefaultButton && page[32].text == "Save"@
            &&& page[32].id == 201 && page[32].x == 445 && page[32].w == 95
            &&& page[30].y == 472 && page[31].y == 472 && page[32].y == 472
            &&& page[30].h == 30 && page[31].h == 30 && page[32].h == 30
        }),
{
}

/// Controls and entries stand for just what they hold.
pub proof fn controls_are_taken_as_they_are(
    c: Control,
    list: Seq<Control>,
    items: Seq<DisplayItem>,
    i: int,
)
    ensures
        c@.kind == c.kind && c@.text == c.text@ && c@.id == c.id,
        c@.x == c.x && c@.y == c.y && c@.w == c.w && c@.h == c.h,
        control_views(list).len() == list.len(),
        0 <= i < list.len() ==> control_views(list)[i] == list[i]@,
        item_views(items).len() == items.len(),
        0 <= i < items.len() ==> item_views(items)[i] == (items[i].label@, items[i].value@),
{
}

/// Each slider has its own unit, and nothing else has one.
pub proof fn which_units_sliders_have(id: i32)
    ensures
        id == 101 ==> unit_of(id) == "%"@,
        id == 102 || id == 103 || id == 106 ==> unit_of(id) == " ms"@,
        id == 104 ==> unit_of(id) == "% of width"@,
        id == 105 ==> unit_of(id) == " px"@,
        id < 101 || id > 106 ==> unit_of(id) == Seq::<char>::empty(),
{
}

/// Ten steps cover the range of a slider, up to what is left of a division by ten, where that is
/// at least one step each.
pub proof fn ticks_are_a_tenth_of_the_range(min: u16, max: u16)
    requires
        min <= max,
    ensures
        max - min >= 10 ==> 10 * ticks(min, max) <= max - min < 10 * ticks(min, max) + 10,
        max - min < 10 ==> ticks(min, max) == 1,
{
}

/// A character reads back from its units: one that fits a unit is that unit, any other is split
/// between a high and a low surrogate.
pub proof fn units_read_back(c: char)
    ensures
        ({
            let u = utf16(c);
            let n = c as u32;
            &&& n < 0x1_0000 ==> u.len() == 1 && u[0] == n
            &&& n >= 0x1_0000 ==> u.len() == 2 && 0xD800 <= u[0] < 0xDC00 && 0xDC00 <= u[1] < 0xE000
                && 0x1_0000 + (u[0] - 0xD800) * 0x400 + (u[1] - 0xDC00) == n
        }),
{
    let n = c as u32;
    assert(n <= 0x10_FFFF);
}

/// The units of a text are those of its characters, in order.
pub proof fn texts_are_written_character_by_character(s: Seq<char>, c: char)
    ensures
        utf16_text(Seq::empty()) == Seq::<u16>::empty(),
        utf16_text(s.push(c)) == utf16_text(s) + utf16(c),
{
    assert(s.push(c).drop_last() =~= s);
}

/// A display is listed with its device and its size, and with a remark just where it is the
/// internal or the primary one.
pub proof fn what_is_listed_of_a_display(m: Monitor)
    ensures
        ({
            let name = m.device@ + "  "@ + signed_decimal(m.bounds.right - m.bounds.left) + "x"@
                + signed_decimal(m.bounds.bottom - m.bounds.top);
            &&& !m.internal && !m.primary ==> display_label(m) == name
            &&& m.internal && !m.primary ==> display_label(m) == name + "  (internal)"@
            &&& !m.internal && m.primary ==> display_label(m) == name + "  (primary)"@
            &&& m.internal && m.primary ==> display_label(m) == name + "  (internal)"@
                + "  (primary)"@
        }),
{
}

/// The internal and the primary display come first, then each display in order, which stands for
/// its device.
pub proof fn which_displays_are_listed(monitors: Seq<Monitor>, i: int)
    ensures
        ({
            let list = display_list(monitors);
            &&& list.len() == monitors.len() + 2
            &&& list[0] == ("Laptop display (internal)"@, "internal"@)
            &&& list[1] == ("Primary display"@, "primary"@)
            &&& 0 <= i < monitors.len() ==> list[i + 2] == (
                display_label(monitors[i]),
                monitors[i].device@,
            )
        }),
{
}

/// The last entry whose value is the setting is chosen, whatever the case of its letters, and the
/// first where there is none.
pub proof fn which_entry_is_chosen(
    items: Seq<(Seq<char>, Seq<char>)>,
    setting: Seq<char>,
    i: int,
)
    ensures
        0 <= i < items.len() && same_ignoring_case(items[i].1, setting) && (forall|k: int|
            i < k < items.len() ==> !same_ignoring_case((#[trigger] items[k]).1, setting)) ==> chosen(
            items,
            setting,
        ) == i,
        (forall|k: int|
            0 <= k < items.len() ==> !same_ignoring_case((#[trigger] items[k]).1, setting))
            ==> chosen(items, setting) == 0,
    decreases items.len(),
{
    if items.len() > 0 {
        let rest = items.drop_last();
        which_entry_is_chosen(rest, setting, i);
        if forall|k: int|
            0 <= k < items.len() ==> !same_ignoring_case((#[trigger] items[k]).1, setting) {
            assert forall|k: int| 0 <= k < rest.len() implies !same_ignoring_case(
                (#[trigger] rest[k]).1,
                setting,
            ) by {
                assert(rest[k] == items[k]);
            }
            assert(!same_ignoring_case(items[items.len() - 1].1, setting));
        }
        if 0 <= i < items.len() - 1 && (forall|k: int|
            i < k < items.len() ==> !same_ignoring_case((#[trigger] items[k]).1, setting)) {
            assert forall|k: int| i < k < rest.len() implies !same_ignoring_case(
                (#[trigger] rest[k]).1,
                setting,
            ) by {
                assert(rest[k] == items[k]);
            }
            assert(rest[i] == items[i]);
            assert(!same_ignoring_case(items[items.len() - 1].1, setting));
        }
    }
}

/// The size of a display fits if its width and its height do.
pub proof fn which_sizes_fit(m: Monitor)
    ensures
        size_fits(m) <==> -0x8000_0000 <= m.bounds.right - m.bounds.left <= 0x7fff_ffff
            && -0x8000_0000 <= m.bounds.bottom - m.bounds.top <= 0x7fff_ffff,
{
}

} // verus!
