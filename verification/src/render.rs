//! What is drawn where on the panel, in logical pixels.
//!
//! Vertical positions count from the top of the panel, horizontal ones from the inner edge of
//! its padding on either side. Whoever draws scales them, fills the bars and picks the colours
//! of the tones.

use vstd::prelude::*;

use crate::view::{Bar, BarRow, BarState, Shown, ViewModel, PAD, ROW_BAR, ROW_TEXT};

verus! {

/// A horizontal position.
#[derive(Debug, Clone, Copy, PartialEq, Eq, Structural)]
pub enum Edge {
    /// So far right of the left padding.
    Left(u32),
    /// So far left of the right padding.
    Right(u32),
}

/// A rectangle on the panel.
#[derive(Debug, Clone, Copy, PartialEq, Eq, Structural)]
pub struct Area {
    pub left: Edge,
    pub right: Edge,
    pub top: u128,
    pub bottom: u128,
}

#[derive(Debug, Clone, Copy, PartialEq, Eq, Structural)]
pub enum Font {
    Label,
    LabelRight,
    Figure,
    Body,
    BodyRight,
    Small,
    Header,
}

/// What a colour is for.
#[derive(Debug, Clone, Copy, PartialEq, Eq, Structural)]
pub enum Tone {
    Text,
    Muted,
    /// A window without a current reading.
    Missing,
    /// The header of a section.
    Accent,
    /// A warning in the footer.
    Warning,
}

/// Something to be drawn.
#[derive(Debug, Clone, PartialEq)]
pub enum Item<P> {
    Text { text: String, font: Font, area: Area, tone: Tone },
    /// The empty bar.
    Track { area: Area },
    /// The filled part of a bar.
    Level { pct: P, area: Area, stale: bool },
    /// A percentage beside a bar.
    Figure { pct: P, area: Area, tone: Tone },
}

/// What an [`Item`] says.
#[verifier::ext_equal]
pub enum Drawn<P> {
    Text { text: Seq<char>, font: Font, area: Area, tone: Tone },
    Track { area: Area },
    Level { pct: P, area: Area, stale: bool },
    Figure { pct: P, area: Area, tone: Tone },
}

impl<P> View for Item<P> {
    type V = Drawn<P>;

    open spec fn view(&self) -> Drawn<P> {
        match *self {
            Item::Text { text, font, area, tone } => Drawn::Text { text: text@, font, area, tone },
            Item::Track { area } => Drawn::Track { area },
            Item::Level { pct, area, stale } => Drawn::Level { pct, area, stale },
            Item::Figure { pct, area, tone } => Drawn::Figure { pct, area, tone },
        }
    }
}

/// The views of a list of items.
pub open spec fn drawn<P>(items: Seq<Item<P>>) -> Seq<Drawn<P>> {
    items.map_values(|i: Item<P>| i@)
}

/// The tones of a bar's label and of the text on its right.
pub open spec fn label_tones(state: BarState) -> (Tone, Tone) {
    match state {
        BarState::Fresh => (Tone::Text, Tone::Muted),
        BarState::Stale => (Tone::Muted, Tone::Muted),
        BarState::Expired | BarState::Missing => (Tone::Muted, Tone::Missing),
    }
}

/// The rectangle between two edges, from `top` and so high.
pub open spec fn area(left: Edge, right: Edge, top: int, height: int) -> Area {
    Area { left, right, top: top as u128, bottom: (top + height) as u128 }
}

/// A whole line of text at height `y`.
pub open spec fn line_at(y: int) -> Area {
    area(Edge::Left(0), Edge::Right(0), y, ROW_TEXT as int)
}

/// What is drawn of a bar whose row begins at height `y`: its label and the text on its right,
/// the track below them, and the level and its figure, or two dashes where there is none.
pub open spec fn bar_items<P>(b: Bar<P>, y: int) -> Seq<Drawn<P>> {
    let (label_tone, right_tone) = label_tones(b.state);
    let track = area(Edge::Left(0), Edge::Right(46), y + 23, 8);
    let figure = area(Edge::Right(46), Edge::Right(0), y + 15, 24);
    let stale = b.state is Stale;
    seq![
        Drawn::Text {
            text: b.label,
            font: Font::Label,
            area: area(Edge::Left(0), Edge::Right(60), y, 18),
            tone: label_tone,
        },
        Drawn::Text {
            text: b.right,
            font: Font::LabelRight,
            area: area(Edge::Left(90), Edge::Right(0), y + 1, 17),
            tone: right_tone,
        },
        Drawn::Track { area: track },
    ] + match b.pct {
        Some(pct) => seq![
            Drawn::Level { pct, area: track, stale },
            Drawn::Figure {
                pct,
                area: figure,
                tone: if stale {
                    Tone::Muted
                } else {
                    Tone::Text
                },
            },
        ],
        None => seq![
            Drawn::Text { text: "--"@, font: Font::Figure, area: figure, tone: Tone::Muted },
        ],
    }
}

/// Where the row of bar number `i` begins.
pub open spec fn bar_top(i: int) -> int {
    PAD - 2 + i * ROW_BAR
}

/// What is drawn of the bars.
pub open spec fn bars_items<P>(bars: Seq<Bar<P>>) -> Seq<Drawn<P>>
    decreases bars.len(),
{
    if bars.len() == 0 {
        Seq::empty()
    } else {
        bars_items(bars.drop_last()) + bar_items(bars.last(), bar_top(bars.len() - 1))
    }
}

/// What is drawn of a row of details at height `y`: a header, or a pair.
pub open spec fn row_items<P>(row: (Seq<char>, Seq<char>), y: int) -> Seq<Drawn<P>> {
    if row.0.len() == 0 {
        seq![
            Drawn::Text {
                text: row.1,
                font: Font::Header,
                area: line_at(y),
                tone: Tone::Accent,
            },
        ]
    } else {
        seq![
            Drawn::Text {
                text: row.0,
                font: Font::Body,
                area: Area { right: Edge::Left(110), ..line_at(y) },
                tone: Tone::Text,
            },
            Drawn::Text {
                text: row.1,
                font: Font::BodyRight,
                area: Area { left: Edge::Left(100), ..line_at(y) },
                tone: Tone::Muted,
            },
        ]
    }
}

/// What is drawn of the details, whose first row is at height `y`.
pub open spec fn detail_items<P>(rows: Seq<(Seq<char>, Seq<char>)>, y: int) -> Seq<Drawn<P>>
    decreases rows.len(),
{
    if rows.len() == 0 {
        Seq::empty()
    } else {
        detail_items(rows.drop_last(), y) + row_items(
            rows.last(),
            y + (rows.len() - 1) * ROW_TEXT,
        )
    }
}

/// Where the line on today is.
pub open spec fn today_top<P>(vm: Shown<P>) -> int {
    bar_top(vm.bars.len() as int) + 8
}

/// Where the details begin.
pub open spec fn detail_top<P>(vm: Shown<P>) -> int {
    today_top(vm) + 2 * ROW_TEXT + 6
}

/// Where the footer is.
pub open spec fn footer_top<P>(vm: Shown<P>) -> int {
    if vm.expanded {
        detail_top(vm) + vm.detail.len() * ROW_TEXT + 6
    } else {
        detail_top(vm)
    }
}

/// Everything that is drawn on the panel, in order.
pub open spec fn layout_of<P>(vm: Shown<P>) -> Seq<Drawn<P>> {
    bars_items(vm.bars) + seq![
        Drawn::Text {
            text: vm.today,
            font: Font::Body,
            area: line_at(today_top(vm)),
            tone: Tone::Text,
        },
        Drawn::Text {
            text: vm.today_sub,
            font: Font::Small,
            area: line_at(today_top(vm) + ROW_TEXT),
            tone: Tone::Muted,
        },
    ] + (if vm.expanded {
        detail_items(vm.detail, detail_top(vm))
    } else {
        Seq::empty()
    }) + seq![
        Drawn::Text {
            text: vm.footer,
            font: Font::Small,
            area: line_at(footer_top(vm)),
            tone: if vm.footer_warn {
                Tone::Warning
            } else {
                Tone::Muted
            },
        },
    ]
}

fn line_area(y: u128) -> (a: Area)
    requires
        y + ROW_TEXT <= u128::MAX,
    ensures
        a == line_at(y as int),
{
    Area {
        left: Edge::Left(0),
        right: Edge::Right(0),
        top: y,
        bottom: y + ROW_TEXT as u128,
    }
}

fn push_bar<P: Copy>(items: &mut Vec<Item<P>>, b: &BarRow<P>, y: u128)
    requires
        y + 100 <= u128::MAX,
    ensures
        drawn(final(items)@) == drawn(old(items)@) + bar_items(b@, y as int),
{
    let (label_tone, right_tone) = match b.state {
        BarState::Fresh => (Tone::Text, Tone::Muted),
        BarState::Stale => (Tone::Muted, Tone::Muted),
        BarState::Expired | BarState::Missing => (Tone::Muted, Tone::Missing),
    };
    let stale = match b.state {
        BarState::Stale => true,
        _ => false,
    };
    let track = Area { left: Edge::Left(0), right: Edge::Right(46), top: y + 23, bottom: y + 31 };
    let figure = Area {
        left: Edge::Right(46),
        right: Edge::Right(0),
        top: y + 15,
        bottom: y + 39,
    };
    items.push(
        Item::Text {
            text: b.label.clone(),
            font: Font::Label,
            area: Area { left: Edge::Left(0), right: Edge::Right(60), top: y, bottom: y + 18 },
            tone: label_tone,
        },
    );
    items.push(
        Item::Text {
            text: b.right.clone(),
            font: Font::LabelRight,
            area: Area { left: Edge::Left(90), right: Edge::Right(0), top: y + 1, bottom: y + 18 },
            tone: right_tone,
        },
    );
    items.push(Item::Track { area: track });
    match b.pct {
        Some(pct) => {
            items.push(Item::Level { pct, area: track, stale });
            items.push(
                Item::Figure {
                    pct,
                    area: figure,
                    tone: if stale {
                        Tone::Muted
                    } else {
                        Tone::Text
                    },
                },
            );
        },
        None => {
            items.push(
                Item::Text {
                    text: "--".to_owned(),
                    font: Font::Figure,
                    area: figure,
                    tone: Tone::Muted,
                },
            );
        },
    }
    assert(drawn(items@) =~= drawn(old(items)@) + bar_items(b@, y as int));
}

fn push_row<P>(items: &mut Vec<Item<P>>, row: &(String, String), y: u128)
    requires
        y + ROW_TEXT <= u128::MAX,
    ensures
        drawn(final(items)@) == drawn(old(items)@) + row_items((row.0@, row.1@), y as int),
{
    let line = line_area(y);
    if row.0.as_str().is_empty() {
        items.push(
            Item::Text {
                text: row.1.clone(),
                font: Font::Header,
                area: line,
                tone: Tone::Accent,
            },
        );
    } else {
        items.push(
            Item::Text {
                text: row.0.clone(),
                font: Font::Body,
                area: Area {
                    left: line.left,
                    right: Edge::Left(110),
                    top: line.top,
                    bottom: line.bottom,
                },
                tone: Tone::Text,
            },
        );
        items.push(
            Item::Text {
                text: row.1.clone(),
                font: Font::BodyRight,
                area: Area {
                    left: Edge::Left(100),
                    right: line.right,
                    top: line.top,
                    bottom: line.bottom,
                },
                tone: Tone::Muted,
            },
        );
    }
    assert(drawn(items@) =~= drawn(old(items)@) + row_items((row.0@, row.1@), y as int));
}

fn push_line<P>(items: &mut Vec<Item<P>>, text: &String, font: Font, y: u128, tone: Tone)
    requires
        y + ROW_TEXT <= u128::MAX,
    ensures
        drawn(final(items)@) == drawn(old(items)@).push(
            Drawn::Text { text: text@, font, area: line_at(y as int), tone },
        ),
{
    let item = Item::Text { text: text.clone(), font, area: line_area(y), tone };
    assert(drawn(items@.push(item)) =~= drawn(items@).push(item@));
    items.push(item);
}

/// Everything that is drawn on the panel, in order.
pub fn layout<P: Copy>(vm: &ViewModel<P>) -> (r: Vec<Item<P>>)
    ensures
        drawn(r@) == layout_of(vm@),
{
    let mut items: Vec<Item<P>> = Vec::new();
    let ghost bars = vm@.bars;
    let mut y: u128 = PAD as u128 - 2;
    let mut i: usize = 0;
    let n: usize = vm.bars.len();
    assert(drawn(items@) =~= bars_items(bars.take(0)));
    while i < n
        invariant
            i <= n,
            n == vm.bars@.len(),
            bars == vm@.bars,
            y == bar_top(i as int),
            drawn(items@) == bars_items(bars.take(i as int)),
        decreases n - i,
    {
        proof {
            assert(bars.take(i + 1).drop_last() =~= bars.take(i as int));
            assert(bars.take(i + 1).last() == vm.bars@[i as int]@);
        }
        push_bar(&mut items, &vm.bars[i], y);
        y += ROW_BAR as u128;
        i += 1;
    }
    assert(bars.take(i as int) =~= bars);
    y += 8;
    push_line(&mut items, &vm.today, Font::Body, y, Tone::Text);
    y += ROW_TEXT as u128;
    push_line(&mut items, &vm.today_sub, Font::Small, y, Tone::Muted);
    y += ROW_TEXT as u128;
    let ghost head = drawn(items@);
    let ghost rows = vm@.detail;
    y += 6;
    let ghost top = y as int;
    if vm.expanded {
        let count: usize = vm.detail.len();
        let mut k: usize = 0;
        assert(head + detail_items::<P>(rows.take(0), top) =~= head);
        while k < count
            invariant
                k <= count,
                count == vm.detail@.len(),
                rows == vm@.detail,
                top == detail_top(vm@),
                vm@.bars.len() <= usize::MAX,
                y == top + k * ROW_TEXT,
                drawn(items@) == head + detail_items::<P>(rows.take(k as int), top),
            decreases count - k,
        {
            let ghost done = detail_items::<P>(rows.take(k as int), top);
            let row = &vm.detail[k];
            proof {
                assert(rows.take(k + 1).drop_last() =~= rows.take(k as int));
                assert(rows.take(k + 1).last() == (row.0@, row.1@));
                assert(head + (done + row_items::<P>((row.0@, row.1@), y as int)) =~= (head + done)
                    + row_items::<P>((row.0@, row.1@), y as int));
            }
            push_row(&mut items, row, y);
            y += ROW_TEXT as u128;
            k += 1;
        }
        assert(rows.take(k as int) =~= rows);
        y += 6;
    }
    push_line(
        &mut items,
        &vm.footer,
        Font::Small,
        y,
        if vm.footer_warn {
            Tone::Warning
        } else {
            Tone::Muted
        },
    );
    assert(drawn(items@) =~= layout_of(vm@));
    items
}

/// The rectangle of an item.
pub open spec fn area_of<P>(item: Drawn<P>) -> Area {
    match item {
        Drawn::Text { area, .. } => area,
        Drawn::Track { area } => area,
        Drawn::Level { area, .. } => area,
        Drawn::Figure { area, .. } => area,
    }
}

/// No item of the list reaches below `bottom`.
pub open spec fn within<P>(items: Seq<Drawn<P>>, bottom: int) -> bool {
    forall|i: int| 0 <= i < items.len() ==> area_of(#[trigger] items[i]).bottom <= bottom
}

proof fn lemma_bars_within<P>(bars: Seq<Bar<P>>, bottom: int)
    requires
        bar_top(bars.len() as int) <= bottom <= u128::MAX,
    ensures
        within(bars_items(bars), bottom),
    decreases bars.len(),
{
    if bars.len() > 0 {
        let rest = bars.drop_last();
        lemma_bars_within(rest, bottom);
        let first = bars_items(rest);
        let last = bar_items(bars.last(), bar_top(bars.len() - 1));
        assert(within(last, bottom));
        assert forall|i: int| 0 <= i < bars_items(bars).len() implies area_of(
            #[trigger] bars_items(bars)[i],
        ).bottom <= bottom by {
            if i < first.len() {
                assert(bars_items(bars)[i] == first[i]);
            } else {
                assert(bars_items(bars)[i] == last[i - first.len()]);
            }
        }
    }
}

proof fn lemma_detail_within<P>(rows: Seq<(Seq<char>, Seq<char>)>, y: int, bottom: int)
    requires
        0 <= y,
        y + rows.len() * ROW_TEXT <= bottom <= u128::MAX,
    ensures
        within(detail_items::<P>(rows, y), bottom),
    decreases rows.len(),
{
    if rows.len() > 0 {
        let rest = rows.drop_last();
        lemma_detail_within::<P>(rest, y, bottom);
        let first = detail_items::<P>(rest, y);
        let last = row_items::<P>(rows.last(), y + (rows.len() - 1) * ROW_TEXT);
        assert(within(last, bottom));
        assert forall|i: int| 0 <= i < detail_items::<P>(rows, y).len() implies area_of(
            #[trigger] detail_items::<P>(rows, y)[i],
        ).bottom <= bottom by {
            if i < first.len() {
                assert(detail_items::<P>(rows, y)[i] == first[i]);
            } else {
                assert(detail_items::<P>(rows, y)[i] == last[i - first.len()]);
            }
        }
    }
}

/// Everything that is drawn lies within the height of the panel.
pub proof fn everything_fits_the_panel<P>(vm: Shown<P>)
    requires
        vm.height() <= u128::MAX,
    ensures
        within(layout_of(vm), vm.height()),
{
    let h = vm.height();
    lemma_bars_within(vm.bars, h);
    if vm.expanded {
        lemma_detail_within::<P>(vm.detail, detail_top(vm), h);
    }
}

/// Items stand for just what they hold.
pub proof fn items_are_taken_as_they_are<P>(item: Item<P>, items: Seq<Item<P>>, i: int)
    ensures
        item matches Item::Text { text, font, area, tone } ==> item@ == (Drawn::<P>::Text {
            text: text@,
            font,
            area,
            tone,
        }),
        item matches Item::Track { area } ==> item@ == (Drawn::<P>::Track { area }),
        item matches Item::Level { pct, area, stale } ==> item@ == (Drawn::Level {
            pct,
            area,
            stale,
        }),
        item matches Item::Figure { pct, area, tone } ==> item@ == (Drawn::Figure {
            pct,
            area,
            tone,
        }),
        drawn(items).len() == items.len(),
        0 <= i < items.len() ==> drawn(items)[i] == items[i]@,
{
}

/// What is drawn of a bar: its label on the left and its text on the right, in the tones of its
/// state, and the track below them. All of it lies in its own row.
pub proof fn bars_show_label_text_and_track<P>(b: Bar<P>, y: int)
    requires
        0 <= y,
        y + 44 <= u128::MAX,
    ensures
        ({
            let items = bar_items(b, y);
            let tone = if b.state is Fresh {
                Tone::Text
            } else {
                Tone::Muted
            };
            let right_tone = if b.state is Expired || b.state is Missing {
                Tone::Missing
            } else {
                Tone::Muted
            };
            &&& items[0] matches Drawn::Text { text, font, area, tone: t } && text == b.label && font
                is Label && t == tone && area.left == Edge::Left(0) && area.right == Edge::Right(60)
                && area.top == y && area.bottom == y + 18
            &&& items[1] matches Drawn::Text { text, font, area, tone: t } && text == b.right && font
                is LabelRight && t == right_tone && area.left == Edge::Left(90) && area.right
                == Edge::Right(0) && area.top == y + 1 && area.bottom == y + 18
            &&& items[2] matches Drawn::Track { area } && area.left == Edge::Left(0) && area.right
                == Edge::Right(46) && area.top == y + 23 && area.bottom == y + 31
        }),
{
}

/// A bar with a percentage is filled to it, just over its track, and shows it as a figure beside;
/// one without shows two dashes there, and is not filled.
pub proof fn bars_show_their_percentage<P>(b: Bar<P>, y: int)
    requires
        0 <= y,
        y + 44 <= u128::MAX,
    ensures
        ({
            let items = bar_items(b, y);
            let tone = if b.pct is Some && !(b.state is Stale) {
                Tone::Text
            } else {
                Tone::Muted
            };
            let beside = Area {
                left: Edge::Right(46),
                right: Edge::Right(0),
                top: (y + 15) as u128,
                bottom: (y + 39) as u128,
            };
            &&& b.pct matches Some(p) ==> items.len() == 5 && (items[3] matches Drawn::Level {
                pct,
                area,
                stale,
            } && pct == p && items[2] == (Drawn::<P>::Track { area }) && stale == (b.state is Stale))
                && items[4] == (Drawn::Figure { pct: p, area: beside, tone })
            &&& b.pct is None ==> items.len() == 4 && items[3] == (Drawn::<P>::Text {
                text: "--"@,
                font: Font::Figure,
                area: beside,
                tone,
            })
        }),
{
}

/// The bars are drawn in order, from the padding on, each in a row of its own that is 44 pixels
/// high.
pub proof fn bars_stand_below_each_other<P>(bars: Seq<Bar<P>>, b: Bar<P>)
    ensures
        bars_items(Seq::<Bar<P>>::empty()).len() == 0,
        bars_items(bars.push(b)) == bars_items(bars) + bar_items(b, 14 + 44 * (bars.len() as int)),
{
    assert(bars.push(b).drop_last() =~= bars);
}

/// A row of details is a header in one piece if it has no name, and else a name on the left and
/// its value on the right; it is 17 pixels high.
pub proof fn what_is_drawn_of_a_detail<P>(row: (Seq<char>, Seq<char>), y: int)
    requires
        0 <= y,
        y + 44 <= u128::MAX,
    ensures
        ({
            let items = row_items::<P>(row, y);
            &&& row.0.len() == 0 ==> items.len() == 1 && items[0] == (Drawn::<P>::Text {
                text: row.1,
                font: Font::Header,
                area: Area {
                    left: Edge::Left(0),
                    right: Edge::Right(0),
                    top: y as u128,
                    bottom: (y + 17) as u128,
                },
                tone: Tone::Accent,
            })
            &&& row.0.len() > 0 ==> items.len() == 2 && items[0] == (Drawn::<P>::Text {
                text: row.0,
                font: Font::Body,
                area: Area {
                    left: Edge::Left(0),
                    right: Edge::Left(110),
                    top: y as u128,
                    bottom: (y + 17) as u128,
                },
                tone: Tone::Text,
            }) && items[1] == (Drawn::<P>::Text {
                text: row.1,
                font: Font::BodyRight,
                area: Area {
                    left: Edge::Left(100),
                    right: Edge::Right(0),
                    top: y as u128,
                    bottom: (y + 17) as u128,
                },
                tone: Tone::Muted,
            })
        }),
{
}

/// The details are drawn in order, each in a line of its own.
pub proof fn details_stand_below_each_other<P>(
    rows: Seq<(Seq<char>, Seq<char>)>,
    row: (Seq<char>, Seq<char>),
    y: int,
)
    ensures
        detail_items::<P>(Seq::empty(), y).len() == 0,
        detail_items::<P>(rows.push(row), y) == detail_items::<P>(rows, y) + row_items::<P>(
            row,
            y + 17 * rows.len(),
        ),
{
    assert(rows.push(row).drop_last() =~= rows);
}

/// The panel shows the bars, below them the two lines on today, then the details if it is
/// expanded, and the footer at its end.
pub proof fn what_is_drawn_on_the_panel<P>(vm: Shown<P>)
    requires
        vm.height() <= u128::MAX,
    ensures
        ({
            let all = layout_of(vm);
            let bars = bars_items(vm.bars);
            let n = bars.len() as int;
            let y = 22 + 44 * (vm.bars.len() as int);
            let details = detail_items::<P>(vm.detail, y + 40);
            let end = if vm.expanded {
                y + 40 + 17 * vm.detail.len() + 6
            } else {
                y + 40
            };
            &&& all.take(n) == bars
            &&& all[n] matches Drawn::Text { text, font, area, tone } && text == vm.today && font
                is Body && tone is Text && area.top == y && area.bottom == y + 17 && area.left
                == Edge::Left(0) && area.right == Edge::Right(0)
            &&& all[n + 1] matches Drawn::Text { text, font, area, tone } && text == vm.today_sub
                && font is Small && tone is Muted && area.top == y + 17 && area.bottom == y + 34
                && area.left == Edge::Left(0) && area.right == Edge::Right(0)
            &&& vm.expanded ==> all.len() == n + 3 + details.len() && all.subrange(
                n + 2,
                n + 2 + details.len(),
            ) == details
            &&& !vm.expanded ==> all.len() == n + 3
            &&& all.last() matches Drawn::Text { text, font, area, tone } && text == vm.footer && font
                is Small && tone == (if vm.footer_warn {
                Tone::Warning
            } else {
                Tone::Muted
            }) && area.top == end && area.bottom == end + 17 && area.left == Edge::Left(0)
                && area.right == Edge::Right(0)
        }),
{
    let all = layout_of(vm);
    let bars = bars_items(vm.bars);
    let n = bars.len() as int;
    assert(all.take(n) =~= bars);
    let details = detail_items::<P>(vm.detail, detail_top(vm));
    if vm.expanded {
        assert(all.subrange(n + 2, n + 2 + details.len()) =~= details);
    }
}

} // verus!
