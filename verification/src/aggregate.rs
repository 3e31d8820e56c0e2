//! Aggregation by time range, day, model and session.
//!
//! Day boundaries are computed in the caller's time zone ([`Zone::Local`] in the app, a fixed
//! offset in tests) so a session spanning local midnight is split correctly even though
//! transcript timestamps are UTC.

use vstd::multiset::Multiset;
use vstd::prelude::*;

use crate::model::{Event, Tally, TokenUsage};
use crate::pricing::{Charge, Prices, PricingTable};
use crate::store::{
    events_of, in_range, is_earliest, is_latest, lemma_filter_step, views, EventRef, UsageStore,
};
use crate::text::{str_before, str_eq, text_before, text_before_is_a_strict_total_order};
use crate::time::{
    checked_sub_signed, fixed_midnight, local_date, local_midnight, may_begin, moved,
    near_midnight, second_in_range, shifted, Date, Span, Timestamp, Zone, DAY_SECS, EPOCH_DAY,
    FIRST_DAY, LAST_DAY,
};

verus! {

/// Sums over a number of API responses.
#[derive(Debug, Clone, PartialEq)]
pub struct Totals<P> {
    pub usage: TokenUsage,
    /// Number of API responses.
    pub requests: u64,
    /// What each response with a price is charged. The sum is an estimate at list price, not
    /// billing data.
    pub charges: Vec<Charge<P>>,
    /// Tokens from models missing in the pricing table (without an entry in `charges`).
    pub unpriced_tokens: u64,
}

/// What [`Totals`] says.
#[verifier::ext_equal]
pub struct Summary<P> {
    pub usage: Tally,
    pub requests: nat,
    pub charges: Seq<Charge<P>>,
    pub unpriced: nat,
}

impl<P> View for Totals<P> {
    type V = Summary<P>;

    open spec fn view(&self) -> Summary<P> {
        Summary {
            usage: self.usage@,
            requests: self.requests as nat,
            charges: self.charges@,
            unpriced: self.unpriced_tokens as nat,
        }
    }
}

/// The sums over no response.
pub open spec fn nothing<P>() -> Summary<P> {
    Summary { usage: Tally::zero(), requests: 0, charges: Seq::empty(), unpriced: 0 }
}

/// The sums after one response more.
pub open spec fn with_event<P>(sum: Summary<P>, ev: Event, prices: Prices<P>) -> Summary<P> {
    let charge = prices.charge(ev.model, ev.usage, ev.fast);
    Summary {
        usage: sum.usage.plus(ev.usage@),
        requests: sum.requests + 1,
        charges: match charge {
            Some(c) => sum.charges.push(c),
            None => sum.charges,
        },
        unpriced: match charge {
            Some(c) => sum.unpriced,
            None => sum.unpriced + ev.usage@.total(),
        },
    }
}

/// The sums over a list of responses.
pub open spec fn summary<P>(events: Seq<Event>, prices: Prices<P>) -> Summary<P>
    decreases events.len(),
{
    if events.len() == 0 {
        nothing()
    } else {
        with_event(summary(events.drop_last(), prices), events.last(), prices)
    }
}

/// The token counts of a list of responses.
pub open spec fn tally(events: Seq<Event>) -> Tally
    decreases events.len(),
{
    if events.len() == 0 {
        Tally::zero()
    } else {
        tally(events.drop_last()).plus(events.last().usage@)
    }
}

/// The responses of a store between two moments.
pub open spec fn events_between(store: UsageStore, start: Timestamp, end: Timestamp) -> Seq<Event> {
    events_of(store@).filter(in_range(start, end))
}

/// No count of `a` exceeds that of `b`.
pub open spec fn within(a: Tally, b: Tally) -> bool {
    &&& a.input <= b.input
    &&& a.output <= b.output
    &&& a.cache_creation <= b.cache_creation
    &&& a.cache_creation_5m <= b.cache_creation_5m
    &&& a.cache_creation_1h <= b.cache_creation_1h
    &&& a.cache_read <= b.cache_read
    &&& a.thinking <= b.thinking
}

proof fn lemma_filter_within(events: Seq<Event>, keep: spec_fn(Event) -> bool)
    ensures
        within(tally(events.filter(keep)), tally(events)),
    decreases events.len(),
{
    reveal(Seq::filter);
    if events.len() > 0 {
        lemma_filter_within(events.drop_last(), keep);
        let rest = events.drop_last().filter(keep);
        if keep(events.last()) {
            assert(rest.push(events.last()).drop_last() =~= rest);
        }
    }
}

proof fn lemma_prefix_within(events: Seq<Event>, n: int)
    requires
        0 <= n <= events.len(),
    ensures
        within(tally(events.take(n)), tally(events)),
    decreases events.len() - n,
{
    if n < events.len() {
        lemma_prefix_within(events, n + 1);
        assert(events.take(n + 1).drop_last() =~= events.take(n));
    } else {
        assert(events.take(n) =~= events);
    }
}

/// The counts of a summary are the sums of its responses.
pub proof fn summary_counts<P>(events: Seq<Event>, prices: Prices<P>)
    ensures
        summary(events, prices).usage == tally(events),
        summary(events, prices).requests == events.len(),
        summary(events, prices).unpriced <= tally(events).total(),
        summary(events, prices).charges.len() <= events.len(),
    decreases events.len(),
{
    if events.len() > 0 {
        summary_counts(events.drop_last(), prices);
    }
}

/// The sums over `events` fit 64 bits: every token count, the tokens without a price, and for
/// each response with a price its cache writes.
pub open spec fn sums_fit<P>(events: Seq<Event>, prices: Prices<P>) -> bool {
    &&& tally(events).storable()
    &&& summary(events, prices).unpriced <= u64::MAX
    &&& forall|i: int|
        0 <= i < events.len() && prices.rate(
            (#[trigger] events[i]).model,
            events[i].fast,
        ) is Some ==> events[i].usage.cache_creation_5m + events[i].usage.cache_creation_1h
            <= u64::MAX
}

proof fn lemma_sums_of_prefix<P>(events: Seq<Event>, n: int, prices: Prices<P>)
    requires
        0 <= n <= events.len(),
        sums_fit(events, prices),
    ensures
        sums_fit(events.take(n), prices),
    decreases events.len() - n,
{
    if n < events.len() {
        lemma_sums_of_prefix(events, n + 1, prices);
        let more = events.take(n + 1);
        assert(more.drop_last() =~= events.take(n));
    } else {
        assert(events.take(n) =~= events);
    }
}

proof fn lemma_sums_of_filter<P>(
    events: Seq<Event>,
    keep: spec_fn(Event) -> bool,
    prices: Prices<P>,
)
    requires
        sums_fit(events, prices),
    ensures
        sums_fit(events.filter(keep), prices),
        summary(events.filter(keep), prices).unpriced <= summary(events, prices).unpriced,
    decreases events.len(),
{
    reveal(Seq::filter);
    lemma_filter_within(events, keep);
    if events.len() > 0 {
        let rest = events.drop_last();
        lemma_sums_of_prefix(events, rest.len() as int, prices);
        assert(events.take(rest.len() as int) =~= rest);
        lemma_sums_of_filter(rest, keep, prices);
        let kept = rest.filter(keep);
        if keep(events.last()) {
            assert(kept.push(events.last()).drop_last() =~= kept);
            assert(events[rest.len() as int] == events.last());
        }
    }
}

/// What is kept of the first responses is the first part of what is kept of all.
proof fn lemma_sums_of_kept_prefix<P>(
    events: Seq<Event>,
    keep: spec_fn(Event) -> bool,
    n: int,
    prices: Prices<P>,
)
    requires
        0 <= n <= events.len(),
        sums_fit(events.filter(keep), prices),
    ensures
        sums_fit(events.take(n).filter(keep), prices),
    decreases events.len() - n,
{
    if n < events.len() {
        lemma_sums_of_kept_prefix(events, keep, n + 1, prices);
        lemma_filter_step(events, n, keep);
        let kept = events.take(n).filter(keep);
        if keep(events[n]) {
            let more = kept.push(events[n]);
            lemma_sums_of_prefix(more, kept.len() as int, prices);
            assert(more.take(kept.len() as int) =~= kept);
        }
    } else {
        assert(events.take(n) =~= events);
    }
}

impl<P: Copy> Totals<P> {
    /// No responses.
    pub fn new() -> (t: Totals<P>)
        ensures
            t@ == nothing::<P>(),
    {
        Totals {
            usage: TokenUsage::default(),
            requests: 0,
            charges: Vec::new(),
            unpriced_tokens: 0,
        }
    }

    /// Counts one response.
    pub fn add_event(&mut self, ev: &EventRef<'_>, pricing: &PricingTable<P>)
        requires
            old(self)@.usage.plus(ev.usage@).storable(),
            old(self).requests < u64::MAX,
            pricing@.rate(ev.model@, ev.fast) is Some ==> ev.usage.cache_creation_5m
                + ev.usage.cache_creation_1h <= u64::MAX,
            pricing@.rate(ev.model@, ev.fast) is None ==> old(self).unpriced_tokens
                + ev.usage@.total() <= u64::MAX,
        ensures
            final(self)@ == with_event(old(self)@, ev@, pricing@),
    {
        self.usage.add(&ev.usage);
        self.requests += 1;
        match pricing.cost(ev.model, &ev.usage, ev.fast) {
            Some(c) => {
                self.charges.push(c);
            },
            None => {
                self.unpriced_tokens += ev.usage.total();
            },
        }
    }
}

/// What responses are grouped by.
#[derive(Debug, Clone, Copy, PartialEq, Eq, Structural)]
pub enum Key {
    Model,
    Session,
}

/// The group that a response belongs to.
pub open spec fn key_of(key: Key, ev: Event) -> Seq<char> {
    match key {
        Key::Model => ev.model,
        Key::Session => ev.session,
    }
}

/// The responses of the group `name`.
pub open spec fn in_group(key: Key, name: Seq<char>) -> spec_fn(Event) -> bool {
    |ev: Event| key_of(key, ev) == name
}

/// The responses of the group `name`, in order.
pub open spec fn group(events: Seq<Event>, key: Key, name: Seq<char>) -> Seq<Event> {
    events.filter(in_group(key, name))
}

/// Some response belongs to the group `name`.
pub open spec fn has_group(events: Seq<Event>, key: Key, name: Seq<char>) -> bool {
    exists|i: int| 0 <= i < events.len() && key_of(key, #[trigger] events[i]) == name
}

fn key_text<'a>(key: Key, ev: &EventRef<'a>) -> (s: &'a str)
    ensures
        s@ == key_of(key, ev@),
{
    match key {
        Key::Model => ev.model,
        Key::Session => ev.session,
    }
}

proof fn lemma_group_step<P>(
    events: Seq<Event>,
    keep: spec_fn(Event) -> bool,
    i: int,
    prices: Prices<P>,
)
    requires
        0 <= i < events.len(),
        sums_fit(events.filter(keep), prices),
    ensures
        summary(events.take(i).filter(keep), prices).requests <= i,
        !keep(events[i]) ==> events.take(i + 1).filter(keep) == events.take(i).filter(keep),
        keep(events[i]) ==> ({
            let before = events.take(i).filter(keep);
            let after = events.take(i + 1).filter(keep);
            &&& after == before.push(events[i])
            &&& sums_fit(after, prices)
            &&& summary(before, prices).usage == tally(before)
            &&& tally(after) == tally(before).plus(events[i].usage@)
            &&& summary(after, prices) == with_event(summary(before, prices), events[i], prices)
        }),
{
    let before = events.take(i).filter(keep);
    lemma_filter_step(events, i, keep);
    lemma_sums_of_kept_prefix(events, keep, i + 1, prices);
    summary_counts(before, prices);
    events.take(i).lemma_filter_len(keep);
    if keep(events[i]) {
        assert(before.push(events[i]).drop_last() =~= before);
    }
}

/// The totals of the responses of one group.
fn group_totals<P: Copy>(
    events: &Vec<EventRef<'_>>,
    key: Key,
    name: &str,
    pricing: &PricingTable<P>,
) -> (t: Totals<P>)
    requires
        sums_fit(group(views(events@), key, name@), pricing@),
    ensures
        t@ == summary(group(views(events@), key, name@), pricing@),
{
    let mut t = Totals::<P>::new();
    let ghost all = views(events@);
    let ghost keep = in_group(key, name@);
    let mut i: usize = 0;
    proof {
        reveal(Seq::filter);
        assert(all.take(0) =~= Seq::<Event>::empty());
    }
    while i < events.len()
        invariant
            i <= events@.len(),
            all == views(events@),
            keep == in_group(key, name@),
            sums_fit(all.filter(keep), pricing@),
            t@ == summary(all.take(i as int).filter(keep), pricing@),
        decreases events@.len() - i,
    {
        let ev = &events[i];
        assert(all[i as int] == ev@);
        proof {
            lemma_group_step(all, keep, i as int, pricing@);
            let after = all.take(i + 1).filter(keep);
            if keep(ev@) {
                assert(after[after.len() - 1] == ev@);
            }
        }
        if str_eq(key_text(key, ev), name) {
            t.add_event(ev, pricing);
        }
        i += 1;
    }
    assert(all.take(i as int) =~= all);
    t
}

/// Totals over the events with `start <= timestamp < end`.
pub fn totals<P: Copy>(
    store: &UsageStore,
    pricing: &PricingTable<P>,
    start: Timestamp,
    end: Timestamp,
) -> (t: Totals<P>)
    requires
        store.wf(),
        sums_fit(events_between(*store, start, end), pricing@),
    ensures
        t@ == summary(events_between(*store, start, end), pricing@),
{
    let events = store.between(start, end);
    let mut t = Totals::<P>::new();
    let ghost all = views(events@);
    let mut i: usize = 0;
    assert(all.take(0) =~= Seq::<Event>::empty());
    while i < events.len()
        invariant
            i <= events@.len(),
            all == views(events@),
            sums_fit(all, pricing@),
            t@ == summary(all.take(i as int), pricing@),
        decreases events@.len() - i,
    {
        let ev = &events[i];
        proof {
            assert(all[i as int] == ev@);
            lemma_sums_of_prefix(all, i + 1, pricing@);
            summary_counts(all.take(i as int), pricing@);
            assert(all.take(i + 1).drop_last() =~= all.take(i as int));
        }
        t.add_event(ev, pricing);
        i += 1;
    }
    assert(all.take(i as int) =~= all);
    t
}

/// The names of the groups, each once.
fn group_names(events: &Vec<EventRef<'_>>, key: Key) -> (names: Vec<String>)
    ensures
        forall|i: int|
            0 <= i < names@.len() ==> has_group(views(events@), key, (#[trigger] names@[i])@),
        forall|i: int, j: int|
            0 <= i < j < names@.len() ==> (#[trigger] names@[i])@ != (#[trigger] names@[j])@,
        forall|k: int|
            0 <= k < events@.len() ==> is_named(names@, key_of(key, #[trigger] views(events@)[k])),
{
    let mut names: Vec<String> = Vec::new();
    let ghost all = views(events@);
    let mut i: usize = 0;
    while i < events.len()
        invariant
            i <= events@.len(),
            all == views(events@),
            forall|k: int| 0 <= k < names@.len() ==> has_group(all, key, (#[trigger] names@[k])@),
            forall|a: int, b: int|
                0 <= a < b < names@.len() ==> (#[trigger] names@[a])@ != (#[trigger] names@[b])@,
            forall|k: int| 0 <= k < i ==> is_named(names@, key_of(key, #[trigger] all[k])),
        decreases events@.len() - i,
    {
        let name = key_text(key, &events[i]);
        let ghost before = names@;
        assert(all[i as int] == events@[i as int]@);
        if !knows(&names, name) {
            names.push(name.to_owned());
            proof {
                assert(key_of(key, all[i as int]) == name@);
                assert forall|k: int| 0 <= k < i implies is_named(
                    names@,
                    key_of(key, #[trigger] all[k]),
                ) by {
                    let w = choose|w: int|
                        0 <= w < before.len() && (#[trigger] before[w])@ == key_of(key, all[k]);
                    assert(names@[w]@ == key_of(key, all[k]));
                }
                assert(names@[names@.len() - 1]@ == key_of(key, all[i as int]));
            }
        }
        i += 1;
    }
    names
}

/// `name` is among `names`.
pub open spec fn is_named(names: Seq<String>, name: Seq<char>) -> bool {
    exists|w: int| 0 <= w < names.len() && (#[trigger] names[w])@ == name
}

fn knows(names: &Vec<String>, name: &str) -> (r: bool)
    ensures
        r == is_named(names@, name@),
{
    let mut i: usize = 0;
    while i < names.len()
        invariant
            i <= names@.len(),
            forall|k: int| 0 <= k < i ==> (#[trigger] names@[k])@ != name@,
        decreases names@.len() - i,
    {
        if str_eq(names[i].as_str(), name) {
            return true;
        }
        i += 1;
    }
    false
}

/// Every row comes before those behind it.
pub open spec fn sorted<A>(rows: Seq<A>, before: spec_fn(A, A) -> bool) -> bool {
    forall|i: int, j: int| 0 <= i < j < rows.len() ==> before(#[trigger] rows[i], #[trigger] rows[j])
}

proof fn lemma_insert_sorted<A>(rows: Seq<A>, at: int, row: A, before: spec_fn(A, A) -> bool)
    requires
        0 <= at <= rows.len(),
        sorted(rows, before),
        forall|i: int| 0 <= i < at ==> before(#[trigger] rows[i], row),
        at < rows.len() ==> before(row, rows[at]),
        forall|a: A, b: A, c: A| #[trigger] before(a, b) && #[trigger] before(b, c) ==> before(a, c),
    ensures
        sorted(rows.insert(at, row), before),
{
    let after = rows.insert(at, row);
    assert forall|i: int, j: int| 0 <= i < j < after.len() implies before(
        #[trigger] after[i],
        #[trigger] after[j],
    ) by {
        if i == at {
            let k = j - 1;
            assert(after[j] == rows[k]);
            if k > at {
                assert(before(rows[at], rows[k]));
                assert(before(row, rows[at]));
            }
        } else if j == at {
            assert(after[i] == rows[i]);
        } else {
            let a = if i < at {
                i
            } else {
                i - 1
            };
            let b = if j < at {
                j
            } else {
                j - 1
            };
            assert(after[i] == rows[a] && after[j] == rows[b]);
        }
    }
}

/// The totals of one model.
#[derive(Debug, Clone)]
pub struct ModelTotals<P> {
    pub model: String,
    pub totals: Totals<P>,
}

/// What a [`ModelTotals`] says.
#[verifier::ext_equal]
pub struct ModelRow<P> {
    pub model: Seq<char>,
    pub totals: Summary<P>,
}

impl<P> View for ModelTotals<P> {
    type V = ModelRow<P>;

    open spec fn view(&self) -> ModelRow<P> {
        ModelRow { model: self.model@, totals: self.totals@ }
    }
}

/// Larger token counts come first, and equal ones in the order of the names.
pub open spec fn larger<P>() -> spec_fn(ModelRow<P>, ModelRow<P>) -> bool {
    |a: ModelRow<P>, b: ModelRow<P>|
        a.totals.usage.total() > b.totals.usage.total() || (a.totals.usage.total()
            == b.totals.usage.total() && text_before(a.model, b.model))
}

/// The views of a list of rows.
pub open spec fn model_rows<P>(rows: Seq<ModelTotals<P>>) -> Seq<ModelRow<P>> {
    rows.map_values(|r: ModelTotals<P>| r@)
}

/// Some row is that of the model `name`.
pub open spec fn has_model<P>(rows: Seq<ModelRow<P>>, name: Seq<char>) -> bool {
    exists|i: int| 0 <= i < rows.len() && (#[trigger] rows[i]).model == name
}

/// `rows` holds the totals of every model in `events`, largest first.
pub open spec fn is_model_table<P>(
    rows: Seq<ModelRow<P>>,
    events: Seq<Event>,
    prices: Prices<P>,
) -> bool {
    &&& sorted(rows, larger())
    &&& forall|i: int|
        0 <= i < rows.len() ==> has_group(events, Key::Model, (#[trigger] rows[i]).model)
            && rows[i].totals == summary(group(events, Key::Model, rows[i].model), prices)
    &&& forall|k: int| 0 <= k < events.len() ==> has_model(rows, (#[trigger] events[k]).model)
}

/// Whether a row comes before another in [`by_model`].
fn is_larger<P>(a: &ModelTotals<P>, b: &ModelTotals<P>) -> (r: bool)
    requires
        a@.totals.usage.total() <= u64::MAX,
        b@.totals.usage.total() <= u64::MAX,
    ensures
        r == larger::<P>()(a@, b@),
{
    let x: u64 = a.totals.usage.total();
    let y: u64 = b.totals.usage.total();
    x > y || (x == y && str_before(a.model.as_str(), b.model.as_str()))
}

/// The sums over the responses of each model fit 64 bits, and so does its token count.
pub open spec fn model_sums_fit<P>(events: Seq<Event>, prices: Prices<P>) -> bool {
    forall|name: Seq<char>| #[trigger]
        has_group(events, Key::Model, name) ==> sums_fit(group(events, Key::Model, name), prices)
            && tally(group(events, Key::Model, name)).total() <= u64::MAX
}

/// Per-model totals, largest token count first.
pub fn by_model<P: Copy>(
    store: &UsageStore,
    pricing: &PricingTable<P>,
    start: Timestamp,
    end: Timestamp,
) -> (rows: Vec<ModelTotals<P>>)
    requires
        store.wf(),
        model_sums_fit(events_between(*store, start, end), pricing@),
    ensures
        is_model_table(model_rows(rows@), events_between(*store, start, end), pricing@),
{
    let events = store.between(start, end);
    let names = group_names(&events, Key::Model);
    let ghost all = views(events@);
    let ghost before = larger::<P>();
    let mut rows: Vec<ModelTotals<P>> = Vec::new();
    let mut n: usize = 0;
    while n < names.len()
        invariant
            n <= names@.len(),
            all == views(events@),
            model_sums_fit(all, pricing@),
            before == larger::<P>(),
            forall|i: int|
                0 <= i < names@.len() ==> has_group(all, Key::Model, (#[trigger] names@[i])@),
            forall|i: int, j: int|
                0 <= i < j < names@.len() ==> (#[trigger] names@[i])@ != (#[trigger] names@[j])@,
            sorted(model_rows(rows@), before),
            forall|i: int|
                0 <= i < rows@.len() ==> has_group(
                    all,
                    Key::Model,
                    (#[trigger] model_rows(rows@)[i]).model,
                ) && model_rows(rows@)[i].totals == summary(
                    group(all, Key::Model, model_rows(rows@)[i].model),
                    pricing@,
                ) && is_named(names@.take(n as int), model_rows(rows@)[i].model),
            forall|k: int| 0 <= k < n ==> has_model(model_rows(rows@), (#[trigger] names@[k])@),
        decreases names@.len() - n,
    {
        let name = names[n].as_str();
        assert(has_group(all, Key::Model, names@[n as int]@));
        let totals = group_totals(&events, Key::Model, name, pricing);
        let row = ModelTotals { model: name.to_owned(), totals };
        let ghost old_rows = model_rows(rows@);
        proof {
            summary_counts(group(all, Key::Model, name@), pricing@);
            lemma_larger_order::<P>();
            assert forall|i: int| 0 <= i < rows@.len() implies (
            #[trigger] rows@[i])@.totals.usage.total() <= u64::MAX by {
                assert(old_rows[i] == rows@[i]@);
                assert(has_group(all, Key::Model, old_rows[i].model));
                summary_counts(group(all, Key::Model, old_rows[i].model), pricing@);
            }
        }
        let mut at: usize = 0;
        while at < rows.len() && !is_larger(&row, &rows[at])
            invariant
                at <= rows@.len(),
                old_rows == model_rows(rows@),
                before == larger::<P>(),
                row@.totals.usage.total() <= u64::MAX,
                forall|i: int|
                    0 <= i < rows@.len() ==> (#[trigger] rows@[i])@.totals.usage.total()
                        <= u64::MAX,
                n < names@.len(),
                row@.model == names@[n as int]@,
                forall|i: int, j: int|
                    0 <= i < j < names@.len() ==> (#[trigger] names@[i])@ != (
                    #[trigger] names@[j])@,
                forall|i: int|
                    0 <= i < rows@.len() ==> is_named(
                        names@.take(n as int),
                        (#[trigger] model_rows(rows@)[i]).model,
                    ),
                forall|i: int| 0 <= i < at ==> before(#[trigger] old_rows[i], row@),
                forall|a: ModelRow<P>, b: ModelRow<P>|
                    a.model != b.model ==> #[trigger] before(a, b) || before(b, a),
            decreases rows@.len() - at,
        {
            proof {
                let other = old_rows[at as int];
                assert(other == rows@[at as int]@);
                let w = choose|w: int|
                    0 <= w < names@.take(n as int).len() && (#[trigger] names@.take(n as int)[w])@
                        == other.model;
                assert(names@[w]@ == other.model);
                assert(other.model != row@.model);
                assert(before(row@, other) || before(other, row@));
            }
            at += 1;
        }
        proof {
            lemma_insert_sorted(old_rows, at as int, row@, before);
        }
        rows.insert(at, row);
        proof {
            let new_rows = model_rows(rows@);
            assert(new_rows =~= old_rows.insert(at as int, row@));
            assert forall|i: int| 0 <= i < rows@.len() implies has_group(
                all,
                Key::Model,
                (#[trigger] new_rows[i]).model,
            ) && new_rows[i].totals == summary(
                group(all, Key::Model, new_rows[i].model),
                pricing@,
            ) && is_named(names@.take(n + 1), new_rows[i].model) by {
                if i == at {
                    assert(names@.take(n + 1)[n as int]@ == new_rows[i].model);
                    assert(has_group(all, Key::Model, names@[n as int]@));
                } else {
                    let k = if i < at {
                        i
                    } else {
                        i - 1
                    };
                    assert(new_rows[i] == old_rows[k]);
                    let w = choose|w: int|
                        0 <= w < names@.take(n as int).len() && (#[trigger] names@.take(
                            n as int,
                        )[w])@ == old_rows[k].model;
                    assert(names@.take(n + 1)[w]@ == old_rows[k].model);
                }
            }
            assert forall|k: int| 0 <= k < n + 1 implies has_model(
                new_rows,
                (#[trigger] names@[k])@,
            ) by {
                if k == n {
                    assert(new_rows[at as int].model == names@[k]@);
                } else {
                    let w = choose|w: int|
                        0 <= w < old_rows.len() && (#[trigger] old_rows[w]).model == names@[k]@;
                    let v = if w < at {
                        w
                    } else {
                        w + 1
                    };
                    assert(new_rows[v].model == names@[k]@);
                }
            }
        }
        n += 1;
    }
    proof {
        let out = model_rows(rows@);
        assert forall|k: int| 0 <= k < all.len() implies has_model(
            out,
            (#[trigger] all[k]).model,
        ) by {
            assert(is_named(names@, key_of(Key::Model, all[k])));
            let w = choose|w: int|
                0 <= w < names@.len() && (#[trigger] names@[w])@ == all[k].model;
            assert(has_model(out, names@[w]@));
        }
    }
    rows
}

proof fn lemma_larger_order<P>()
    ensures
        forall|a: ModelRow<P>, b: ModelRow<P>, c: ModelRow<P>| #[trigger]
            larger::<P>()(a, b) && #[trigger] larger::<P>()(b, c) ==> larger::<P>()(a, c),
        forall|a: ModelRow<P>, b: ModelRow<P>|
            a.model != b.model ==> #[trigger] larger::<P>()(a, b) || larger::<P>()(b, a),
{
    assert forall|a: ModelRow<P>, b: ModelRow<P>, c: ModelRow<P>| #[trigger]
        larger::<P>()(a, b) && #[trigger] larger::<P>()(b, c) implies larger::<P>()(a, c) by {
        text_before_is_a_strict_total_order(a.model, b.model, c.model);
    }
    assert forall|a: ModelRow<P>, b: ModelRow<P>| a.model != b.model implies #[trigger] larger::<
        P,
    >()(a, b) || larger::<P>()(b, a) by {
        text_before_is_a_strict_total_order(a.model, b.model, b.model);
    }
}

/// The totals of one session.
#[derive(Debug, Clone)]
pub struct SessionTotals<P> {
    pub session: String,
    pub first: Timestamp,
    pub last: Timestamp,
    pub totals: Totals<P>,
}

/// What a [`SessionTotals`] says.
#[verifier::ext_equal]
pub struct SessionRow<P> {
    pub session: Seq<char>,
    pub first: Timestamp,
    pub last: Timestamp,
    pub totals: Summary<P>,
}

impl<P> View for SessionTotals<P> {
    type V = SessionRow<P>;

    open spec fn view(&self) -> SessionRow<P> {
        SessionRow {
            session: self.session@,
            first: self.first,
            last: self.last,
            totals: self.totals@,
        }
    }
}

/// Sessions that were active later come first, and those last active at the same moment in
/// the order of their names.
pub open spec fn more_recent<P>() -> spec_fn(SessionRow<P>, SessionRow<P>) -> bool {
    |a: SessionRow<P>, b: SessionRow<P>|
        b.last.earlier(a.last) || (a.last == b.last && text_before(a.session, b.session))
}

/// The views of a list of rows.
pub open spec fn session_rows<P>(rows: Seq<SessionTotals<P>>) -> Seq<SessionRow<P>> {
    rows.map_values(|r: SessionTotals<P>| r@)
}

/// Some row is that of the session `name`.
pub open spec fn has_session<P>(rows: Seq<SessionRow<P>>, name: Seq<char>) -> bool {
    exists|i: int| 0 <= i < rows.len() && (#[trigger] rows[i]).session == name
}

/// The row is that of its session's responses.
pub open spec fn is_session_row<P>(
    row: SessionRow<P>,
    events: Seq<Event>,
    prices: Prices<P>,
) -> bool {
    let own = group(events, Key::Session, row.session);
    &&& has_group(events, Key::Session, row.session)
    &&& row.totals == summary(own, prices)
    &&& is_earliest(own, row.first)
    &&& is_latest(own, row.last)
}

/// `rows` holds the totals of every session in `events`, most recently active first.
pub open spec fn is_session_table<P>(
    rows: Seq<SessionRow<P>>,
    events: Seq<Event>,
    prices: Prices<P>,
) -> bool {
    &&& sorted(rows, more_recent())
    &&& forall|i: int| 0 <= i < rows.len() ==> is_session_row(#[trigger] rows[i], events, prices)
    &&& forall|k: int| 0 <= k < events.len() ==> has_session(rows, (#[trigger] events[k]).session)
}

/// Whether a row comes before another in [`by_session`].
fn is_more_recent<P>(a: &SessionTotals<P>, b: &SessionTotals<P>) -> (r: bool)
    ensures
        r == more_recent::<P>()(a@, b@),
{
    b.last.is_before(a.last) || (a.last == b.last && str_before(
        a.session.as_str(),
        b.session.as_str(),
    ))
}

proof fn lemma_extremes_step(events: Seq<Event>, ev: Event, first: Timestamp, last: Timestamp)
    requires
        is_earliest(events, first),
        is_latest(events, last),
    ensures
        is_earliest(
            events.push(ev),
            if ev.timestamp.earlier(first) {
                ev.timestamp
            } else {
                first
            },
        ),
        is_latest(
            events.push(ev),
            if last.earlier(ev.timestamp) {
                ev.timestamp
            } else {
                last
            },
        ),
{
    let more = events.push(ev);
    let n = events.len() as int;
    let f = choose|i: int| 0 <= i < events.len() && (#[trigger] events[i]).timestamp == first;
    let l = choose|i: int| 0 <= i < events.len() && (#[trigger] events[i]).timestamp == last;
    assert(more[f].timestamp == first && more[l].timestamp == last);
    assert(more[n].timestamp == ev.timestamp);
    assert forall|i: int| 0 <= i < n implies more[i] == events[i] by {}
}

/// The first and the last moment of the responses of one group.
fn group_span(events: &Vec<EventRef<'_>>, key: Key, name: &str) -> (r: (Timestamp, Timestamp))
    requires
        has_group(views(events@), key, name@),
    ensures
        is_earliest(group(views(events@), key, name@), r.0),
        is_latest(group(views(events@), key, name@), r.1),
{
    let ghost all = views(events@);
    let ghost keep = in_group(key, name@);
    let mut span: Option<(Timestamp, Timestamp)> = None;
    let mut i: usize = 0;
    proof {
        reveal(Seq::filter);
        assert(all.take(0) =~= Seq::<Event>::empty());
    }
    while i < events.len()
        invariant
            i <= events@.len(),
            all == views(events@),
            keep == in_group(key, name@),
            span is None ==> forall|k: int| 0 <= k < i ==> key_of(key, #[trigger] all[k]) != name@,
            span is None ==> all.take(i as int).filter(keep).len() == 0,
            span matches Some((first, last)) ==> is_earliest(
                all.take(i as int).filter(keep),
                first,
            ) && is_latest(all.take(i as int).filter(keep), last),
        decreases events@.len() - i,
    {
        let ev = &events[i];
        let ghost before = all.take(i as int).filter(keep);
        proof {
            assert(all[i as int] == ev@);
            lemma_filter_step(all, i as int, keep);
        }
        if str_eq(key_text(key, ev), name) {
            let t = ev.timestamp;
            span = match span {
                None => {
                    proof {
                        assert(before.push(ev@)[0].timestamp == t);
                    }
                    Some((t, t))
                },
                Some((first, last)) => {
                    proof {
                        lemma_extremes_step(before, ev@, first, last);
                    }
                    Some(
                        (
                            if t.is_before(first) {
                                t
                            } else {
                                first
                            },
                            if last.is_before(t) {
                                t
                            } else {
                                last
                            },
                        ),
                    )
                },
            };
        }
        i += 1;
    }
    assert(all.take(i as int) =~= all);
    match span {
        Some(s) => s,
        None => {
            proof {
                let k = choose|k: int| 0 <= k < all.len() && key_of(key, #[trigger] all[k]) == name@;
                assert(false);
            }
            let never = Timestamp { secs: 0, nanos: 0 };
            (never, never)
        },
    }
}

proof fn lemma_more_recent_order<P>()
    ensures
        forall|a: SessionRow<P>, b: SessionRow<P>, c: SessionRow<P>| #[trigger]
            more_recent::<P>()(a, b) && #[trigger] more_recent::<P>()(b, c) ==> more_recent::<P>()(
                a,
                c,
            ),
        forall|a: SessionRow<P>, b: SessionRow<P>|
            a.session != b.session ==> #[trigger] more_recent::<P>()(a, b) || more_recent::<P>()(
                b,
                a,
            ),
{
    assert forall|a: SessionRow<P>, b: SessionRow<P>, c: SessionRow<P>| #[trigger]
        more_recent::<P>()(a, b) && #[trigger] more_recent::<P>()(b, c) implies more_recent::<
        P,
    >()(a, c) by {
        text_before_is_a_strict_total_order(a.session, b.session, c.session);
    }
    assert forall|a: SessionRow<P>, b: SessionRow<P>|
        a.session != b.session implies #[trigger] more_recent::<P>()(a, b) || more_recent::<P>()(
        b,
        a,
    ) by {
        text_before_is_a_strict_total_order(a.session, b.session, b.session);
    }
}

/// The sums over the responses of each session fit 64 bits.
pub open spec fn session_sums_fit<P>(events: Seq<Event>, prices: Prices<P>) -> bool {
    forall|name: Seq<char>| #[trigger]
        has_group(events, Key::Session, name) ==> sums_fit(
            group(events, Key::Session, name),
            prices,
        )
}

/// Per-session totals, most recently active first.
pub fn by_session<P: Copy>(
    store: &UsageStore,
    pricing: &PricingTable<P>,
    start: Timestamp,
    end: Timestamp,
) -> (rows: Vec<SessionTotals<P>>)
    requires
        store.wf(),
        session_sums_fit(events_between(*store, start, end), pricing@),
    ensures
        is_session_table(session_rows(rows@), events_between(*store, start, end), pricing@),
{
    let events = store.between(start, end);
    let names = group_names(&events, Key::Session);
    let ghost all = views(events@);
    let ghost before = more_recent::<P>();
    let mut rows: Vec<SessionTotals<P>> = Vec::new();
    let mut n: usize = 0;
    while n < names.len()
        invariant
            n <= names@.len(),
            all == views(events@),
            session_sums_fit(all, pricing@),
            before == more_recent::<P>(),
            forall|i: int|
                0 <= i < names@.len() ==> has_group(all, Key::Session, (#[trigger] names@[i])@),
            forall|i: int, j: int|
                0 <= i < j < names@.len() ==> (#[trigger] names@[i])@ != (#[trigger] names@[j])@,
            sorted(session_rows(rows@), before),
            forall|i: int|
                0 <= i < rows@.len() ==> is_session_row(
                    #[trigger] session_rows(rows@)[i],
                    all,
                    pricing@,
                ) && is_named(names@.take(n as int), session_rows(rows@)[i].session),
            forall|k: int| 0 <= k < n ==> has_session(session_rows(rows@), (#[trigger] names@[k])@),
        decreases names@.len() - n,
    {
        let name = names[n].as_str();
        assert(has_group(all, Key::Session, names@[n as int]@));
        let totals = group_totals(&events, Key::Session, name, pricing);
        let (first, last) = group_span(&events, Key::Session, name);
        let row = SessionTotals { session: name.to_owned(), first, last, totals };
        let ghost old_rows = session_rows(rows@);
        proof {
            lemma_more_recent_order::<P>();
        }
        let mut at: usize = 0;
        while at < rows.len() && !is_more_recent(&row, &rows[at])
            invariant
                at <= rows@.len(),
                old_rows == session_rows(rows@),
                before == more_recent::<P>(),
                n < names@.len(),
                row@.session == names@[n as int]@,
                forall|i: int, j: int|
                    0 <= i < j < names@.len() ==> (#[trigger] names@[i])@ != (
                    #[trigger] names@[j])@,
                forall|i: int|
                    0 <= i < rows@.len() ==> is_named(
                        names@.take(n as int),
                        (#[trigger] session_rows(rows@)[i]).session,
                    ),
                forall|i: int| 0 <= i < at ==> before(#[trigger] old_rows[i], row@),
                forall|a: SessionRow<P>, b: SessionRow<P>|
                    a.session != b.session ==> #[trigger] before(a, b) || before(b, a),
            decreases rows@.len() - at,
        {
            proof {
                let other = old_rows[at as int];
                assert(other == rows@[at as int]@);
                let w = choose|w: int|
                    0 <= w < names@.take(n as int).len() && (#[trigger] names@.take(n as int)[w])@
                        == other.session;
                assert(names@[w]@ == other.session);
                assert(before(row@, other) || before(other, row@));
            }
            at += 1;
        }
        proof {
            lemma_insert_sorted(old_rows, at as int, row@, before);
        }
        rows.insert(at, row);
        proof {
            let new_rows = session_rows(rows@);
            assert(new_rows =~= old_rows.insert(at as int, row@));
            assert forall|i: int| 0 <= i < rows@.len() implies is_session_row(
                #[trigger] new_rows[i],
                all,
                pricing@,
            ) && is_named(names@.take(n + 1), new_rows[i].session) by {
                if i == at {
                    assert(names@.take(n + 1)[n as int]@ == new_rows[i].session);
                } else {
                    let k = if i < at {
                        i
                    } else {
                        i - 1
                    };
                    assert(new_rows[i] == old_rows[k]);
                    let w = choose|w: int|
                        0 <= w < names@.take(n as int).len() && (#[trigger] names@.take(
                            n as int,
                        )[w])@ == old_rows[k].session;
                    assert(names@.take(n + 1)[w]@ == old_rows[k].session);
                }
            }
            assert forall|k: int| 0 <= k < n + 1 implies has_session(
                new_rows,
                (#[trigger] names@[k])@,
            ) by {
                if k == n {
                    assert(new_rows[at as int].session == names@[k]@);
                } else {
                    let w = choose|w: int|
                        0 <= w < old_rows.len() && (#[trigger] old_rows[w]).session == names@[k]@;
                    let v = if w < at {
                        w
                    } else {
                        w + 1
                    };
                    assert(new_rows[v].session == names@[k]@);
                }
            }
        }
        n += 1;
    }
    proof {
        let out = session_rows(rows@);
        assert forall|k: int| 0 <= k < all.len() implies has_session(
            out,
            (#[trigger] all[k]).session,
        ) by {
            assert(is_named(names@, key_of(Key::Session, all[k])));
            let w = choose|w: int|
                0 <= w < names@.len() && (#[trigger] names@[w])@ == all[k].session;
            assert(has_session(out, names@[w]@));
        }
    }
    rows
}

/// The totals of one calendar day.
#[derive(Debug, Clone)]
pub struct DayTotals<P> {
    pub date: Date,
    pub totals: Totals<P>,
}

/// The moments at which `date` begins and ends for a clock `east` seconds ahead of UTC.
pub open spec fn fixed_day(east: int, date: Date) -> (Timestamp, Timestamp) {
    (fixed_midnight(east, date), fixed_midnight(east, Date { day: (date.day + 1) as i32 }))
}

/// The days from `first` to `last` may lie between `start` and `end` in some time zone: each
/// of the two moments is near the midnight in question.
pub open spec fn may_bound(start: Timestamp, end: Timestamp, first: Date, last: Date) -> bool {
    near_midnight(start, first) && near_midnight(end, Date { day: (last.day + 1) as i32 })
}

/// `[start, end)` in UTC for the local calendar day `date` in `zone`. In the machine's own time
/// zone which moments these are depends on the machine.
pub fn day_bounds(zone: Zone, date: Date) -> (r: (Timestamp, Timestamp))
    requires
        zone.valid(),
        date.valid(),
        date.day < LAST_DAY,
    ensures
        r.0.valid(),
        r.1.valid(),
        zone matches Zone::Fixed(east) ==> r == fixed_day(east as int, date),
        zone is Local ==> may_bound(r.0, r.1, date, date),
{
    (local_midnight(zone, date), local_midnight(zone, Date { day: date.day + 1 }))
}

/// The first of the last `days` days that end with `end_date`.
pub open spec fn first_of_days(end_date: Date, days: nat) -> Date {
    Date { day: (end_date.day - days + 1) as i32 }
}

/// `[start, end)` in UTC for the last `days` local calendar days ending with `end_date`.
pub fn span_bounds(zone: Zone, end_date: Date, days: usize) -> (r: (Timestamp, Timestamp))
    requires
        zone.valid(),
        end_date.day < LAST_DAY,
        FIRST_DAY <= end_date.day - days + 1 < LAST_DAY,
        end_date.valid(),
    ensures
        r.0.valid(),
        r.1.valid(),
        zone matches Zone::Fixed(east) ==> r == (
            fixed_midnight(east as int, first_of_days(end_date, days as nat)),
            fixed_day(east as int, end_date).1,
        ),
        zone is Local ==> may_bound(r.0, r.1, first_of_days(end_date, days as nat), end_date),
{
    let first = Date { day: (end_date.day as i64 - days as i64 + 1) as i32 };
    (day_bounds(zone, first).0, day_bounds(zone, end_date).1)
}

/// The token counts of all events together fit 64 bits.
pub open spec fn store_fits(store: UsageStore) -> bool {
    tally(events_of(store@)).fits()
}

/// `sum` is the sum over the events of `date`, as some time zone bounds that day.
pub open spec fn is_day_sum<P>(
    sum: Summary<P>,
    store: UsageStore,
    date: Date,
    prices: Prices<P>,
) -> bool {
    exists|start: Timestamp, end: Timestamp|
        may_bound(start, end, date, date) && sum == summary(
            #[trigger] events_between(store, start, end),
            prices,
        )
}

/// `date` is the day that a clock less than a day away from UTC may show at `now`.
pub open spec fn may_be_today(date: Date, now: Timestamp) -> bool {
    date.valid() && -1 <= date.day - clock_day(0, now).day <= 1
}

/// Where the sums over all events of a store fit, those over any range of time do.
pub proof fn ranges_fit<P>(
    store: UsageStore,
    start: Timestamp,
    end: Timestamp,
    prices: Prices<P>,
)
    requires
        sums_fit(events_of(store@), prices),
    ensures
        sums_fit(events_between(store, start, end), prices),
{
    lemma_sums_of_filter(events_of(store@), in_range(start, end), prices);
}

proof fn lemma_group_of_filter<P>(
    events: Seq<Event>,
    keep: spec_fn(Event) -> bool,
    key: Key,
    name: Seq<char>,
    prices: Prices<P>,
)
    requires
        sums_fit(group(events, key, name), prices),
    ensures
        sums_fit(group(events.filter(keep), key, name), prices),
        within(tally(group(events.filter(keep), key, name)), tally(group(events, key, name))),
{
    let own = in_group(key, name);
    lemma_filters_commute(events, keep, own);
    lemma_sums_of_filter(group(events, key, name), keep, prices);
    lemma_filter_within(group(events, key, name), keep);
}

proof fn lemma_filters_commute(
    events: Seq<Event>,
    a: spec_fn(Event) -> bool,
    b: spec_fn(Event) -> bool,
)
    ensures
        events.filter(a).filter(b) == events.filter(b).filter(a),
    decreases events.len(),
{
    reveal(Seq::filter);
    if events.len() > 0 {
        let rest = events.drop_last();
        let ev = events.last();
        lemma_filters_commute(rest, a, b);
        assert(rest.filter(a).push(ev).drop_last() =~= rest.filter(a));
        assert(rest.filter(b).push(ev).drop_last() =~= rest.filter(b));
    }
}

/// Where the sums over the events of each model of a store fit, those over its events in any
/// range of time do.
pub proof fn model_ranges_fit<P>(
    store: UsageStore,
    start: Timestamp,
    end: Timestamp,
    prices: Prices<P>,
)
    requires
        model_sums_fit(events_of(store@), prices),
    ensures
        model_sums_fit(events_between(store, start, end), prices),
{
    let all = events_of(store@);
    let some = events_between(store, start, end);
    assert forall|name: Seq<char>| #[trigger] has_group(some, Key::Model, name) implies sums_fit(
        group(some, Key::Model, name),
        prices,
    ) && tally(group(some, Key::Model, name)).total() <= u64::MAX by {
        let i = choose|i: int|
            0 <= i < some.len() && key_of(Key::Model, #[trigger] some[i]) == name;
        lemma_filter_from(all, in_range(start, end), i);
        assert(has_group(all, Key::Model, name));
        lemma_group_of_filter(all, in_range(start, end), Key::Model, name, prices);
    }
}

proof fn lemma_filter_from(events: Seq<Event>, keep: spec_fn(Event) -> bool, i: int)
    requires
        0 <= i < events.filter(keep).len(),
    ensures
        exists|k: int| 0 <= k < events.len() && #[trigger] events[k] == events.filter(keep)[i],
    decreases events.len(),
{
    reveal(Seq::filter);
    if events.len() > 0 {
        let rest = events.drop_last();
        if i < rest.filter(keep).len() {
            lemma_filter_from(rest, keep, i);
            let k = choose|k: int|
                0 <= k < rest.len() && #[trigger] rest[k] == rest.filter(keep)[i];
            assert(events[k] == events.filter(keep)[i]);
        } else {
            assert(events[events.len() - 1] == events.filter(keep)[i]);
        }
    }
}

/// Where the token counts of all events together fit, so do all other sums.
pub proof fn small_stores_fit<P>(store: UsageStore, prices: Prices<P>)
    requires
        store_fits(store),
    ensures
        sums_fit(events_of(store@), prices),
        model_sums_fit(events_of(store@), prices),
        session_sums_fit(events_of(store@), prices),
{
    let all = events_of(store@);
    summary_counts(all, prices);
    assert forall|i: int| 0 <= i < all.len() implies (
    #[trigger] all[i]).usage.cache_creation_5m + all[i].usage.cache_creation_1h <= u64::MAX by {
        lemma_prefix_within(all, i + 1);
        assert(all.take(i + 1).drop_last() =~= all.take(i));
    }
    assert forall|name: Seq<char>| #[trigger] has_group(all, Key::Model, name) implies sums_fit(
        group(all, Key::Model, name),
        prices,
    ) && tally(group(all, Key::Model, name)).total() <= u64::MAX by {
        lemma_sums_of_filter(all, in_group(Key::Model, name), prices);
        lemma_filter_within(all, in_group(Key::Model, name));
    }
    assert forall|name: Seq<char>| #[trigger] has_group(all, Key::Session, name) implies sums_fit(
        group(all, Key::Session, name),
        prices,
    ) by {
        lemma_sums_of_filter(all, in_group(Key::Session, name), prices);
    }
}

/// The day that a clock `east` seconds ahead of UTC shows at `now`.
pub open spec fn clock_day(east: int, now: Timestamp) -> Date {
    Date { day: ((now.secs + east) / DAY_SECS as int + EPOCH_DAY) as i32 }
}

/// The events from the start of `first` to the end of `last`, for a clock `east` seconds ahead
/// of UTC.
pub open spec fn days_events(store: UsageStore, east: int, first: Date, last: Date) -> Seq<Event> {
    events_between(store, fixed_midnight(east, first), fixed_day(east, last).1)
}

/// Totals for the local calendar day containing `now`. In the machine's own time zone which
/// day that is, and where it begins and ends, depends on the machine.
pub fn today<P: Copy>(
    store: &UsageStore,
    pricing: &PricingTable<P>,
    zone: Zone,
    now: Timestamp,
) -> (t: Totals<P>)
    requires
        store.wf(),
        zone.valid(),
        now.valid(),
        zone matches Zone::Fixed(east) ==> second_in_range(now.secs + east) && second_in_range(
            now.secs + east + DAY_SECS,
        ) && sums_fit(
            days_events(
                *store,
                east as int,
                clock_day(east as int, now),
                clock_day(east as int, now),
            ),
            pricing@,
        ),
        zone is Local ==> now.well_inside() && sums_fit(events_of(store@), pricing@),
    ensures
        zone matches Zone::Fixed(east) ==> t@ == summary(
            days_events(
                *store,
                east as int,
                clock_day(east as int, now),
                clock_day(east as int, now),
            ),
            pricing@,
        ),
        zone is Local ==> exists|date: Date|
            may_be_today(date, now) && #[trigger] is_day_sum(t@, *store, date, pricing@),
{
    let date = local_date(zone, now);
    let (start, end) = day_bounds(zone, date);
    proof {
        if zone is Local {
            ranges_fit(*store, start, end, pricing@);
        }
    }
    let t = totals(store, pricing, start, end);
    assert(zone is Local ==> is_day_sum(t@, *store, date, pricing@));
    t
}

/// A local calendar day and the moments between which it lies.
#[derive(Debug, Clone, Copy, PartialEq, Eq, Structural)]
pub struct DayBounds {
    pub date: Date,
    pub start: Timestamp,
    pub end: Timestamp,
}

/// The totals of each of those days.
pub fn daily_over<P: Copy>(
    store: &UsageStore,
    pricing: &PricingTable<P>,
    days: &Vec<DayBounds>,
) -> (rows: Vec<DayTotals<P>>)
    requires
        store.wf(),
        forall|i: int|
            0 <= i < days@.len() ==> sums_fit(
                events_between(*store, (#[trigger] days@[i]).start, days@[i].end),
                pricing@,
            ),
    ensures
        rows@.len() == days@.len(),
        forall|i: int|
            0 <= i < days@.len() ==> (#[trigger] rows@[i]).date == days@[i].date
                && rows@[i].totals@ == summary(
                events_between(*store, days@[i].start, days@[i].end),
                pricing@,
            ),
{
    let mut rows: Vec<DayTotals<P>> = Vec::new();
    let mut i: usize = 0;
    while i < days.len()
        invariant
            store.wf(),
            i <= days@.len(),
            forall|k: int|
                0 <= k < days@.len() ==> sums_fit(
                    events_between(*store, (#[trigger] days@[k]).start, days@[k].end),
                    pricing@,
                ),
            rows@.len() == i,
            forall|k: int|
                0 <= k < i ==> (#[trigger] rows@[k]).date == days@[k].date && rows@[k].totals@
                    == summary(events_between(*store, days@[k].start, days@[k].end), pricing@),
        decreases days@.len() - i,
    {
        let day = days[i];
        let totals = totals(store, pricing, day.start, day.end);
        rows.push(DayTotals { date: day.date, totals });
        i += 1;
    }
    rows
}

/// The day `back` days before `end_date`.
pub open spec fn days_before(end_date: Date, back: int) -> Date {
    Date { day: (end_date.day - back) as i32 }
}

/// The day `n` days after `first`.
pub open spec fn days_after(first: Date, n: int) -> Date {
    Date { day: (first.day + n) as i32 }
}

/// `days` days from `first` on may begin at these moments in `zone`, with the end of the last as
/// one more: each day ends where the next begins.
pub open spec fn are_midnights(
    midnights: Seq<Timestamp>,
    zone: Zone,
    first: Date,
    days: nat,
) -> bool {
    midnights.len() == days + 1 && forall|i: int|
        0 <= i <= days ==> may_begin(#[trigger] midnights[i], zone, days_after(first, i))
}

/// Each of the days lies between two of the moments that follow on each other.
pub open spec fn lie_between(days: Seq<DayBounds>, midnights: Seq<Timestamp>) -> bool {
    midnights.len() == days.len() + 1 && forall|i: int|
        0 <= i < days.len() ==> (#[trigger] days[i]).start == midnights[i] && days[i].end
            == midnights[i + 1]
}

/// Each row holds the sums over the events between two of the moments that follow on each
/// other.
pub open spec fn are_day_sums<P>(
    rows: Seq<DayTotals<P>>,
    store: UsageStore,
    midnights: Seq<Timestamp>,
    prices: Prices<P>,
) -> bool {
    midnights.len() == rows.len() + 1 && forall|i: int|
        0 <= i < rows.len() ==> (#[trigger] rows[i]).totals@ == summary(
            events_between(store, midnights[i], midnights[i + 1]),
            prices,
        )
}

/// The last `days` local calendar days ending with `end_date`, oldest first. Each begins where
/// the one before it ends.
pub fn last_days(zone: Zone, end_date: Date, days: usize) -> (r: Vec<DayBounds>)
    requires
        zone.valid(),
        end_date.day < LAST_DAY,
        end_date.day - days + 1 >= FIRST_DAY,
    ensures
        r@.len() == days,
        forall|i: int|
            0 <= i < days ==> (#[trigger] r@[i]).date == days_before(end_date, days - 1 - i),
        forall|i: int| 0 <= i < days - 1 ==> (#[trigger] r@[i]).end == r@[i + 1].start,
        exists|midnights: Seq<Timestamp>|
            are_midnights(midnights, zone, first_of_days(end_date, days as nat), days as nat)
                && #[trigger] lie_between(r@, midnights),
        zone matches Zone::Fixed(east) ==> forall|i: int|
            0 <= i < days ==> ((#[trigger] r@[i]).start, r@[i].end) == fixed_day(
                east as int,
                r@[i].date,
            ),
        zone is Local ==> forall|i: int|
            0 <= i < days ==> may_bound(
                (#[trigger] r@[i]).start,
                r@[i].end,
                r@[i].date,
                r@[i].date,
            ),
{
    let first = Date { day: (end_date.day as i64 - days as i64 + 1) as i32 };
    let mut r: Vec<DayBounds> = Vec::new();
    let mut start = local_midnight(zone, first);
    let ghost mut midnights = seq![start];
    let mut date = first;
    let mut i: usize = 0;
    while i < days
        invariant
            zone.valid(),
            end_date.day < LAST_DAY,
            end_date.day - days + 1 >= FIRST_DAY,
            i <= days,
            first == first_of_days(end_date, days as nat),
            first.day == end_date.day - days + 1,
            date.day == first.day + i,
            r@.len() == i,
            start == midnights[i as int],
            may_begin(start, zone, date),
            zone matches Zone::Fixed(east) ==> start == fixed_midnight(east as int, date),
            zone is Local ==> near_midnight(start, date),
            are_midnights(midnights, zone, first, i as nat),
            lie_between(r@, midnights),
            forall|k: int|
                0 <= k < i ==> (#[trigger] r@[k]).date == days_before(end_date, days - 1 - k),
            zone matches Zone::Fixed(east) ==> forall|k: int|
                0 <= k < i ==> ((#[trigger] r@[k]).start, r@[k].end) == fixed_day(
                    east as int,
                    r@[k].date,
                ),
            zone is Local ==> forall|k: int|
                0 <= k < i ==> may_bound(
                    (#[trigger] r@[k]).start,
                    r@[k].end,
                    r@[k].date,
                    r@[k].date,
                ),
        decreases days - i,
    {
        let next = Date { day: date.day + 1 };
        let end = local_midnight(zone, next);
        r.push(DayBounds { date, start, end });
        proof {
            midnights = midnights.push(end);
            assert(days_after(first, i + 1) == next);
        }
        start = end;
        date = next;
        i += 1;
    }
    proof {
        assert forall|k: int| 0 <= k < days - 1 implies (#[trigger] r@[k]).end == r@[k + 1].start by {
            assert(r@[k + 1].start == midnights[k + 1]);
        }
    }
    r
}

pub(crate) proof fn lemma_day_sums<P>(
    rows: Seq<DayTotals<P>>,
    days: Seq<DayBounds>,
    store: UsageStore,
    midnights: Seq<Timestamp>,
    prices: Prices<P>,
)
    requires
        lie_between(days, midnights),
        rows.len() == days.len(),
        forall|i: int|
            0 <= i < days.len() ==> (#[trigger] rows[i]).totals@ == summary(
                events_between(store, days[i].start, days[i].end),
                prices,
            ),
    ensures
        are_day_sums(rows, store, midnights, prices),
{
    assert forall|i: int| 0 <= i < rows.len() implies (#[trigger] rows[i]).totals@ == summary(
        events_between(store, midnights[i], midnights[i + 1]),
        prices,
    ) by {
        assert(days[i].start == midnights[i]);
    }
}

/// The sums over each of the last `days` days fit 64 bits, for a clock `east` seconds ahead of
/// UTC.
pub open spec fn each_day_fits<P>(
    store: UsageStore,
    east: int,
    end_date: Date,
    days: nat,
    prices: Prices<P>,
) -> bool {
    forall|back: int|
        0 <= back < days ==> sums_fit(
            days_events(
                store,
                east,
                #[trigger] days_before(end_date, back),
                days_before(end_date, back),
            ),
            prices,
        )
}

/// The last `days` local calendar days ending with `end_date` (inclusive), oldest first. Each
/// begins where the one before it ends. In the machine's own time zone where that is depends on
/// the machine.
pub fn daily<P: Copy>(
    store: &UsageStore,
    pricing: &PricingTable<P>,
    zone: Zone,
    end_date: Date,
    days: usize,
) -> (rows: Vec<DayTotals<P>>)
    requires
        store.wf(),
        zone.valid(),
        end_date.day < LAST_DAY,
        end_date.day - days + 1 >= FIRST_DAY,
        zone matches Zone::Fixed(east) ==> each_day_fits(
            *store,
            east as int,
            end_date,
            days as nat,
            pricing@,
        ),
        zone is Local ==> sums_fit(events_of(store@), pricing@),
    ensures
        rows@.len() == days,
        forall|i: int|
            0 <= i < days ==> (#[trigger] rows@[i]).date == days_before(end_date, days - 1 - i),
        zone matches Zone::Fixed(east) ==> forall|i: int|
            0 <= i < days ==> (#[trigger] rows@[i]).totals@ == summary(
                days_events(*store, east as int, rows@[i].date, rows@[i].date),
                pricing@,
            ),
        exists|midnights: Seq<Timestamp>|
            are_midnights(midnights, zone, first_of_days(end_date, days as nat), days as nat)
                && #[trigger] are_day_sums(rows@, *store, midnights, pricing@),
{
    let bounds = last_days(zone, end_date, days);
    proof {
        assert forall|i: int| 0 <= i < days implies sums_fit(
            events_between(*store, (#[trigger] bounds@[i]).start, bounds@[i].end),
            pricing@,
        ) by {
            match zone {
                Zone::Fixed(east) => {
                    let date = days_before(end_date, days - 1 - i);
                    assert(sums_fit(days_events(*store, east as int, date, date), pricing@));
                },
                Zone::Local => {
                    ranges_fit(*store, bounds@[i].start, bounds@[i].end, pricing@);
                },
            }
        }
    }
    let rows = daily_over(store, pricing, &bounds);
    proof {
        let midnights = choose|midnights: Seq<Timestamp>|
            are_midnights(midnights, zone, first_of_days(end_date, days as nat), days as nat)
                && #[trigger] lie_between(bounds@, midnights);
        lemma_day_sums(rows@, bounds@, *store, midnights, pricing@);
    }
    rows
}

/// Totals for the trailing window `[now - window, now)`. Token counts only —
/// this is NOT the subscription limit, whose size is not published.
pub fn trailing<P: Copy>(
    store: &UsageStore,
    pricing: &PricingTable<P>,
    now: Timestamp,
    window: Span,
) -> (t: Totals<P>)
    requires
        store.wf(),
        now.valid(),
        window.valid(),
        second_in_range(shifted(now, -window.total()).0),
        sums_fit(events_between(*store, moved(now, -window.total()), now), pricing@),
    ensures
        t@ == summary(events_between(*store, moved(now, -window.total()), now), pricing@),
{
    match checked_sub_signed(now, window) {
        Some(start) => totals(store, pricing, start, now),
        None => Totals::new(),
    }
}

/// Whether the token counts of all events together fit 64 bits.
pub fn fits(store: &UsageStore) -> (r: bool)
    requires
        store.wf(),
    ensures
        r == store_fits(*store),
{
    let events = store.iter();
    let ghost all = views(events@);
    let mut sum = TokenUsage::default();
    let mut i: usize = 0;
    assert(all.take(0) =~= Seq::<Event>::empty());
    while i < events.len()
        invariant
            i <= events@.len(),
            all == views(events@),
            all == events_of(store@),
            sum@ == tally(all.take(i as int)),
            sum@.fits(),
        decreases events@.len() - i,
    {
        let u = events[i].usage;
        let next = Wide {
            input: sum.input as u128 + u.input as u128,
            output: sum.output as u128 + u.output as u128,
            cache_creation: sum.cache_creation as u128 + u.cache_creation as u128,
            cache_creation_5m: sum.cache_creation_5m as u128 + u.cache_creation_5m as u128,
            cache_creation_1h: sum.cache_creation_1h as u128 + u.cache_creation_1h as u128,
            cache_read: sum.cache_read as u128 + u.cache_read as u128,
            thinking: sum.thinking as u128 + u.thinking as u128,
        };
        proof {
            assert(all[i as int] == events@[i as int]@);
            assert(all.take(i + 1).drop_last() =~= all.take(i as int));
            lemma_prefix_within(all, i + 1);
        }
        if !next.fits_64() {
            return false;
        }
        sum.add(&u);
        i += 1;
    }
    assert(all.take(i as int) =~= all);
    true
}

/// Token counts wide enough for a sum of two.
struct Wide {
    input: u128,
    output: u128,
    cache_creation: u128,
    cache_creation_5m: u128,
    cache_creation_1h: u128,
    cache_read: u128,
    thinking: u128,
}

impl Wide {
    spec fn tally(self) -> Tally {
        Tally {
            input: self.input as nat,
            output: self.output as nat,
            cache_creation: self.cache_creation as nat,
            cache_creation_5m: self.cache_creation_5m as nat,
            cache_creation_1h: self.cache_creation_1h as nat,
            cache_read: self.cache_read as nat,
            thinking: self.thinking as nat,
        }
    }

    fn fits_64(&self) -> (r: bool)
        requires
            self.input < 0x2_0000_0000_0000_0000,
            self.output < 0x2_0000_0000_0000_0000,
            self.cache_creation < 0x2_0000_0000_0000_0000,
            self.cache_creation_5m < 0x2_0000_0000_0000_0000,
            self.cache_creation_1h < 0x2_0000_0000_0000_0000,
            self.cache_read < 0x2_0000_0000_0000_0000,
        ensures
            r == self.tally().fits(),
    {
        let max: u128 = 0xffff_ffff_ffff_ffff;
        self.thinking <= max && self.cache_creation_5m + self.cache_creation_1h <= max && self.input
            + self.output + self.cache_creation + self.cache_read <= max
    }
}

/// `whole` is what `a` and `b` make together.
pub open spec fn adds_up<P>(whole: Summary<P>, a: Summary<P>, b: Summary<P>) -> bool {
    &&& whole.usage == a.usage.plus(b.usage)
    &&& whole.requests == a.requests + b.requests
    &&& whole.charges.to_multiset() == a.charges.to_multiset().add(b.charges.to_multiset())
    &&& whole.unpriced == a.unpriced + b.unpriced
}

proof fn lemma_push_event<P>(events: Seq<Event>, ev: Event, prices: Prices<P>)
    ensures
        summary(events.push(ev), prices) == with_event(summary(events, prices), ev, prices),
        tally(events.push(ev)) == tally(events).plus(ev.usage@),
{
    assert(events.push(ev).drop_last() =~= events);
}

proof fn lemma_adds_up_left<P>(
    whole: Summary<P>,
    a: Summary<P>,
    b: Summary<P>,
    ev: Event,
    prices: Prices<P>,
)
    requires
        adds_up(whole, a, b),
    ensures
        adds_up(with_event(whole, ev, prices), with_event(a, ev, prices), b),
        adds_up(with_event(whole, ev, prices), a, with_event(b, ev, prices)),
{
    broadcast use vstd::seq_lib::group_to_multiset_ensures;

    if let Some(c) = prices.charge(ev.model, ev.usage, ev.fast) {
        let w = whole.charges.push(c).to_multiset();
        assert(w =~= whole.charges.to_multiset().insert(c));
        assert(a.charges.push(c).to_multiset() =~= a.charges.to_multiset().insert(c));
        assert(b.charges.push(c).to_multiset() =~= b.charges.to_multiset().insert(c));
        assert(w =~= a.charges.push(c).to_multiset().add(b.charges.to_multiset()));
        assert(w =~= a.charges.to_multiset().add(b.charges.push(c).to_multiset()));
    }
}

/// Splitting a range of time at any moment loses nothing and counts nothing twice.
pub proof fn adjacent_ranges_add_up<P>(
    events: Seq<Event>,
    prices: Prices<P>,
    start: Timestamp,
    middle: Timestamp,
    end: Timestamp,
)
    requires
        !middle.earlier(start),
        !end.earlier(middle),
    ensures
        adds_up(
            summary(events.filter(in_range(start, end)), prices),
            summary(events.filter(in_range(start, middle)), prices),
            summary(events.filter(in_range(middle, end)), prices),
        ),
    decreases events.len(),
{
    reveal(Seq::filter);
    broadcast use vstd::seq_lib::group_to_multiset_ensures;

    if events.len() > 0 {
        let rest = events.drop_last();
        let ev = events.last();
        adjacent_ranges_add_up(rest, prices, start, middle, end);
        let whole = rest.filter(in_range(start, end));
        let a = rest.filter(in_range(start, middle));
        let b = rest.filter(in_range(middle, end));
        lemma_push_event(whole, ev, prices);
        lemma_push_event(a, ev, prices);
        lemma_push_event(b, ev, prices);
        lemma_adds_up_left(
            summary(whole, prices),
            summary(a, prices),
            summary(b, prices),
            ev,
            prices,
        );
    } else {
        assert(nothing::<P>().charges.to_multiset() =~= nothing::<P>().charges.to_multiset().add(
            nothing::<P>().charges.to_multiset(),
        ));
    }
}

/// The counts of the days from `first` on, `days` of them, for a clock `east` seconds ahead
/// of UTC.
pub open spec fn days_tally(events: Seq<Event>, east: int, first: Date, days: nat) -> Tally
    decreases days,
{
    if days == 0 {
        Tally::zero()
    } else {
        let last = Date { day: (first.day + days - 1) as i32 };
        let (start, end) = fixed_day(east, last);
        days_tally(events, east, first, (days - 1) as nat).plus(
            tally(events.filter(in_range(start, end))),
        )
    }
}

/// Consecutive local days add up to the time from the start of the first to the end of the
/// last: every event belongs to just one day, also in a session that spans midnight.
pub proof fn days_add_up(events: Seq<Event>, east: int, first: Date, days: nat)
    requires
        -DAY_SECS < east < DAY_SECS,
        first.day > FIRST_DAY,
        first.day + days < LAST_DAY,
    ensures
        days_tally(events, east, first, days) == tally(
            events.filter(
                in_range(
                    fixed_midnight(east, first),
                    fixed_midnight(east, Date { day: (first.day + days) as i32 }),
                ),
            ),
        ),
    decreases days,
{
    let start = fixed_midnight(east, first);
    let end = fixed_midnight(east, Date { day: (first.day + days) as i32 });
    crate::time::fixed_midnight_is_exact(east, first);
    crate::time::fixed_midnight_is_exact(east, Date { day: (first.day + days) as i32 });
    if days == 0 {
        lemma_nothing_between(events, start);
    } else {
        days_add_up(events, east, first, (days - 1) as nat);
        let last = Date { day: (first.day + days - 1) as i32 };
        let middle = fixed_midnight(east, last);
        crate::time::fixed_midnight_is_exact(east, last);
        let prices = Prices::<u8> { models: Map::empty(), fast_mode: Map::empty() };
        adjacent_ranges_add_up(events, prices, start, middle, end);
        summary_counts(events.filter(in_range(start, end)), prices);
        summary_counts(events.filter(in_range(start, middle)), prices);
        summary_counts(events.filter(in_range(middle, end)), prices);
    }
}

/// What sums amount to, in whatever order the responses came.
#[verifier::ext_equal]
pub struct Amounts<P> {
    pub usage: Tally,
    pub requests: nat,
    pub charges: Multiset<Charge<P>>,
    pub unpriced: nat,
}

impl<P> Amounts<P> {
    /// Nothing.
    pub open spec fn zero() -> Amounts<P> {
        Amounts { usage: Tally::zero(), requests: 0, charges: Multiset::empty(), unpriced: 0 }
    }

    /// Both together.
    pub open spec fn plus(self, other: Amounts<P>) -> Amounts<P> {
        Amounts {
            usage: self.usage.plus(other.usage),
            requests: self.requests + other.requests,
            charges: self.charges.add(other.charges),
            unpriced: self.unpriced + other.unpriced,
        }
    }
}

impl<P> Summary<P> {
    /// What the sums amount to.
    pub open spec fn amounts(self) -> Amounts<P> {
        Amounts {
            usage: self.usage,
            requests: self.requests,
            charges: self.charges.to_multiset(),
            unpriced: self.unpriced,
        }
    }
}

/// What one response amounts to.
pub open spec fn amounts_of<P>(ev: Event, prices: Prices<P>) -> Amounts<P> {
    with_event(nothing(), ev, prices).amounts()
}

proof fn lemma_amounts_step<P>(sum: Summary<P>, ev: Event, prices: Prices<P>)
    ensures
        with_event(sum, ev, prices).amounts() == sum.amounts().plus(amounts_of(ev, prices)),
{
    broadcast use vstd::seq_lib::group_to_multiset_ensures;

    let one = with_event(nothing(), ev, prices);
    assert(nothing::<P>().charges.to_multiset() =~= Multiset::empty());
    let before = sum.charges.to_multiset();
    match prices.charge(ev.model, ev.usage, ev.fast) {
        Some(c) => {
            assert(one.charges.to_multiset() =~= Multiset::empty().insert(c));
            assert(sum.charges.push(c).to_multiset() =~= before.add(one.charges.to_multiset()));
        },
        None => {
            assert(before =~= before.add(one.charges.to_multiset()));
        },
    }
}

/// What the ranges between moments that follow on each other amount to.
pub open spec fn ranges_amounts<P>(
    events: Seq<Event>,
    moments: Seq<Timestamp>,
    prices: Prices<P>,
) -> Amounts<P>
    decreases moments.len(),
{
    if moments.len() < 2 {
        Amounts::zero()
    } else {
        let last = moments.len() - 1;
        ranges_amounts(events, moments.drop_last(), prices).plus(
            summary(
                events.filter(in_range(moments[last - 1], moments[last])),
                prices,
            ).amounts(),
        )
    }
}

/// Days that begin where the one before ends add up to the time from the start of the first to
/// the end of the last, in any time zone that has its midnights in order: every response counts
/// in just one day.
pub proof fn touching_days_add_up<P>(
    events: Seq<Event>,
    midnights: Seq<Timestamp>,
    prices: Prices<P>,
)
    requires
        midnights.len() > 0,
        forall|i: int, j: int|
            0 <= i <= j < midnights.len() ==> !(#[trigger] midnights[j]).earlier(
                #[trigger] midnights[i],
            ),
    ensures
        ranges_amounts(events, midnights, prices) == summary(
            events.filter(in_range(midnights[0], midnights.last())),
            prices,
        ).amounts(),
    decreases midnights.len(),
{
    broadcast use vstd::seq_lib::group_to_multiset_ensures;

    let last = midnights.len() - 1;
    if last == 0 {
        lemma_nothing_between(events, midnights[0]);
        assert(nothing::<P>().charges.to_multiset() =~= Multiset::empty());
    } else {
        let rest = midnights.drop_last();
        assert forall|i: int, j: int| 0 <= i <= j < rest.len() implies !(
        #[trigger] rest[j]).earlier(#[trigger] rest[i]) by {
            assert(!midnights[j].earlier(midnights[i]));
        }
        touching_days_add_up(events, rest, prices);
        adjacent_ranges_add_up(
            events,
            prices,
            midnights[0],
            midnights[last - 1],
            midnights[last],
        );
    }
}

proof fn lemma_nothing_between(events: Seq<Event>, t: Timestamp)
    ensures
        events.filter(in_range(t, t)) == Seq::<Event>::empty(),
    decreases events.len(),
{
    reveal(Seq::filter);
    if events.len() > 0 {
        lemma_nothing_between(events.drop_last(), t);
    }
}

/// What a list of groups amounts to.
pub open spec fn groups_amounts<P>(
    events: Seq<Event>,
    key: Key,
    names: Seq<Seq<char>>,
    prices: Prices<P>,
) -> Amounts<P>
    decreases names.len(),
{
    if names.len() == 0 {
        Amounts::zero()
    } else {
        groups_amounts(events, key, names.drop_last(), prices).plus(
            summary(group(events, key, names.last()), prices).amounts(),
        )
    }
}

proof fn lemma_groups_step<P>(
    events: Seq<Event>,
    ev: Event,
    key: Key,
    names: Seq<Seq<char>>,
    prices: Prices<P>,
)
    requires
        names.no_duplicates(),
    ensures
        groups_amounts(events.push(ev), key, names, prices) == if names.contains(key_of(key, ev)) {
            groups_amounts(events, key, names, prices).plus(amounts_of(ev, prices))
        } else {
            groups_amounts(events, key, names, prices)
        },
    decreases names.len(),
{
    reveal(Seq::filter);
    if names.len() > 0 {
        let rest = names.drop_last();
        let name = names.last();
        assert(rest.no_duplicates());
        lemma_groups_step(events, ev, key, rest, prices);
        assert(events.push(ev).drop_last() =~= events);
        let own = group(events, key, name);
        assert(own.push(ev).drop_last() =~= own);
        let before = groups_amounts(events, key, rest, prices);
        let sum = summary(own, prices);
        let one = amounts_of(ev, prices);
        if key_of(key, ev) == name {
            assert(names[names.len() - 1] == name);
            assert(!rest.contains(name)) by {
                if rest.contains(name) {
                    let i = choose|i: int| 0 <= i < rest.len() && rest[i] == name;
                    assert(names[i] == names[names.len() - 1]);
                }
            }
            lemma_amounts_step(sum, ev, prices);
            assert(before.plus(sum.amounts().plus(one)) =~= before.plus(sum.amounts()).plus(one));
        } else if names.contains(key_of(key, ev)) {
            let i = choose|i: int| 0 <= i < names.len() && names[i] == key_of(key, ev);
            assert(rest[i] == key_of(key, ev));
            assert(before.plus(one).plus(sum.amounts()) =~= before.plus(sum.amounts()).plus(one));
        } else if rest.contains(key_of(key, ev)) {
            let i = choose|i: int| 0 <= i < rest.len() && rest[i] == key_of(key, ev);
            assert(names[i] == key_of(key, ev));
        }
    }
}

/// Groups add up to the whole: where `names` holds every model (or session) of `events` once,
/// their sums amount to those of all events together.
pub proof fn groups_add_up<P>(
    events: Seq<Event>,
    key: Key,
    names: Seq<Seq<char>>,
    prices: Prices<P>,
)
    requires
        names.no_duplicates(),
        forall|i: int|
            0 <= i < events.len() ==> names.contains(key_of(key, #[trigger] events[i])),
    ensures
        groups_amounts(events, key, names, prices) == summary(events, prices).amounts(),
    decreases events.len(),
{
    if events.len() == 0 {
        lemma_no_groups(events, key, names, prices);
    } else {
        let rest = events.drop_last();
        assert forall|i: int| 0 <= i < rest.len() implies names.contains(
            key_of(key, #[trigger] rest[i]),
        ) by {
            assert(rest[i] == events[i]);
        }
        groups_add_up(rest, key, names, prices);
        lemma_groups_step(rest, events.last(), key, names, prices);
        lemma_amounts_step(summary(rest, prices), events.last(), prices);
        assert(rest.push(events.last()) =~= events);
        assert(names.contains(key_of(key, events[events.len() - 1])));
    }
}

proof fn lemma_no_groups<P>(
    events: Seq<Event>,
    key: Key,
    names: Seq<Seq<char>>,
    prices: Prices<P>,
)
    requires
        events.len() == 0,
    ensures
        groups_amounts(events, key, names, prices) == nothing::<P>().amounts(),
    decreases names.len(),
{
    broadcast use vstd::seq_lib::group_to_multiset_ensures;

    reveal(Seq::filter);
    assert(nothing::<P>().charges.to_multiset() =~= Multiset::empty());
    if names.len() > 0 {
        lemma_no_groups(events, key, names.drop_last(), prices);
        assert(nothing::<P>().amounts().plus(nothing::<P>().amounts()) =~= nothing::<P>().amounts());
    }
}

/// The names of the rows of a model table.
pub open spec fn row_models<P>(rows: Seq<ModelRow<P>>) -> Seq<Seq<char>> {
    rows.map_values(|r: ModelRow<P>| r.model)
}

/// What the rows of a model table amount to.
pub open spec fn rows_amounts<P>(rows: Seq<ModelRow<P>>) -> Amounts<P>
    decreases rows.len(),
{
    if rows.len() == 0 {
        Amounts::zero()
    } else {
        rows_amounts(rows.drop_last()).plus(rows.last().totals.amounts())
    }
}

proof fn lemma_rows_are_groups<P>(rows: Seq<ModelRow<P>>, events: Seq<Event>, prices: Prices<P>)
    requires
        forall|i: int|
            0 <= i < rows.len() ==> (#[trigger] rows[i]).totals == summary(
                group(events, Key::Model, rows[i].model),
                prices,
            ),
    ensures
        rows_amounts(rows) == groups_amounts(events, Key::Model, row_models(rows), prices),
    decreases rows.len(),
{
    if rows.len() > 0 {
        let rest = rows.drop_last();
        assert forall|i: int| 0 <= i < rest.len() implies (#[trigger] rest[i]).totals == summary(
            group(events, Key::Model, rest[i].model),
            prices,
        ) by {
            assert(rest[i] == rows[i]);
        }
        lemma_rows_are_groups(rest, events, prices);
        assert(row_models(rows).drop_last() =~= row_models(rest));
        assert(rows[rows.len() - 1] == rows.last());
    }
}

/// The rows of [`by_model`] add up to the totals of the same range: tokens, responses, charges
/// and tokens without a price.
pub proof fn models_add_up<P>(rows: Seq<ModelRow<P>>, events: Seq<Event>, prices: Prices<P>)
    requires
        is_model_table(rows, events, prices),
    ensures
        rows_amounts(rows) == summary(events, prices).amounts(),
{
    let names = row_models(rows);
    assert(names.no_duplicates()) by {
        assert forall|i: int, j: int| 0 <= i < j < rows.len() implies names[i] != names[j] by {
            assert(larger::<P>()(rows[i], rows[j]));
            text_before_is_a_strict_total_order(rows[i].model, rows[j].model, rows[j].model);
            if names[i] == names[j] {
                assert(rows[i].totals == rows[j].totals);
            }
        }
    }
    assert forall|k: int| 0 <= k < events.len() implies names.contains(
        key_of(Key::Model, #[trigger] events[k]),
    ) by {
        assert(has_model(rows, events[k].model));
        let i = choose|i: int| 0 <= i < rows.len() && (#[trigger] rows[i]).model == events[k].model;
        assert(names[i] == events[k].model);
    }
    groups_add_up(events, Key::Model, names, prices);
    lemma_rows_are_groups(rows, events, prices);
}

/// Totals and rows stand for just what their fields hold.
pub proof fn totals_are_taken_as_they_are<P>(
    t: Totals<P>,
    m: ModelTotals<P>,
    s: SessionTotals<P>,
)
    ensures
        t@.usage.input == t.usage.input,
        t@.usage.output == t.usage.output,
        t@.usage.cache_creation == t.usage.cache_creation,
        t@.usage.cache_creation_5m == t.usage.cache_creation_5m,
        t@.usage.cache_creation_1h == t.usage.cache_creation_1h,
        t@.usage.cache_read == t.usage.cache_read,
        t@.usage.thinking == t.usage.thinking,
        t@.requests == t.requests,
        t@.charges == t.charges@,
        t@.unpriced == t.unpriced_tokens,
        m@.model == m.model@,
        m@.totals == m.totals@,
        s@.session == s.session@,
        s@.first == s.first,
        s@.last == s.last,
        s@.totals == s.totals@,
{
}

/// The sum of a number over a list of responses.
pub open spec fn sum_over(events: Seq<Event>, number: spec_fn(Event) -> nat) -> nat
    decreases events.len(),
{
    if events.len() == 0 {
        0
    } else {
        sum_over(events.drop_last(), number) + number(events.last())
    }
}

/// The tokens of a response that has no price, and none for one that has.
pub open spec fn tokens_without_price<P>(prices: Prices<P>) -> spec_fn(Event) -> nat {
    |e: Event|
        if prices.charge(e.model, e.usage, e.fast) is None {
            (e.usage.input + e.usage.output + e.usage.cache_creation + e.usage.cache_read) as nat
        } else {
            0
        }
}

/// Totals are sums over all responses, each counted once: of every kind of token, of the
/// responses, and of the tokens without a price.
pub proof fn totals_are_sums<P>(events: Seq<Event>, prices: Prices<P>)
    ensures
        ({
            let s = summary(events, prices);
            &&& s.requests == events.len()
            &&& s.usage.input == sum_over(events, |e: Event| e.usage.input as nat)
            &&& s.usage.output == sum_over(events, |e: Event| e.usage.output as nat)
            &&& s.usage.cache_creation == sum_over(
                events,
                |e: Event| e.usage.cache_creation as nat,
            )
            &&& s.usage.cache_creation_5m == sum_over(
                events,
                |e: Event| e.usage.cache_creation_5m as nat,
            )
            &&& s.usage.cache_creation_1h == sum_over(
                events,
                |e: Event| e.usage.cache_creation_1h as nat,
            )
            &&& s.usage.cache_read == sum_over(events, |e: Event| e.usage.cache_read as nat)
            &&& s.usage.thinking == sum_over(events, |e: Event| e.usage.thinking as nat)
            &&& s.unpriced == sum_over(events, tokens_without_price(prices))
            &&& tally(events) == s.usage
        }),
    decreases events.len(),
{
    if events.len() > 0 {
        totals_are_sums(events.drop_last(), prices);
    }
}

/// The responses that have a price.
pub open spec fn has_price<P>(prices: Prices<P>) -> spec_fn(Event) -> bool {
    |e: Event| prices.charge(e.model, e.usage, e.fast) is Some
}

/// There is one charge for each response that has a price, in order, and it is that of the
/// response.
pub proof fn each_priced_response_is_charged<P>(events: Seq<Event>, prices: Prices<P>)
    ensures
        ({
            let priced = events.filter(has_price(prices));
            let charges = summary(events, prices).charges;
            &&& charges.len() == priced.len()
            &&& forall|i: int|
                0 <= i < charges.len() ==> prices.charge(
                    priced[i].model,
                    priced[i].usage,
                    priced[i].fast,
                ) == Some(#[trigger] charges[i])
        }),
    decreases events.len(),
{
    reveal(Seq::filter);
    if events.len() > 0 {
        each_priced_response_is_charged(events.drop_last(), prices);
    }
}

/// The responses of a range of time are just those of the store that lie in it.
pub proof fn ranges_hold_what_lies_in_them(
    store: UsageStore,
    start: Timestamp,
    end: Timestamp,
    e: Event,
)
    ensures
        events_between(store, start, end).contains(e) <==> events_of(store@).contains(e) && {
            let t = e.timestamp;
            &&& t.secs > start.secs || (t.secs == start.secs && t.nanos >= start.nanos)
            &&& t.secs < end.secs || (t.secs == end.secs && t.nanos < end.nanos)
        },
        events_between(store, start, end) == events_of(store@).filter(in_range(start, end)),
{
    broadcast use vstd::seq_lib::group_filter_ensures;

    let all = events_of(store@);
    let some = events_between(store, start, end);
    if some.contains(e) {
        let i = choose|i: int| 0 <= i < some.len() && some[i] == e;
        assert(in_range(start, end)(some[i]));
        all.lemma_filter_contains_rev(in_range(start, end), e);
    }
    if all.contains(e) && in_range(start, end)(e) {
        let i = choose|i: int| 0 <= i < all.len() && all[i] == e;
        all.lemma_filter_contains(in_range(start, end), i);
    }
}

/// The responses of the model `name`.
pub open spec fn of_model(name: Seq<char>) -> spec_fn(Event) -> bool {
    |e: Event| e.model == name
}

/// The responses of the session `name`.
pub open spec fn of_session(name: Seq<char>) -> spec_fn(Event) -> bool {
    |e: Event| e.session == name
}

/// A table of models has one row for each model of the responses and no other, with the totals
/// of just its responses. More tokens come first, and models with equally many in the order of
/// their names.
pub proof fn what_a_model_table_holds<P>(
    rows: Seq<ModelRow<P>>,
    events: Seq<Event>,
    prices: Prices<P>,
    i: int,
    j: int,
    k: int,
)
    requires
        is_model_table(rows, events, prices),
    ensures
        0 <= i < rows.len() ==> rows[i].totals == summary(
            events.filter(of_model(rows[i].model)),
            prices,
        ),
        0 <= i < rows.len() ==> exists|n: int|
            0 <= n < events.len() && (#[trigger] events[n]).model == rows[i].model,
        0 <= k < events.len() ==> exists|n: int|
            0 <= n < rows.len() && (#[trigger] rows[n]).model == events[k].model,
        0 <= i < j < rows.len() ==> {
            let a = rows[i].totals.usage;
            let b = rows[j].totals.usage;
            let x = a.input + a.output + a.cache_creation + a.cache_read;
            let y = b.input + b.output + b.cache_creation + b.cache_read;
            x > y || (x == y && text_before(rows[i].model, rows[j].model))
        },
{
    if 0 <= i < rows.len() {
        assert(in_group(Key::Model, rows[i].model) =~= of_model(rows[i].model));
        assert(has_group(events, Key::Model, rows[i].model));
        let n = choose|n: int|
            0 <= n < events.len() && key_of(Key::Model, #[trigger] events[n]) == rows[i].model;
        assert(events[n].model == rows[i].model);
    }
    if 0 <= k < events.len() {
        assert(has_model(rows, events[k].model));
    }
    if 0 <= i < j < rows.len() {
        assert(larger::<P>()(rows[i], rows[j]));
    }
}

/// A table of sessions has one row for each session of the responses and no other, with the
/// totals of just its responses and the moments of the first and the last of them. Sessions that
/// were active later come first, and others in the order of their names.
pub proof fn what_a_session_table_holds<P>(
    rows: Seq<SessionRow<P>>,
    events: Seq<Event>,
    prices: Prices<P>,
    i: int,
    j: int,
    k: int,
)
    requires
        is_session_table(rows, events, prices),
    ensures
        0 <= i < rows.len() ==> {
            let own = events.filter(of_session(rows[i].session));
            &&& rows[i].totals == summary(own, prices)
            &&& own.len() > 0
            &&& is_earliest(own, rows[i].first)
            &&& is_latest(own, rows[i].last)
        },
        0 <= k < events.len() ==> exists|n: int|
            0 <= n < rows.len() && (#[trigger] rows[n]).session == events[k].session,
        0 <= i < j < rows.len() ==> {
            let a = rows[i].last;
            let b = rows[j].last;
            a.secs > b.secs || (a.secs == b.secs && a.nanos > b.nanos) || (a == b && text_before(
                rows[i].session,
                rows[j].session,
            ))
        },
{
    if 0 <= i < rows.len() {
        assert(is_session_row(rows[i], events, prices));
        assert(in_group(Key::Session, rows[i].session) =~= of_session(rows[i].session));
    }
    if 0 <= k < events.len() {
        assert(has_session(rows, events[k].session));
    }
    if 0 <= i < j < rows.len() {
        assert(more_recent::<P>()(rows[i], rows[j]));
    }
}

/// A day of a clock with a fixed offset begins at its midnight and lasts 24 hours; the day of a
/// moment is the one that it lies in.
pub proof fn days_of_a_clock(east: int, date: Date, now: Timestamp)
    requires
        -86_400 < east < 86_400,
        FIRST_DAY < date.day < LAST_DAY - 1,
        second_in_range(now.secs + east),
    ensures
        fixed_day(east, date).0.secs == (date.day - 719_163) * 86_400 - east,
        fixed_day(east, date).1.secs == (date.day - 719_162) * 86_400 - east,
        fixed_day(east, date).0.nanos == 0 && fixed_day(east, date).1.nanos == 0,
        clock_day(east, now).valid(),
        (clock_day(east, now).day - 719_163) * 86_400 <= now.secs + east < (clock_day(
            east,
            now,
        ).day - 719_162) * 86_400,
{
    crate::time::fixed_midnight_is_exact(east, date);
    crate::time::fixed_midnight_is_exact(east, Date { day: (date.day + 1) as i32 });
}

/// Days are counted back from the last one and on from the first, without a gap.
pub proof fn days_are_counted(end_date: Date, days: nat, back: int)
    requires
        i32::MIN <= end_date.day - days + 1 <= i32::MAX,
        i32::MIN <= end_date.day - back <= i32::MAX,
        i32::MIN <= end_date.day + back <= i32::MAX,
    ensures
        first_of_days(end_date, days).day == end_date.day - days + 1,
        days_before(end_date, back).day == end_date.day - back,
        days_after(end_date, back).day == end_date.day + back,
{
}

/// The responses of a number of days are those from the start of the first to the end of the
/// last.
pub proof fn days_hold_their_responses(store: UsageStore, east: int, first: Date, last: Date)
    ensures
        days_events(store, east, first, last) == events_of(store@).filter(
            in_range(fixed_day(east, first).0, fixed_day(east, last).1),
        ),
{
}

/// What holds of days in the machine's own time zone: each begins where one of the lookups for
/// its midnight says, and follows on the one before.
pub proof fn what_holds_of_local_days(
    midnights: Seq<Timestamp>,
    first: Date,
    days: nat,
    i: int,
    start: Timestamp,
    end: Timestamp,
    date: Date,
    now: Timestamp,
)
    requires
        FIRST_DAY <= first.day,
        first.day + days <= LAST_DAY,
        date.valid(),
        date.day < LAST_DAY,
    ensures
        are_midnights(midnights, Zone::Local, first, days) && 0 <= i <= days ==> {
            let t = midnights[i];
            &&& t.nanos == 0
            &&& -86_400 < t.secs - (first.day + i - 719_163) * 86_400 < 93_600
        },
        may_bound(start, end, date, date) ==> start.nanos == 0 && end.nanos == 0 && -86_400
            < start.secs - (date.day - 719_163) * 86_400 < 93_600 && -86_400 < end.secs - (date.day
            - 719_162) * 86_400 < 93_600,
        may_be_today(date, now) ==> -1 <= date.day - 719_163 - now.secs as int / 86_400 <= 1
            || !second_in_range(now.secs as int),
{
    if are_midnights(midnights, Zone::Local, first, days) && 0 <= i <= days {
        let d = days_after(first, i);
        assert(may_begin(midnights[i], Zone::Local, d));
        crate::time::days_begin_near_midnight(midnights[i], d);
    }
}

/// Each row holds the sums over what lies from the beginning of its day to the beginning of the
/// next.
pub proof fn days_are_summed_apart<P>(
    rows: Seq<DayTotals<P>>,
    store: UsageStore,
    midnights: Seq<Timestamp>,
    prices: Prices<P>,
    i: int,
)
    requires
        are_day_sums(rows, store, midnights, prices),
    ensures
        midnights.len() == rows.len() + 1,
        0 <= i < rows.len() ==> rows[i].totals@ == summary(
            events_of(store@).filter(in_range(midnights[i], midnights[i + 1])),
            prices,
        ),
{
}

/// Days that lie between midnights begin at one and end at the next.
pub proof fn days_begin_and_end_at_midnights(
    days: Seq<DayBounds>,
    midnights: Seq<Timestamp>,
    i: int,
)
    requires
        lie_between(days, midnights),
    ensures
        midnights.len() == days.len() + 1,
        0 <= i < days.len() ==> days[i].start == midnights[i] && days[i].end == midnights[i + 1],
{
}

/// The sums of a day are those over all that lies between two moments near its midnights.
pub proof fn what_holds_of_the_sums_of_a_day<P>(
    sum: Summary<P>,
    store: UsageStore,
    date: Date,
    prices: Prices<P>,
)
    requires
        is_day_sum(sum, store, date, prices),
        date.valid(),
        date.day < LAST_DAY,
    ensures
        exists|start: Timestamp, end: Timestamp|
            sum == summary(
                events_of(store@).filter(#[trigger] in_range(start, end)),
                prices,
            ) && -86_400 < start.secs - (date.day - 719_163) * 86_400 < 93_600 && -86_400 < end.secs - (
            date.day - 719_162) * 86_400 < 93_600,
{
    let (start, end) = choose|start: Timestamp, end: Timestamp|
        may_bound(start, end, date, date) && sum == summary(
            #[trigger] events_between(store, start, end),
            prices,
        );
    assert(sum == summary(events_of(store@).filter(in_range(start, end)), prices));
}

/// The midnights of a clock with a fixed offset are a day apart, the first where the first day
/// begins.
pub proof fn fixed_midnights_are_a_day_apart(
    midnights: Seq<Timestamp>,
    east: i32,
    first: Date,
    days: nat,
    i: int,
)
    requires
        -86_400 < east < 86_400,
        FIRST_DAY + 1 < first.day,
        first.day + days < LAST_DAY - 1,
    ensures
        are_midnights(midnights, Zone::Fixed(east), first, days) && 0 <= i <= days ==> midnights.len()
            == days + 1 && midnights[i].secs == (first.day + i - 719_163) * 86_400 - east
            && midnights[i].nanos == 0,
{
    if are_midnights(midnights, Zone::Fixed(east), first, days) && 0 <= i <= days {
        let d = days_after(first, i);
        assert(may_begin(midnights[i], Zone::Fixed(east), d));
        crate::time::fixed_midnight_is_exact(east as int, d);
    }
}

/// Sums fit if every count, the tokens without a price, and the cache writes of each response do.
pub proof fn which_sums_fit<P>(events: Seq<Event>, prices: Prices<P>)
    requires
        summary(events, prices).usage.input <= u64::MAX,
        summary(events, prices).usage.output <= u64::MAX,
        summary(events, prices).usage.cache_creation <= u64::MAX,
        summary(events, prices).usage.cache_creation_5m <= u64::MAX,
        summary(events, prices).usage.cache_creation_1h <= u64::MAX,
        summary(events, prices).usage.cache_read <= u64::MAX,
        summary(events, prices).usage.thinking <= u64::MAX,
        summary(events, prices).unpriced <= u64::MAX,
        forall|i: int|
            0 <= i < events.len() ==> (#[trigger] events[i]).usage.cache_creation_5m
                + events[i].usage.cache_creation_1h <= u64::MAX,
    ensures
        sums_fit(events, prices),
{
    totals_are_sums(events, prices);
}

/// The sums of the days, models and sessions fit if those of each day, model and session do, and
/// those of a store if all its counts together do.
pub proof fn which_groups_fit<P>(
    store: UsageStore,
    events: Seq<Event>,
    prices: Prices<P>,
    east: int,
    end_date: Date,
    days: nat,
)
    ensures
        (forall|back: int|
            0 <= back < days ==> sums_fit(
                days_events(
                    store,
                    east,
                    #[trigger] days_before(end_date, back),
                    days_before(end_date, back),
                ),
                prices,
            )) ==> each_day_fits(store, east, end_date, days, prices),
        (forall|name: Seq<char>|
            sums_fit(#[trigger] events.filter(of_session(name)), prices)) ==> session_sums_fit(
            events,
            prices,
        ),
        (forall|name: Seq<char>|
            sums_fit(#[trigger] events.filter(of_model(name)), prices) && tally(
                events.filter(of_model(name)),
            ).total() <= u64::MAX) ==> model_sums_fit(events, prices),
        tally(events_of(store@)).total() <= u64::MAX && tally(events_of(store@)).thinking <= u64::MAX
            && tally(events_of(store@)).cache_creation_5m + tally(
            events_of(store@),
        ).cache_creation_1h <= u64::MAX ==> store_fits(store),
{
    if forall|name: Seq<char>| sums_fit(#[trigger] events.filter(of_session(name)), prices) {
        assert forall|name: Seq<char>| #[trigger] has_group(events, Key::Session, name) implies sums_fit(
            group(events, Key::Session, name),
            prices,
        ) by {
            assert(in_group(Key::Session, name) =~= of_session(name));
            assert(sums_fit(events.filter(of_session(name)), prices));
        }
    }
    if forall|name: Seq<char>|
        sums_fit(#[trigger] events.filter(of_model(name)), prices) && tally(
            events.filter(of_model(name)),
        ).total() <= u64::MAX {
        assert forall|name: Seq<char>| #[trigger] has_group(events, Key::Model, name) implies sums_fit(
            group(events, Key::Model, name),
            prices,
        ) && tally(group(events, Key::Model, name)).total() <= u64::MAX by {
            assert(in_group(Key::Model, name) =~= of_model(name));
            assert(sums_fit(events.filter(of_model(name)), prices));
        }
    }
}

} // verus!
