//! De-duplicated event store.
//!
//! A transcript holds one `assistant` record per content block, all sharing the same
//! `message.id`, and the usage on later records is greater. The rule is therefore: the last
//! record for a message id wins.

use vstd::hash_map::StringHashMap;
use vstd::prelude::*;

use crate::model::{Event, TokenUsage, UsageEvent};
use crate::text::texts;
use crate::time::Timestamp;

verus! {

/// What [`UsageStore::upsert`] did.
#[derive(Debug, Clone, Copy, PartialEq, Eq, Structural)]
pub enum Upsert {
    Added,
    Updated,
}

/// A borrowed view of one stored event.
#[derive(Debug, Clone, Copy)]
pub struct EventRef<'a> {
    pub message_id: &'a str,
    pub timestamp: Timestamp,
    pub model: &'a str,
    pub session: &'a str,
    pub usage: TokenUsage,
    pub is_sidechain: bool,
    pub fast: bool,
}

impl<'a> View for EventRef<'a> {
    type V = Event;

    open spec fn view(&self) -> Event {
        Event {
            message_id: self.message_id@,
            session: self.session@,
            timestamp: self.timestamp,
            model: self.model@,
            usage: self.usage,
            is_sidechain: self.is_sidechain,
            fast: self.fast,
        }
    }
}

/// An event together with the file that it came from.
#[verifier::ext_equal]
pub struct Entry {
    pub event: Event,
    pub file: u32,
}

/// Some entry is for the message `id`.
pub open spec fn has_id(entries: Seq<Entry>, id: Seq<char>) -> bool {
    exists|i: int| is_at(entries, id, i)
}

/// The entry at position `i` is for the message `id`.
pub open spec fn is_at(entries: Seq<Entry>, id: Seq<char>, i: int) -> bool {
    0 <= i < entries.len() && entries[i].event.message_id == id
}

/// Where the entry for the message `id` stands.
pub open spec fn position(entries: Seq<Entry>, id: Seq<char>) -> int {
    choose|i: int| is_at(entries, id, i)
}

/// No two entries are for the same message.
pub open spec fn distinct_ids(entries: Seq<Entry>) -> bool {
    forall|i: int, j: int|
        0 <= i < j < entries.len() ==> (#[trigger] entries[i]).event.message_id != (
        #[trigger] entries[j]).event.message_id
}

/// The entries by message id.
pub open spec fn by_id(entries: Seq<Entry>) -> Map<Seq<char>, Entry> {
    Map::new(
        |id: Seq<char>| has_id(entries, id),
        |id: Seq<char>| entries[position(entries, id)],
    )
}

/// `entries` after the entry `e` has taken the place of the one for the same message, or has
/// been put behind the others if there was none.
pub open spec fn put(entries: Seq<Entry>, e: Entry) -> Seq<Entry> {
    if has_id(entries, e.event.message_id) {
        entries.update(position(entries, e.event.message_id), e)
    } else {
        entries.push(e)
    }
}

/// The entries that did not come from `file`.
pub open spec fn not_from(file: u32) -> spec_fn(Entry) -> bool {
    |e: Entry| e.file != file
}

/// The entries that are not older than `cutoff`.
pub open spec fn not_before(cutoff: Timestamp) -> spec_fn(Entry) -> bool {
    |e: Entry| !e.event.timestamp.earlier(cutoff)
}

/// The events with `start <= timestamp < end`.
pub open spec fn in_range(start: Timestamp, end: Timestamp) -> spec_fn(Event) -> bool {
    |e: Event| !e.timestamp.earlier(start) && e.timestamp.earlier(end)
}

/// The events of a list of entries.
pub open spec fn events_of(entries: Seq<Entry>) -> Seq<Event> {
    entries.map_values(|e: Entry| e.event)
}

/// The views of a list of borrowed events.
pub open spec fn views(events: Seq<EventRef>) -> Seq<Event> {
    events.map_values(|e: EventRef| e@)
}

/// `t` is the timestamp of some event, and no other event's is earlier.
pub open spec fn is_earliest(events: Seq<Event>, t: Timestamp) -> bool {
    &&& exists|i: int| 0 <= i < events.len() && (#[trigger] events[i]).timestamp == t
    &&& forall|i: int| 0 <= i < events.len() ==> !(#[trigger] events[i]).timestamp.earlier(t)
}

/// `t` is the timestamp of some event, and no other event's is later.
pub open spec fn is_latest(events: Seq<Event>, t: Timestamp) -> bool {
    &&& exists|i: int| 0 <= i < events.len() && (#[trigger] events[i]).timestamp == t
    &&& forall|i: int| 0 <= i < events.len() ==> !t.earlier((#[trigger] events[i]).timestamp)
}

/// Numbers for names: each name has its place in the order in which the names came first.
pub struct Interner {
    names: Vec<String>,
    ids: StringHashMap<usize>,
}

impl View for Interner {
    type V = Seq<Seq<char>>;

    closed spec fn view(&self) -> Seq<Seq<char>> {
        texts(self.names@)
    }
}

/// The names after `s` has been given a number, unless it had one.
pub open spec fn interned(names: Seq<Seq<char>>, s: Seq<char>) -> Seq<Seq<char>> {
    if names.contains(s) {
        names
    } else {
        names.push(s)
    }
}

/// Names keep their numbers: a name that has one is given no other, a new one takes the next,
/// and no two names share a number.
pub proof fn names_keep_their_numbers(names: Seq<Seq<char>>, s: Seq<char>)
    requires
        names.no_duplicates(),
    ensures
        interned(names, s).no_duplicates(),
        interned(names, s).contains(s),
        interned(names, s).take(names.len() as int) == names,
        interned(names, s).len() == if names.contains(s) {
            names.len()
        } else {
            names.len() + 1
        },
        !names.contains(s) ==> interned(names, s)[names.len() as int] == s,
        interned(interned(names, s), s) == interned(names, s),
{
    let after = interned(names, s);
    assert(after.take(names.len() as int) =~= names);
    if !names.contains(s) {
        assert(after[names.len() as int] == s);
        assert forall|i: int, j: int| 0 <= i < j < after.len() implies after[i] != after[j] by {
            assert(after[i] == names[i]);
        }
    }
}

impl Interner {
    /// Every name has its own place as its number, and nothing else has one.
    pub closed spec fn wf(self) -> bool {
        &&& forall|i: int|
            0 <= i < self.names@.len() ==> self.ids@.contains_key((#[trigger] self.names@[i])@)
                && self.ids@[self.names@[i]@] == i
        &&& forall|s: Seq<char>| #[trigger]
            self.ids@.contains_key(s) ==> self.ids@[s] < self.names@.len()
                && self.names@[self.ids@[s] as int]@ == s
    }

    pub fn new() -> (r: Interner)
        ensures
            r.wf(),
            r@ == Seq::<Seq<char>>::empty(),
    {
        let r = Interner { names: Vec::new(), ids: StringHashMap::new() };
        assert(r@ =~= Seq::<Seq<char>>::empty());
        r
    }

    proof fn lemma_known(self, s: Seq<char>)
        requires
            self.wf(),
        ensures
            self.ids@.contains_key(s) <==> self@.contains(s),
            self@.no_duplicates(),
    {
        if self.ids@.contains_key(s) {
            assert(self@[self.ids@[s] as int] == s);
        }
        if self@.contains(s) {
            let i = choose|i: int| 0 <= i < self@.len() && self@[i] == s;
            assert(self.names@[i]@ == s);
        }
        assert forall|i: int, j: int| 0 <= i < j < self@.len() implies self@[i] != self@[j] by {
            assert(self.ids@[self.names@[i]@] == i && self.ids@[self.names@[j]@] == j);
        }
    }

    /// The number of `s`, which is new if `s` had none. Names that had a number keep it.
    pub fn intern(&mut self, s: &str) -> (id: usize)
        requires
            old(self).wf(),
        ensures
            final(self).wf(),
            final(self)@ == interned(old(self)@, s@),
            final(self)@.no_duplicates(),
            id < final(self)@.len(),
            final(self)@[id as int] == s@,
    {
        proof {
            self.lemma_known(s@);
            names_keep_their_numbers(self@, s@);
        }
        if let Some(id) = self.ids.get(s) {
            return *id;
        }
        let id: usize = self.names.len();
        self.names.push(s.to_owned());
        self.ids.insert(s.to_owned(), id);
        proof {
            let before = old(self).names@;
            assert forall|i: int| 0 <= i < self.names@.len() implies self.ids@.contains_key(
                (#[trigger] self.names@[i])@,
            ) && self.ids@[self.names@[i]@] == i by {
                if i < before.len() {
                    assert(self.names@[i] == before[i]);
                    assert(old(self).ids@.contains_key(before[i]@));
                }
            }
            assert(self@ =~= old(self)@.push(s@));
        }
        id
    }

    /// The name with that number.
    pub fn name(&self, id: usize) -> (s: &str)
        requires
            id < self@.len(),
        ensures
            s@ == self@[id as int],
    {
        self.names[id].as_str()
    }
}

struct Stored {
    id: String,
    ts: Timestamp,
    model: usize,
    session: usize,
    file: u32,
    usage: TokenUsage,
    sidechain: bool,
    fast: bool,
}

/// The events read so far, at most one for each message id.
pub struct UsageStore {
    events: Vec<Stored>,
    index: StringHashMap<usize>,
    models: Interner,
    sessions: Interner,
}

impl Stored {
    spec fn entry(self, models: Seq<Seq<char>>, sessions: Seq<Seq<char>>) -> Entry {
        Entry {
            event: Event {
                message_id: self.id@,
                session: sessions[self.session as int],
                timestamp: self.ts,
                model: models[self.model as int],
                usage: self.usage,
                is_sidechain: self.sidechain,
                fast: self.fast,
            },
            file: self.file,
        }
    }
}

spec fn entries_of(
    events: Seq<Stored>,
    models: Seq<Seq<char>>,
    sessions: Seq<Seq<char>>,
) -> Seq<Entry> {
    Seq::new(events.len(), |i: int| events[i].entry(models, sessions))
}

/// `index` gives the position of each message id.
spec fn indexes(events: Seq<Stored>, index: Map<Seq<char>, usize>) -> bool {
    &&& forall|i: int|
        0 <= i < events.len() ==> index.contains_key((#[trigger] events[i]).id@)
            && index[events[i].id@] == i
    &&& forall|s: Seq<char>| #[trigger]
        index.contains_key(s) ==> index[s] < events.len() && events[index[s] as int].id@ == s
}

impl View for UsageStore {
    type V = Seq<Entry>;

    closed spec fn view(&self) -> Seq<Entry> {
        entries_of(self.events@, self.models@, self.sessions@)
    }
}

impl UsageStore {
    /// The names are numbered and the index is that of the events.
    pub closed spec fn wf(self) -> bool {
        &&& self.models.wf()
        &&& self.sessions.wf()
        &&& indexes(self.events@, self.index@)
        &&& forall|i: int|
            0 <= i < self.events@.len() ==> (#[trigger] self.events@[i]).model
                < self.models@.len() && self.events@[i].session < self.sessions@.len()
    }

    pub fn new() -> (s: UsageStore)
        ensures
            s.wf(),
            s@ == Seq::<Entry>::empty(),
    {
        let s = UsageStore {
            events: Vec::new(),
            index: StringHashMap::new(),
            models: Interner::new(),
            sessions: Interner::new(),
        };
        assert(s@ =~= Seq::<Entry>::empty());
        s
    }

    /// Insert or replace the event for `ev.message_id`.
    pub fn upsert(&mut self, ev: UsageEvent, file: u32) -> (r: Upsert)
        requires
            old(self).wf(),
        ensures
            final(self).wf(),
            final(self)@ == put(old(self)@, Entry { event: ev@, file }),
            r == if has_id(old(self)@, ev@.message_id) {
                Upsert::Updated
            } else {
                Upsert::Added
            },
    {
        let ghost before = self@;
        let ghost models0 = self.models@;
        let ghost sessions0 = self.sessions@;
        let ghost entry = Entry { event: ev@, file };
        let model = self.models.intern(ev.model.as_str());
        let session = self.sessions.intern(ev.session_id.as_str());
        assert(models0.is_prefix_of(self.models@));
        assert(sessions0.is_prefix_of(self.sessions@));
        assert(self@ =~= before) by {
            assert forall|i: int| 0 <= i < self.events@.len() implies self@[i] == before[i] by {
                assert(self.models@[self.events@[i].model as int]
                    == models0[self.events@[i].model as int]);
                assert(self.sessions@[self.events@[i].session as int]
                    == sessions0[self.events@[i].session as int]);
            }
        }
        let known = match self.index.get(ev.message_id.as_str()) {
            Some(at) => Some(*at),
            None => None,
        };
        let ghost id = ev.message_id@;
        let stored = Stored {
            id: ev.message_id,
            ts: ev.timestamp,
            model,
            session,
            file,
            usage: ev.usage,
            sidechain: ev.is_sidechain,
            fast: ev.fast,
        };
        assert(stored.entry(self.models@, self.sessions@) == entry);
        match known {
            Some(at) => {
                assert(is_at(before, id, at as int));
                assert(position(before, id) == at) by {
                    let p = position(before, id);
                    assert(is_at(before, id, p));
                    assert(self.events@[p].id@ == id);
                }
                self.events.set(at, stored);
                assert(self@ =~= before.update(at as int, entry));
                Upsert::Updated
            },
            None => {
                assert(!has_id(before, id)) by {
                    if has_id(before, id) {
                        let p = position(before, id);
                        assert(is_at(before, id, p));
                        assert(self.events@[p].id@ == id);
                    }
                }
                let at: usize = self.events.len();
                self.index.insert(stored.id.clone(), at);
                let ghost events0 = self.events@;
                self.events.push(stored);
                assert forall|i: int| 0 <= i < self.events@.len() implies self.index@.contains_key(
                    (#[trigger] self.events@[i]).id@,
                ) && self.index@[self.events@[i].id@] == i by {
                    if i < events0.len() {
                        assert(self.events@[i] == events0[i]);
                        assert(old(self).index@.contains_key(events0[i].id@));
                    }
                }
                assert(self@ =~= before.push(entry));
                Upsert::Added
            },
        }
    }

    pub fn len(&self) -> (n: usize)
        ensures
            n == self@.len(),
    {
        self.events.len()
    }

    pub fn is_empty(&self) -> (r: bool)
        ensures
            r == (self@.len() == 0),
    {
        self.events.len() == 0
    }

    /// Every event.
    pub fn iter(&self) -> (r: Vec<EventRef<'_>>)
        requires
            self.wf(),
        ensures
            views(r@) == events_of(self@),
    {
        let mut out: Vec<EventRef<'_>> = Vec::new();
        let mut i: usize = 0;
        while i < self.events.len()
            invariant
                self.wf(),
                i <= self.events@.len(),
                views(out@) =~= events_of(self@).take(i as int),
            decreases self.events@.len() - i,
        {
            let s = &self.events[i];
            let event = EventRef {
                message_id: s.id.as_str(),
                timestamp: s.ts,
                model: self.models.name(s.model),
                session: self.sessions.name(s.session),
                usage: s.usage,
                is_sidechain: s.sidechain,
                fast: s.fast,
            };
            assert(event@ == self@[i as int].event);
            assert(views(out@.push(event)) =~= views(out@).push(event@));
            out.push(event);
            i += 1;
        }
        assert(events_of(self@).take(i as int) =~= events_of(self@));
        out
    }

    /// Events with `start <= timestamp < end`.
    pub fn between(&self, start: Timestamp, end: Timestamp) -> (r: Vec<EventRef<'_>>)
        requires
            self.wf(),
        ensures
            views(r@) == events_of(self@).filter(in_range(start, end)),
    {
        let all = self.iter();
        let mut out: Vec<EventRef<'_>> = Vec::new();
        let ghost keep = in_range(start, end);
        let mut i: usize = 0;
        assert(views(all@).take(0) =~= Seq::<Event>::empty());
        assert(views(out@) =~= Seq::<Event>::empty());
        proof {
            reveal(Seq::filter);
        }
        while i < all.len()
            invariant
                keep == in_range(start, end),
                i <= all@.len(),
                views(out@) == views(all@).take(i as int).filter(keep),
            decreases all@.len() - i,
        {
            let e = all[i];
            proof {
                lemma_filter_step(views(all@), i as int, keep);
                assert(views(all@)[i as int] == e@);
                assert(views(out@.push(e)) =~= views(out@).push(e@));
            }
            if !e.timestamp.is_before(start) && e.timestamp.is_before(end) {
                out.push(e);
            }
            i += 1;
        }
        assert(views(all@).take(i as int) =~= views(all@));
        out
    }

    /// Makes `kept`, some of the events, the only ones.
    fn restrict(&mut self, kept: Vec<Stored>)
        requires
            old(self).models.wf(),
            old(self).sessions.wf(),
            forall|i: int, j: int|
                0 <= i < j < kept@.len() ==> (#[trigger] kept@[i]).id@ != (#[trigger] kept@[j]).id@,
            forall|i: int|
                0 <= i < kept@.len() ==> (#[trigger] kept@[i]).model < old(
                    self,
                ).models@.len() && kept@[i].session < old(self).sessions@.len(),
        ensures
            final(self).wf(),
            final(self)@ == entries_of(kept@, old(self).models@, old(self).sessions@),
    {
        let mut index: StringHashMap<usize> = StringHashMap::new();
        let mut i: usize = 0;
        while i < kept.len()
            invariant
                i <= kept@.len(),
                forall|a: int, b: int|
                    0 <= a < b < kept@.len() ==> (#[trigger] kept@[a]).id@ != (
                    #[trigger] kept@[b]).id@,
                forall|k: int|
                    0 <= k < i ==> index@.contains_key((#[trigger] kept@[k]).id@)
                        && index@[kept@[k].id@] == k,
                forall|s: Seq<char>| #[trigger]
                    index@.contains_key(s) ==> index@[s] < i && kept@[index@[s] as int].id@ == s,
            decreases kept@.len() - i,
        {
            index.insert(kept[i].id.clone(), i);
            i += 1;
        }
        self.index = index;
        self.events = kept;
    }

    /// Drop every event that came from `file` (used when a file shrinks or is rewritten).
    pub fn remove_file(&mut self, file: u32) -> (n: usize)
        requires
            old(self).wf(),
        ensures
            final(self).wf(),
            final(self)@ == old(self)@.filter(not_from(file)),
            n == old(self)@.len() - final(self)@.len(),
    {
        let before: usize = self.events.len();
        let ghost entries = self@;
        let ghost keep = not_from(file);
        let ghost index = self.index@;
        let ghost models = self.models@;
        let ghost sessions = self.sessions@;
        let mut all: Vec<Stored> = Vec::new();
        core::mem::swap(&mut all, &mut self.events);
        let ghost olds = all@;
        let mut kept: Vec<Stored> = Vec::new();
        let ghost mut from: Seq<int> = Seq::empty();
        proof {
            reveal(Seq::filter);
            assert(entries.take(0) =~= Seq::<Entry>::empty());
            assert(entries_of(kept@, models, sessions) =~= Seq::<Entry>::empty());
        }
        for s in it: all
            invariant
                it.seq() == olds,
                keep == not_from(file),
                entries == entries_of(olds, models, sessions),
                selected(olds, kept@, from, it.index() as int),
                entries_of(kept@, models, sessions) == entries.take(it.index() as int).filter(keep),
        {
            let ghost k = it.index() as int;
            proof {
                lemma_filter_step(entries, k, keep);
                assert(entries_of(kept@.push(s), models, sessions) =~= entries_of(
                    kept@,
                    models,
                    sessions,
                ).push(s.entry(models, sessions)));
            }
            if s.file != file {
                kept.push(s);
                proof {
                    from = from.push(k);
                }
            }
        }
        proof {
            assert(entries.take(olds.len() as int) =~= entries);
            lemma_selected(olds, kept@, from, index, models.len(), sessions.len());
        }
        self.restrict(kept);
        proof {
            entries.lemma_filter_len(keep);
        }
        before - self.events.len()
    }

    /// Drop events older than `cutoff`.
    pub fn prune_before(&mut self, cutoff: Timestamp) -> (n: usize)
        requires
            old(self).wf(),
        ensures
            final(self).wf(),
            final(self)@ == old(self)@.filter(not_before(cutoff)),
            n == old(self)@.len() - final(self)@.len(),
    {
        let before: usize = self.events.len();
        let ghost entries = self@;
        let ghost keep = not_before(cutoff);
        let ghost index = self.index@;
        let ghost models = self.models@;
        let ghost sessions = self.sessions@;
        let mut all: Vec<Stored> = Vec::new();
        core::mem::swap(&mut all, &mut self.events);
        let ghost olds = all@;
        let mut kept: Vec<Stored> = Vec::new();
        let ghost mut from: Seq<int> = Seq::empty();
        proof {
            reveal(Seq::filter);
            assert(entries.take(0) =~= Seq::<Entry>::empty());
            assert(entries_of(kept@, models, sessions) =~= Seq::<Entry>::empty());
        }
        for s in it: all
            invariant
                it.seq() == olds,
                keep == not_before(cutoff),
                entries == entries_of(olds, models, sessions),
                selected(olds, kept@, from, it.index() as int),
                entries_of(kept@, models, sessions) == entries.take(it.index() as int).filter(keep),
        {
            let ghost k = it.index() as int;
            proof {
                lemma_filter_step(entries, k, keep);
                assert(entries_of(kept@.push(s), models, sessions) =~= entries_of(
                    kept@,
                    models,
                    sessions,
                ).push(s.entry(models, sessions)));
            }
            if !s.ts.is_before(cutoff) {
                kept.push(s);
                proof {
                    from = from.push(k);
                }
            }
        }
        proof {
            assert(entries.take(olds.len() as int) =~= entries);
            lemma_selected(olds, kept@, from, index, models.len(), sessions.len());
        }
        self.restrict(kept);
        proof {
            entries.lemma_filter_len(keep);
        }
        before - self.events.len()
    }

    /// The timestamp of the first event in time.
    pub fn earliest(&self) -> (r: Option<Timestamp>)
        ensures
            r is None <==> self@.len() == 0,
            r matches Some(t) ==> is_earliest(events_of(self@), t),
    {
        if self.events.len() == 0 {
            return None;
        }
        let mut best = self.events[0].ts;
        let ghost events = events_of(self@);
        assert(events.take(1)[0].timestamp == best);
        let mut i: usize = 1;
        while i < self.events.len()
            invariant
                events == events_of(self@),
                1 <= i <= self.events@.len(),
                is_earliest(events.take(i as int), best),
            decreases self.events@.len() - i,
        {
            let t = self.events[i].ts;
            let ghost seen = events.take(i as int);
            let ghost next = events.take(i + 1);
            assert(events[i as int].timestamp == t);
            let ghost w = choose|k: int| 0 <= k < seen.len() && (#[trigger] seen[k]).timestamp == best;
            if t.is_before(best) {
                best = t;
                assert(next[i as int].timestamp == best);
            } else {
                assert(next[w].timestamp == best);
            }
            assert forall|k: int| 0 <= k < next.len() implies !(
            #[trigger] next[k]).timestamp.earlier(best) by {
                if k < i {
                    assert(next[k] == seen[k]);
                }
            }
            i += 1;
        }
        assert(events.take(i as int) =~= events);
        Some(best)
    }

    /// The timestamp of the last event in time.
    pub fn latest(&self) -> (r: Option<Timestamp>)
        ensures
            r is None <==> self@.len() == 0,
            r matches Some(t) ==> is_latest(events_of(self@), t),
    {
        if self.events.len() == 0 {
            return None;
        }
        let mut best = self.events[0].ts;
        let ghost events = events_of(self@);
        assert(events.take(1)[0].timestamp == best);
        let mut i: usize = 1;
        while i < self.events.len()
            invariant
                events == events_of(self@),
                1 <= i <= self.events@.len(),
                is_latest(events.take(i as int), best),
            decreases self.events@.len() - i,
        {
            let t = self.events[i].ts;
            let ghost seen = events.take(i as int);
            let ghost next = events.take(i + 1);
            assert(events[i as int].timestamp == t);
            let ghost w = choose|k: int| 0 <= k < seen.len() && (#[trigger] seen[k]).timestamp == best;
            if best.is_before(t) {
                best = t;
                assert(next[i as int].timestamp == best);
            } else {
                assert(next[w].timestamp == best);
            }
            assert forall|k: int| 0 <= k < next.len() implies !best.earlier(
                (#[trigger] next[k]).timestamp,
            ) by {
                if k < i {
                    assert(next[k] == seen[k]);
                }
            }
            i += 1;
        }
        assert(events.take(i as int) =~= events);
        Some(best)
    }
}

/// `kept` holds the elements of `all` at the positions `from`, which rise and lie below `k`.
spec fn selected(all: Seq<Stored>, kept: Seq<Stored>, from: Seq<int>, k: int) -> bool {
    &&& kept.len() == from.len()
    &&& forall|i: int|
        0 <= i < from.len() ==> 0 <= #[trigger] from[i] < k && from[i] < all.len() && kept[i]
            == all[from[i]]
    &&& forall|i: int, j: int| 0 <= i < j < from.len() ==> #[trigger] from[i] < #[trigger] from[j]
}

proof fn lemma_selected(
    all: Seq<Stored>,
    kept: Seq<Stored>,
    from: Seq<int>,
    index: Map<Seq<char>, usize>,
    models: nat,
    sessions: nat,
)
    requires
        selected(all, kept, from, all.len() as int),
        indexes(all, index),
        forall|i: int|
            0 <= i < all.len() ==> (#[trigger] all[i]).model < models && all[i].session < sessions,
    ensures
        forall|i: int, j: int|
            0 <= i < j < kept.len() ==> (#[trigger] kept[i]).id@ != (#[trigger] kept[j]).id@,
        forall|i: int|
            0 <= i < kept.len() ==> (#[trigger] kept[i]).model < models && kept[i].session
                < sessions,
{
    assert forall|i: int, j: int| 0 <= i < j < kept.len() implies (#[trigger] kept[i]).id@ != (
    #[trigger] kept[j]).id@ by {
        assert(from[i] < from[j]);
        assert(index[all[from[i]].id@] == from[i]);
        assert(index[all[from[j]].id@] == from[j]);
    }
    assert forall|i: int| 0 <= i < kept.len() implies (#[trigger] kept[i]).model < models
        && kept[i].session < sessions by {
        assert(kept[i] == all[from[i]]);
    }
}

/// Filtering one element more.
pub proof fn lemma_filter_step<A>(s: Seq<A>, i: int, keep: spec_fn(A) -> bool)
    requires
        0 <= i < s.len(),
    ensures
        s.take(i + 1).filter(keep) == if keep(s[i]) {
            s.take(i).filter(keep).push(s[i])
        } else {
            s.take(i).filter(keep)
        },
{
    reveal(Seq::filter);
    assert(s.take(i + 1).drop_last() =~= s.take(i));
}

/// `entries` after every entry of `more` has been put in, in order.
pub open spec fn put_all(entries: Seq<Entry>, more: Seq<Entry>) -> Seq<Entry>
    decreases more.len(),
{
    if more.len() == 0 {
        entries
    } else {
        put(put_all(entries, more.drop_last()), more.last())
    }
}

/// The last entry of `more` that is for the message `id`.
pub open spec fn last_for(more: Seq<Entry>, id: Seq<char>) -> Option<Entry>
    decreases more.len(),
{
    if more.len() == 0 {
        None
    } else if more.last().event.message_id == id {
        Some(more.last())
    } else {
        last_for(more.drop_last(), id)
    }
}

/// A store never holds two events for one message.
pub proof fn one_event_per_message(store: UsageStore)
    requires
        store.wf(),
    ensures
        distinct_ids(store@),
{
    assert forall|i: int, j: int| 0 <= i < j < store@.len() implies (
    #[trigger] store@[i]).event.message_id != (#[trigger] store@[j]).event.message_id by {
        assert(store.index@[store.events@[i].id@] == i);
        assert(store.index@[store.events@[j].id@] == j);
    }
}

/// Storing an event sets the event of its message and leaves those of all other messages as
/// they were.
pub proof fn put_sets_one_message(entries: Seq<Entry>, e: Entry)
    requires
        distinct_ids(entries),
    ensures
        distinct_ids(put(entries, e)),
        by_id(put(entries, e)) == by_id(entries).insert(e.event.message_id, e),
{
    let id = e.event.message_id;
    let after = put(entries, e);
    let p = position(entries, id);
    if has_id(entries, id) {
        assert(is_at(entries, id, p));
        assert forall|i: int, j: int| 0 <= i < j < after.len() implies (
        #[trigger] after[i]).event.message_id != (#[trigger] after[j]).event.message_id by {
            assert(entries[i].event.message_id != entries[j].event.message_id);
        }
    } else {
        assert forall|i: int, j: int| 0 <= i < j < after.len() implies (
        #[trigger] after[i]).event.message_id != (#[trigger] after[j]).event.message_id by {
            if j == entries.len() {
                assert(!is_at(entries, id, i));
            } else {
                assert(entries[i].event.message_id != entries[j].event.message_id);
            }
        }
    }
    assert forall|other: Seq<char>| #[trigger] has_id(after, other) <==> (has_id(entries, other)
        || other == id) by {
        if has_id(entries, other) {
            let q = position(entries, other);
            assert(is_at(entries, other, q));
            assert(is_at(after, other, q));
        }
        if other == id {
            let q = if has_id(entries, id) {
                p
            } else {
                entries.len() as int
            };
            assert(is_at(after, id, q));
        }
        if has_id(after, other) && other != id {
            let q = position(after, other);
            assert(is_at(after, other, q));
            assert(is_at(entries, other, q));
        }
    }
    assert forall|other: Seq<char>| has_id(after, other) implies #[trigger] by_id(after)[other]
        == by_id(entries).insert(id, e)[other] by {
        let q = position(after, other);
        assert(is_at(after, other, q));
        if other == id {
            let at = if has_id(entries, id) {
                p
            } else {
                entries.len() as int
            };
            assert(is_at(after, id, at));
            assert(q == at) by {
                lemma_unique_position(after, id, q, at);
            }
        } else {
            assert(is_at(entries, other, q));
            let r = position(entries, other);
            assert(is_at(entries, other, r));
            lemma_unique_position(entries, other, q, r);
        }
    }
    assert(by_id(after) =~= by_id(entries).insert(id, e));
}

proof fn lemma_unique_position(entries: Seq<Entry>, id: Seq<char>, i: int, j: int)
    requires
        distinct_ids(entries),
        is_at(entries, id, i),
        is_at(entries, id, j),
    ensures
        i == j,
{
    if i < j {
        assert(entries[i].event.message_id != entries[j].event.message_id);
    } else if j < i {
        assert(entries[j].event.message_id != entries[i].event.message_id);
    }
}

/// The last record for a message id wins, and messages without a new record keep theirs.
pub proof fn last_record_wins(entries: Seq<Entry>, more: Seq<Entry>, id: Seq<char>)
    requires
        distinct_ids(entries),
    ensures
        distinct_ids(put_all(entries, more)),
        by_id(put_all(entries, more)).contains_key(id) <==> by_id(entries).contains_key(id)
            || last_for(more, id) is Some,
        by_id(put_all(entries, more)).contains_key(id) ==> by_id(put_all(entries, more))[id]
            == match last_for(more, id) {
            Some(e) => e,
            None => by_id(entries)[id],
        },
    decreases more.len(),
{
    if more.len() > 0 {
        last_record_wins(entries, more.drop_last(), id);
        put_sets_one_message(put_all(entries, more.drop_last()), more.last());
    }
}

/// Dropping events keeps exactly the events that are meant to stay: removing a file or pruning
/// old events changes no other event.
pub proof fn filter_keeps_the_rest(entries: Seq<Entry>, keep: spec_fn(Entry) -> bool)
    requires
        distinct_ids(entries),
    ensures
        distinct_ids(entries.filter(keep)),
        forall|id: Seq<char>| #[trigger]
            by_id(entries.filter(keep)).contains_key(id) <==> by_id(entries).contains_key(id)
                && keep(by_id(entries)[id]),
        forall|id: Seq<char>| #[trigger]
            by_id(entries.filter(keep)).contains_key(id) ==> by_id(entries.filter(keep))[id]
                == by_id(entries)[id],
    decreases entries.len(),
{
    reveal(Seq::filter);
    if entries.len() > 0 {
        let rest = entries.drop_last();
        let e = entries.last();
        filter_keeps_the_rest(rest, keep);
        assert(!has_id(rest, e.event.message_id)) by {
            if has_id(rest, e.event.message_id) {
                let p = position(rest, e.event.message_id);
                assert(is_at(rest, e.event.message_id, p));
                assert(entries[p].event.message_id != entries[entries.len() - 1].event.message_id);
            }
        }
        assert(entries =~= rest.push(e));
        put_sets_one_message(rest, e);
        assert(by_id(entries) == by_id(rest).insert(e.event.message_id, e));
        let kept = rest.filter(keep);
        assert(!by_id(kept).contains_key(e.event.message_id));
        assert(!has_id(kept, e.event.message_id));
        put_sets_one_message(kept, e);
        assert(put(kept, e) == kept.push(e));
    }
}

/// A borrowed event stands for just what its fields hold, and a list of them for one event each,
/// in order.
pub proof fn borrowed_events_are_taken_as_they_are(e: EventRef, list: Seq<EventRef>)
    ensures
        e@.message_id == e.message_id@,
        e@.session == e.session@,
        e@.timestamp == e.timestamp,
        e@.model == e.model@,
        e@.usage == e.usage,
        e@.is_sidechain == e.is_sidechain,
        e@.fast == e.fast,
        views(list).len() == list.len(),
        forall|i: int| 0 <= i < list.len() ==> views(list)[i] == (#[trigger] list[i])@,
{
}

/// The events of a store are those of its entries, one for each and in order.
pub proof fn entries_hold_their_events(entries: Seq<Entry>)
    ensures
        events_of(entries).len() == entries.len(),
        forall|i: int|
            0 <= i < entries.len() ==> events_of(entries)[i] == (#[trigger] entries[i]).event,
{
}

/// An entry takes the place of the one for the same message, and stands behind all others if
/// there is none. No other entry moves or changes.
pub proof fn an_entry_takes_the_place_of_its_message(entries: Seq<Entry>, e: Entry, at: int)
    requires
        forall|i: int|
            0 <= i < entries.len() && i != at ==> (#[trigger] entries[i]).event.message_id
                != e.event.message_id,
        0 <= at <= entries.len(),
        at < entries.len() ==> entries[at].event.message_id == e.event.message_id,
    ensures
        put(entries, e).len() == if at < entries.len() {
            entries.len()
        } else {
            entries.len() + 1
        },
        put(entries, e)[at] == e,
        forall|i: int|
            0 <= i < entries.len() && i != at ==> put(entries, e)[i] == #[trigger] entries[i],
{
    let id = e.event.message_id;
    if at < entries.len() {
        assert(is_at(entries, id, at));
        let p = position(entries, id);
        assert(is_at(entries, id, p));
        assert(entries[p].event.message_id == id);
    } else if has_id(entries, id) {
        let p = position(entries, id);
        assert(is_at(entries, id, p));
        assert(entries[p].event.message_id == id);
    }
}

/// Each message is found under its own id, with the entry that is for it.
pub proof fn messages_are_found_by_id(entries: Seq<Entry>, i: int)
    requires
        forall|a: int, b: int|
            0 <= a < b < entries.len() ==> (#[trigger] entries[a]).event.message_id != (
            #[trigger] entries[b]).event.message_id,
        0 <= i < entries.len(),
    ensures
        distinct_ids(entries),
        by_id(entries).contains_key(entries[i].event.message_id),
        by_id(entries)[entries[i].event.message_id] == entries[i],
{
    let id = entries[i].event.message_id;
    assert(is_at(entries, id, i));
    let p = position(entries, id);
    assert(is_at(entries, id, p));
    lemma_unique_position(entries, id, p, i);
}

/// The last of several entries for a message is the one behind which none is for it.
pub proof fn the_last_entry_is_found(more: Seq<Entry>, id: Seq<char>, i: int)
    requires
        0 <= i < more.len(),
        more[i].event.message_id == id,
        forall|k: int| i < k < more.len() ==> (#[trigger] more[k]).event.message_id != id,
    ensures
        last_for(more, id) == Some(more[i]),
    decreases more.len(),
{
    if i < more.len() - 1 {
        let rest = more.drop_last();
        assert(more[more.len() - 1].event.message_id != id);
        assert forall|k: int| i < k < rest.len() implies (#[trigger] rest[k]).event.message_id
            != id by {
            assert(rest[k] == more[k]);
        }
        the_last_entry_is_found(rest, id, i);
    }
}

/// Where no entry is for a message, there is no last one.
pub proof fn no_entry_is_found(more: Seq<Entry>, id: Seq<char>)
    requires
        forall|k: int| 0 <= k < more.len() ==> (#[trigger] more[k]).event.message_id != id,
    ensures
        last_for(more, id) is None,
    decreases more.len(),
{
    if more.len() > 0 {
        let rest = more.drop_last();
        assert(more[more.len() - 1].event.message_id != id);
        assert forall|k: int| 0 <= k < rest.len() implies (#[trigger] rest[k]).event.message_id
            != id by {
            assert(rest[k] == more[k]);
        }
        no_entry_is_found(rest, id);
    }
}

/// Which entries stay: those of other files, and those that are not older than the cutoff. A
/// range of time takes in its first moment and leaves out its last.
pub proof fn what_is_kept(e: Entry, file: u32, cutoff: Timestamp, start: Timestamp, end: Timestamp)
    ensures
        not_from(file)(e) <==> e.file != file,
        not_before(cutoff)(e) <==> e.event.timestamp.secs > cutoff.secs || (
        e.event.timestamp.secs == cutoff.secs && e.event.timestamp.nanos >= cutoff.nanos),
        in_range(start, end)(e.event) <==> {
            let t = e.event.timestamp;
            &&& t.secs > start.secs || (t.secs == start.secs && t.nanos >= start.nanos)
            &&& t.secs < end.secs || (t.secs == end.secs && t.nanos < end.nanos)
        },
{
}

/// The earliest and the latest moment are those of some event, and no event lies before the one
/// or after the other.
pub proof fn extremes_are_those_of_events(events: Seq<Event>, t: Timestamp, i: int)
    requires
        0 <= i < events.len(),
    ensures
        is_earliest(events, t) ==> t.secs < events[i].timestamp.secs || (t.secs
            == events[i].timestamp.secs && t.nanos <= events[i].timestamp.nanos),
        is_latest(events, t) ==> t.secs > events[i].timestamp.secs || (t.secs
            == events[i].timestamp.secs && t.nanos >= events[i].timestamp.nanos),
        is_earliest(events, t) || is_latest(events, t) ==> exists|k: int|
            0 <= k < events.len() && (#[trigger] events[k]).timestamp == t,
{
}

} // verus!
