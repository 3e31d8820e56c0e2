//! Target display selection.
//!
//! "internal" picks the laptop panel. Falls back to the primary display when no internal one
//! is active (lid closed, docked).

use vstd::prelude::*;

use crate::text::{same_ignoring_case, str_eq, str_eq_ignoring_case};
use crate::tracker::Rect;

verus! {

#[derive(Debug, Clone)]
pub struct Monitor {
    pub handle: isize,
    /// GDI device name, e.g. `\\.\DISPLAY1`.
    pub device: String,
    pub bounds: Rect,
    pub work: Rect,
    pub primary: bool,
    pub internal: bool,
    pub dpi: u32,
}

/// The position of the first element that `keep` accepts, or the length if there is none.
pub open spec fn first_index<A>(list: Seq<A>, keep: spec_fn(A) -> bool) -> int
    decreases list.len(),
{
    if list.len() == 0 || keep(list[0]) {
        0
    } else {
        1 + first_index(list.skip(1), keep)
    }
}

/// The primary display.
pub open spec fn is_primary() -> spec_fn(Monitor) -> bool {
    |m: Monitor| m.primary
}

/// A laptop panel.
pub open spec fn is_internal() -> spec_fn(Monitor) -> bool {
    |m: Monitor| m.internal
}

/// The display of that device name.
pub open spec fn is_device(name: Seq<char>) -> spec_fn(Monitor) -> bool {
    |m: Monitor| same_ignoring_case(m.device@, name)
}

/// The display to fall back to: the primary one, or else the first.
pub open spec fn fallback(list: Seq<Monitor>) -> int {
    let i = first_index(list, is_primary());
    if i < list.len() {
        i
    } else {
        0
    }
}

/// What the setting asks for.
pub open spec fn wanted(setting: Seq<char>) -> spec_fn(Monitor) -> bool {
    if setting == "primary"@ {
        is_primary()
    } else if setting == "internal"@ {
        is_internal()
    } else {
        is_device(setting)
    }
}

/// The position of the target display in a list that is not empty.
pub open spec fn target(list: Seq<Monitor>, setting: Seq<char>) -> int {
    let i = first_index(list, wanted(setting));
    if i < list.len() {
        i
    } else {
        fallback(list)
    }
}

/// Which displays are looked for.
#[derive(Clone, Copy)]
enum Wanted<'a> {
    Primary,
    Internal,
    Device(&'a str),
}

spec fn wanted_by(w: Wanted) -> spec_fn(Monitor) -> bool {
    match w {
        Wanted::Primary => is_primary(),
        Wanted::Internal => is_internal(),
        Wanted::Device(name) => is_device(name@),
    }
}

fn find(list: &[Monitor], w: Wanted<'_>) -> (i: usize)
    ensures
        i == first_index(list@, wanted_by(w)),
        i <= list@.len(),
{
    let ghost keep = wanted_by(w);
    let mut i: usize = 0;
    assert(list@.skip(0) =~= list@);
    while i < list.len()
        invariant
            i <= list@.len(),
            keep == wanted_by(w),
            first_index(list@, keep) == i + first_index(list@.skip(i as int), keep),
        decreases list@.len() - i,
    {
        let m = &list[i];
        assert(list@.skip(i as int).skip(1) =~= list@.skip(i + 1));
        let hit = match w {
            Wanted::Primary => m.primary,
            Wanted::Internal => m.internal,
            Wanted::Device(name) => str_eq_ignoring_case(m.device.as_str(), name),
        };
        if hit {
            return i;
        }
        i += 1;
    }
    i
}

/// Pick the target display per the `display` setting.
pub fn select<'a>(list: &'a [Monitor], setting: &str) -> (r: Option<&'a Monitor>)
    ensures
        r is None <==> list@.len() == 0,
        r matches Some(m) ==> 0 <= target(list@, setting@) < list@.len() && *m == list@[target(
            list@,
            setting@,
        )],
{
    if list.len() == 0 {
        return None;
    }
    let first: usize = find(list, Wanted::Primary);
    let primary: usize = if first < list.len() {
        first
    } else {
        0
    };
    let w = if str_eq(setting, "primary") {
        Wanted::Primary
    } else if str_eq(setting, "internal") {
        Wanted::Internal
    } else {
        Wanted::Device(setting)
    };
    let i: usize = find(list, w);
    if i < list.len() {
        Some(&list[i])
    } else {
        Some(&list[primary])
    }
}

/// Some name is that of the device.
pub open spec fn names_device(names: Seq<String>, device: Seq<char>) -> bool {
    exists|k: int| 0 <= k < names.len() && same_ignoring_case((#[trigger] names[k])@, device)
}

fn is_named(names: &Vec<String>, device: &str) -> (r: bool)
    ensures
        r == names_device(names@, device@),
{
    let mut k: usize = 0;
    while k < names.len()
        invariant
            k <= names@.len(),
            forall|j: int| 0 <= j < k ==> !same_ignoring_case((#[trigger] names@[j])@, device@),
        decreases names@.len() - k,
    {
        if str_eq_ignoring_case(names[k].as_str(), device) {
            return true;
        }
        k += 1;
    }
    false
}

/// Marks the displays whose device is among `names` as internal, and the others as not.
pub fn mark_internal(list: Vec<Monitor>, names: &Vec<String>) -> (r: Vec<Monitor>)
    ensures
        r@.len() == list@.len(),
        forall|i: int|
            0 <= i < list@.len() ==> #[trigger] r@[i] == (Monitor {
                internal: names_device(names@, list@[i].device@),
                ..list@[i]
            }),
{
    let ghost all = list@;
    let mut out: Vec<Monitor> = Vec::new();
    for m in it: list
        invariant
            it.seq() == all,
            out@.len() == it.index(),
            forall|i: int|
                0 <= i < out@.len() ==> #[trigger] out@[i] == (Monitor {
                    internal: names_device(names@, all[i].device@),
                    ..all[i]
                }),
    {
        let internal = is_named(names, m.device.as_str());
        out.push(
            Monitor {
                handle: m.handle,
                device: m.device,
                bounds: m.bounds,
                work: m.work,
                primary: m.primary,
                internal,
                dpi: m.dpi,
            },
        );
    }
    out
}

proof fn lemma_first_index<A>(list: Seq<A>, keep: spec_fn(A) -> bool)
    ensures
        0 <= first_index(list, keep) <= list.len(),
        first_index(list, keep) < list.len() ==> keep(list[first_index(list, keep)]),
        forall|i: int| 0 <= i < first_index(list, keep) ==> !keep(#[trigger] list[i]),
    decreases list.len(),
{
    if list.len() > 0 && !keep(list[0]) {
        let rest = list.skip(1);
        lemma_first_index(rest, keep);
        assert forall|i: int| 0 <= i < first_index(list, keep) implies !keep(
            #[trigger] list[i],
        ) by {
            if i > 0 {
                assert(rest[i - 1] == list[i]);
            }
        }
    }
}

/// A display that the setting asks for is picked whenever there is one, and the primary one
/// otherwise.
pub proof fn target_is_wanted_or_primary(list: Seq<Monitor>, setting: Seq<char>)
    requires
        list.len() > 0,
    ensures
        0 <= target(list, setting) < list.len(),
        (exists|i: int| 0 <= i < list.len() && wanted(setting)(#[trigger] list[i])) ==> wanted(
            setting,
        )(list[target(list, setting)]),
        !(exists|i: int| 0 <= i < list.len() && wanted(setting)(#[trigger] list[i])) && (exists|
            i: int,
        |
            0 <= i < list.len() && (#[trigger] list[i]).primary) ==> list[target(
            list,
            setting,
        )].primary,
{
    lemma_first_index(list, wanted(setting));
    lemma_first_index(list, is_primary());
    if exists|i: int| 0 <= i < list.len() && (#[trigger] list[i]).primary {
        let i = choose|i: int| 0 <= i < list.len() && (#[trigger] list[i]).primary;
        assert(is_primary()(list[i]));
    }
}

/// The display is the one that the setting asks for: the primary one, the internal one, or the
/// one of that device name, whatever the case of its letters.
pub open spec fn asked_for(m: Monitor, setting: Seq<char>) -> bool {
    if setting == "primary"@ {
        m.primary
    } else if setting == "internal"@ {
        m.internal
    } else {
        same_ignoring_case(m.device@, setting)
    }
}

/// The first display that the setting asks for is picked; where there is none, the first primary
/// one; and where there is none either, the first.
pub proof fn the_first_suitable_display_is_picked(
    list: Seq<Monitor>,
    setting: Seq<char>,
    i: int,
)
    requires
        list.len() > 0,
        0 <= i < list.len(),
    ensures
        asked_for(list[i], setting) && (forall|k: int|
            0 <= k < i ==> !asked_for(#[trigger] list[k], setting)) ==> target(list, setting) == i,
        (forall|k: int| 0 <= k < list.len() ==> !asked_for(#[trigger] list[k], setting))
            && list[i].primary && (forall|k: int|
            0 <= k < i ==> !(#[trigger] list[k]).primary) ==> target(list, setting) == i,
        (forall|k: int|
            0 <= k < list.len() ==> !asked_for(#[trigger] list[k], setting) && !list[k].primary)
            ==> target(list, setting) == 0,
{
    reveal_strlit("primary");
    reveal_strlit("internal");
    assert("primary"@.len() != "internal"@.len());
    assert forall|m: Monitor| #[trigger] asked_for(m, setting) == wanted(setting)(m) by {
    }
    lemma_first_index(list, wanted(setting));
    lemma_first_index(list, is_primary());
    let a = first_index(list, wanted(setting));
    let b = first_index(list, is_primary());
    if a < list.len() {
        assert(asked_for(list[a], setting));
        if asked_for(list[i], setting) && (forall|k: int|
            0 <= k < i ==> !asked_for(#[trigger] list[k], setting)) {
            assert(a <= i) by {
                if i < a {
                    assert(!wanted(setting)(list[i]));
                }
            }
            assert(!(a < i)) by {
                if a < i {
                    assert(!asked_for(list[a], setting));
                }
            }
        }
    } else {
        if asked_for(list[i], setting) {
            assert(!wanted(setting)(list[i]));
        }
        if b < list.len() {
            assert(list[b].primary);
        }
        if list[i].primary && b > i {
            assert(!is_primary()(list[i]));
        }
    }
}

/// A device is named if one of the names is its own, whatever the case of its letters.
pub proof fn which_devices_are_named(names: Seq<String>, device: Seq<char>, k: int)
    requires
        0 <= k < names.len(),
    ensures
        same_ignoring_case(names[k]@, device) ==> names_device(names, device),
        names_device(names, device) ==> exists|j: int|
            0 <= j < names.len() && same_ignoring_case((#[trigger] names[j])@, device),
{
}

} // verus!
