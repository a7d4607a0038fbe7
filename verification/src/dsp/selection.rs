//! Which channel is heard.

use crate::model::{Settings, SettingsView, VfoConfig, VfoStatus};
use vstd::prelude::*;

verus! {

/// Whether a channel is listened to alone.
pub open spec fn any_solo(vfos: Seq<VfoConfig>) -> bool {
    exists|i: int| 0 <= i < vfos.len() && (#[trigger] vfos[i]).solo && !vfos[i].muted
}

/// Whether the user wants to hear a channel.
pub open spec fn wanted(vfo: VfoConfig, solo: bool) -> bool {
    !vfo.muted && (!solo || vfo.solo)
}

/// Whether a channel carries a signal that may be heard.
pub open spec fn passes(status: VfoStatus, use_vad: bool) -> bool {
    status.squelch_open && status.tone_open && (!use_vad || status.vad)
}

/// Whether the channel `id` carries a signal that may be heard.
pub open spec fn carries(statuses: Seq<VfoStatus>, id: u32, use_vad: bool) -> bool {
    exists|j: int|
        0 <= j < statuses.len() && (#[trigger] statuses[j]).id == id && passes(
            statuses[j],
            use_vad,
        )
}

/// Whether the channel at place `i` may be selected.
pub open spec fn is_candidate(settings: SettingsView, statuses: Seq<VfoStatus>, i: int) -> bool {
    &&& 0 <= i < settings.vfos.len()
    &&& wanted(settings.vfos[i], any_solo(settings.vfos))
    &&& carries(statuses, settings.vfos[i].id, settings.use_vad)
}

/// Whether `a` is preferred to `b`: by priority, then the current channel, then by
/// identifier.
pub open spec fn goes_before(a: VfoConfig, b: VfoConfig, previous: Option<u32>) -> bool {
    let current_a = previous == Some(a.id);
    let current_b = previous == Some(b.id);
    ||| a.priority < b.priority
    ||| a.priority == b.priority && current_a && !current_b
    ||| a.priority == b.priority && current_a == current_b && a.id < b.id
}

/// Whether the channel at place `i` may be selected, and none is preferred to it.
pub open spec fn is_best(
    settings: SettingsView,
    statuses: Seq<VfoStatus>,
    previous: Option<u32>,
    i: int,
) -> bool {
    &&& is_candidate(settings, statuses, i)
    &&& forall|j: int| #[trigger]
        is_candidate(settings, statuses, j) ==> !goes_before(
            settings.vfos[j],
            settings.vfos[i],
            previous,
        )
}

/// Whether `selected` is the channel to be heard: the best one that may be selected,
/// or none where there is none.
pub open spec fn is_selected(
    settings: SettingsView,
    statuses: Seq<VfoStatus>,
    previous: Option<u32>,
    selected: Option<u32>,
) -> bool {
    match selected {
        Some(id) => exists|i: int| #[trigger]
            is_best(settings, statuses, previous, i) && settings.vfos[i].id == id,
        None => forall|i: int| !is_candidate(settings, statuses, i),
    }
}

/// Whether a channel is listened to alone.
pub fn solo_active(vfos: &[VfoConfig]) -> (r: bool)
    ensures
        r == any_solo(vfos@),
{
    let mut i: usize = 0;
    while i < vfos.len()
        invariant
            i <= vfos.len(),
            forall|j: int| 0 <= j < i ==> !((#[trigger] vfos@[j]).solo && !vfos@[j].muted),
        decreases vfos.len() - i,
    {
        if vfos[i].solo && !vfos[i].muted {
            return true;
        }
        i += 1;
    }
    false
}

/// Whether a channel carries a signal that may be heard.
pub fn may_pass(status: &VfoStatus, use_vad: bool) -> (r: bool)
    ensures
        r == passes(*status, use_vad),
{
    status.squelch_open && status.tone_open && (!use_vad || status.vad)
}

fn does_carry(statuses: &[VfoStatus], id: u32, use_vad: bool) -> (r: bool)
    ensures
        r == carries(statuses@, id, use_vad),
{
    let mut j: usize = 0;
    while j < statuses.len()
        invariant
            j <= statuses.len(),
            forall|k: int|
                0 <= k < j ==> !((#[trigger] statuses@[k]).id == id && passes(
                    statuses@[k],
                    use_vad,
                )),
        decreases statuses.len() - j,
    {
        if statuses[j].id == id && may_pass(&statuses[j], use_vad) {
            return true;
        }
        j += 1;
    }
    false
}

fn is_current(id: u32, previous: Option<u32>) -> (r: bool)
    ensures
        r == (previous == Some(id)),
{
    match previous {
        Some(p) => p == id,
        None => false,
    }
}

fn comes_before(a: &VfoConfig, b: &VfoConfig, previous: Option<u32>) -> (r: bool)
    ensures
        r == goes_before(*a, *b, previous),
{
    let current_a: bool = is_current(a.id, previous);
    let current_b: bool = is_current(b.id, previous);
    a.priority < b.priority || (a.priority == b.priority && ((current_a && !current_b) || (current_a
        == current_b && a.id < b.id)))
}

/// The channel that is heard: the one of the smallest priority among those that are
/// wanted and carry a signal, then the current one, then the one of the smallest
/// identifier.
pub fn select_vfo(settings: &Settings, statuses: &[VfoStatus], previous: Option<u32>) -> (r: Option<
    u32,
>)
    ensures
        is_selected(settings@, statuses@, previous, r),
{
    let solo: bool = solo_active(settings.vfos.as_slice());
    let ghost s = settings@;
    let mut best: Option<usize> = None;
    let mut i: usize = 0;
    while i < settings.vfos.len()
        invariant
            i <= settings.vfos.len(),
            s == settings@,
            solo == any_solo(s.vfos),
            match best {
                Some(b) => {
                    &&& b < i
                    &&& is_candidate(s, statuses@, b as int)
                    &&& forall|j: int|
                        0 <= j < i && #[trigger] is_candidate(s, statuses@, j) ==> !goes_before(
                            s.vfos[j],
                            s.vfos[b as int],
                            previous,
                        )
                },
                None => forall|j: int| 0 <= j < i ==> !is_candidate(s, statuses@, j),
            },
        decreases settings.vfos.len() - i,
    {
        let vfo: &VfoConfig = &settings.vfos[i];
        if !vfo.muted && (!solo || vfo.solo) && does_carry(statuses, vfo.id, settings.use_vad) {
            assert(is_candidate(s, statuses@, i as int));
            let better: bool = match best {
                Some(b) => comes_before(vfo, &settings.vfos[b], previous),
                None => true,
            };
            if better {
                best = Some(i);
            }
        }
        i += 1;
    }
    match best {
        Some(b) => {
            assert(is_best(s, statuses@, previous, b as int));
            Some(settings.vfos[b].id)
        },
        None => None,
    }
}

/// The policy leaves no choice: what is selected follows from the settings, the
/// measurements and the current channel.
pub proof fn selection_is_determined(
    settings: SettingsView,
    statuses: Seq<VfoStatus>,
    previous: Option<u32>,
    a: Option<u32>,
    b: Option<u32>,
)
    requires
        is_selected(settings, statuses, previous, a),
        is_selected(settings, statuses, previous, b),
    ensures
        a == b,
{
    if let Some(x) = a {
        let i = choose|i: int| #[trigger]
            is_best(settings, statuses, previous, i) && settings.vfos[i].id == x;
        assert(is_candidate(settings, statuses, i));
    }
    if let Some(y) = b {
        let j = choose|j: int| #[trigger]
            is_best(settings, statuses, previous, j) && settings.vfos[j].id == y;
        assert(is_candidate(settings, statuses, j));
    }
}

/// What is selected is not muted, is listened to alone where any channel is, and
/// carries a signal with its tone.
pub proof fn selected_channel_is_wanted_and_open(
    settings: SettingsView,
    statuses: Seq<VfoStatus>,
    previous: Option<u32>,
    id: u32,
)
    requires
        is_selected(settings, statuses, previous, Some(id)),
    ensures
        exists|i: int|
            0 <= i < settings.vfos.len() && (#[trigger] settings.vfos[i]).id == id && wanted(
                settings.vfos[i],
                any_solo(settings.vfos),
            ),
        carries(statuses, id, settings.use_vad),
{
}

/// The current channel is kept unless one of a smaller priority may be selected.
pub proof fn current_channel_wins_ties(
    settings: SettingsView,
    statuses: Seq<VfoStatus>,
    i: int,
    selected: Option<u32>,
)
    requires
        is_candidate(settings, statuses, i),
        forall|j: int| #[trigger]
            is_candidate(settings, statuses, j) ==> settings.vfos[i].priority
                <= settings.vfos[j].priority,
        is_selected(settings, statuses, Some(settings.vfos[i].id), selected),
    ensures
        selected == Some(settings.vfos[i].id),
{
    let previous = Some(settings.vfos[i].id);
    assert(is_best(settings, statuses, previous, i));
    selection_is_determined(settings, statuses, previous, selected, previous);
}

/// A channel of a smaller priority that may be selected is heard, whatever the
/// current one.
pub proof fn smallest_priority_wins(
    settings: SettingsView,
    statuses: Seq<VfoStatus>,
    previous: Option<u32>,
    i: int,
    selected: Option<u32>,
)
    requires
        is_candidate(settings, statuses, i),
        forall|j: int| #[trigger]
            is_candidate(settings, statuses, j) && j != i ==> settings.vfos[i].priority
                < settings.vfos[j].priority,
        is_selected(settings, statuses, previous, selected),
    ensures
        selected == Some(settings.vfos[i].id),
{
    assert(is_best(settings, statuses, previous, i));
    selection_is_determined(
        settings,
        statuses,
        previous,
        selected,
        Some(settings.vfos[i].id),
    );
}

/// What is selected is not muted; where a channel that is not muted is listened to alone,
/// it is such a channel; and its squelch is open, its tone is heard, and its audio carries
/// energy where that is asked for.
pub proof fn only_an_open_channel_is_selected(
    settings: SettingsView,
    statuses: Seq<VfoStatus>,
    previous: Option<u32>,
    id: u32,
)
    requires
        is_selected(settings, statuses, previous, Some(id)),
    ensures
        exists|i: int|
            {
                &&& 0 <= i < settings.vfos.len()
                &&& (#[trigger] settings.vfos[i]).id == id
                &&& !settings.vfos[i].muted
                &&& settings.vfos[i].solo || forall|m: int|
                    0 <= m < settings.vfos.len() && (#[trigger] settings.vfos[m]).solo
                        ==> settings.vfos[m].muted
            },
        exists|k: int|
            {
                &&& 0 <= k < statuses.len()
                &&& (#[trigger] statuses[k]).id == id
                &&& statuses[k].squelch_open
                &&& statuses[k].tone_open
                &&& settings.use_vad ==> statuses[k].vad
            },
{
    let i = choose|i: int| #[trigger]
        is_best(settings, statuses, previous, i) && settings.vfos[i].id == id;
    assert(is_candidate(settings, statuses, i));
    assert(settings.vfos[i].id == id);
}

/// A channel that no other goes before has the smaller priority, or is heard already, or
/// has the smaller identifier.
proof fn lemma_order(a: VfoConfig, b: VfoConfig, previous: Option<u32>)
    requires
        !goes_before(b, a, previous),
    ensures
        a.priority <= b.priority,
        a.priority == b.priority && previous == Some(b.id) ==> a.id == b.id,
        a.priority == b.priority && previous != Some(a.id) ==> a.id <= b.id,
{
}

/// A channel that is not muted, has an open squelch, its tone and, where that is asked for,
/// energy in its audio, and that is listened to alone where any is, is never passed over
/// but for one of a smaller priority; among equal ones the channel that is heard already
/// stays, and else the smallest identifier wins.
pub proof fn open_channel_yields_only_to_a_better_one(
    settings: SettingsView,
    statuses: Seq<VfoStatus>,
    previous: Option<u32>,
    selected: Option<u32>,
    j: int,
    k: int,
)
    requires
        is_selected(settings, statuses, previous, selected),
        0 <= j < settings.vfos.len(),
        !settings.vfos[j].muted,
        settings.vfos[j].solo || forall|m: int|
            0 <= m < settings.vfos.len() && (#[trigger] settings.vfos[m]).solo
                ==> settings.vfos[m].muted,
        0 <= k < statuses.len(),
        statuses[k].id == settings.vfos[j].id,
        statuses[k].squelch_open,
        statuses[k].tone_open,
        settings.use_vad ==> statuses[k].vad,
    ensures
        selected is Some,
        exists|i: int|
            {
                let (a, b) = (#[trigger] settings.vfos[i], settings.vfos[j]);
                &&& 0 <= i < settings.vfos.len()
                &&& Some(a.id) == selected
                &&& a.priority <= b.priority
                &&& a.priority == b.priority && previous == Some(b.id) ==> a.id == b.id
                &&& a.priority == b.priority && previous != Some(a.id) ==> a.id <= b.id
            },
{
    assert(is_candidate(settings, statuses, j));
    let i = choose|i: int| #[trigger]
        is_best(settings, statuses, previous, i) && Some(settings.vfos[i].id) == selected;
    assert(is_candidate(settings, statuses, i));
    lemma_order(settings.vfos[i], settings.vfos[j], previous);
    assert(Some(settings.vfos[i].id) == selected);
}

} // verus!
