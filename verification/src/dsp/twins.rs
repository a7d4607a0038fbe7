//! Two receivers that differ in the voice filter alone.

use crate::dsp::mixer::{Mix, BLOCK_AUDIO, CEILING};
use crate::dsp::pass::{follows, goes_through, FrontEnd, Pass};
use crate::dsp::processor::{is_measured, same_but_voice, Processor};
use crate::dsp::selection::{
    goes_before, is_best, is_candidate, is_selected, selection_is_determined,
};
use crate::dsp::spectrum::{bin, lemma_peak_is_unique, levels};
use crate::dsp::vfo::Vfo;
use crate::model::{SettingsView, Snapshot, VfoStatus};
use vstd::prelude::*;

verus! {

/// The settings with another voice filter.
pub open spec fn with_voice(settings: SettingsView, denoise: bool, strength: int) -> SettingsView {
    SettingsView { voice_denoise: denoise, voice_strength: strength, ..settings }
}

/// Whether two receivers differ in the voice filter alone.
pub open spec fn twins(a: Processor, b: Processor) -> bool {
    &&& b.settings@ == with_voice(a.settings@, b.settings@.voice_denoise, b.settings@.voice_strength)
    &&& a.selected == b.selected
    &&& a.gains@ == b.gains@
    &&& a.spectrum.floor@ == b.spectrum.floor@
    &&& a.spectrum.initialized == b.spectrum.initialized
    &&& a.spectrum.frames_seen == b.spectrum.frames_seen
    &&& a.vfos@.len() == b.vfos@.len()
    &&& forall|i: int| 0 <= i < a.vfos@.len() ==> same_but_voice(#[trigger] a.vfos@[i], b.vfos@[i])
}

proof fn lemma_new_twins(
    a: Processor,
    b: Processor,
    settings: SettingsView,
    denoise: bool,
    strength: int,
)
    requires
        a.is_at_rest(settings),
        b.is_at_rest(with_voice(settings, denoise, strength)),
        a.spectrum.is_new(),
        b.spectrum.is_new(),
    ensures
        twins(a, b),
{
    assert(a.settings@.vfos =~= b.settings@.vfos);
    assert(a.gains@ =~= b.gains@);
    assert(a.spectrum.floor@ =~= b.spectrum.floor@);
    assert forall|i: int| 0 <= i < a.vfos@.len() implies same_but_voice(
        #[trigger] a.vfos@[i],
        b.vfos@[i],
    ) by {
        let (x, y) = (a.vfos@[i], b.vfos@[i]);
        assert(x.is_new(a.settings@.vfos[i], settings.center_hz));
        assert(y.is_new(b.settings@.vfos[i], settings.center_hz));
        assert(x.tone == y.tone);
        assert(x.activity == y.activity);
    }
}

proof fn lemma_levels_injective(a: Seq<i32>, b: Seq<i32>)
    requires
        levels(a) == levels(b),
    ensures
        a == b,
{
    assert(levels(a).len() == a.len() && levels(b).len() == b.len());
    assert forall|i: int| 0 <= i < a.len() implies a[i] == b[i] by {
        assert(levels(a)[i] == a[i] && levels(b)[i] == b[i]);
    }
    assert(a =~= b);
}

/// The twins measure the same.
proof fn lemma_measured_twins(a: Pass, b: Pass, front: FrontEnd)
    requires
        a.is_of(front),
        b.is_of(front),
        twins(a.start, b.start),
    ensures
        twins(a.measured, b.measured),
        a.measurement.statuses@ == b.measurement.statuses@,
{
    let (x, y) = (a.demodulated, b.demodulated);
    assert forall|i: int| 0 <= i < x.vfos@.len() implies same_but_voice(
        #[trigger] x.vfos@[i],
        y.vfos@[i],
    ) by {
        assert(same_but_voice(a.start.vfos@[i], b.start.vfos@[i]));
        assert(y.vfos@[i] == (Vfo {
            tick: front.ticks[i],
            tone: front.tones[i],
            ..b.start.vfos@[i]
        }));
    }
    lemma_levels_injective(a.measured.spectrum.floor@, b.measured.spectrum.floor@);
    let (ms, mt) = (a.measurement, b.measurement);
    assert forall|i: int| 0 <= i < x.vfos@.len() implies ms.statuses@[i] == mt.statuses@[i]
        && same_but_voice(#[trigger] a.measured.vfos@[i], b.measured.vfos@[i]) by {
        assert(same_but_voice(x.vfos@[i], y.vfos@[i]));
        assert(is_measured(
            x.settings@,
            ms.spectrum,
            x.vfos@[i],
            a.measured.vfos@[i],
            front.channels[i],
            ms.statuses@[i],
            ms.voices@[i],
        ));
        assert(is_measured(
            y.settings@,
            mt.spectrum,
            y.vfos@[i],
            b.measured.vfos@[i],
            front.channels[i],
            mt.statuses@[i],
            mt.voices@[i],
        ));
        let config = x.vfos@[i].config;
        if config.spec_in_band(x.settings@.center_hz) {
            let offset = config.spec_offset(x.settings@.center_hz);
            let half = config.mode.spec_bandwidth() / 2;
            lemma_peak_is_unique(
                ms.spectrum.power_db@,
                ms.spectrum.floor_db@,
                bin(offset - half),
                bin(offset + half),
                ms.statuses@[i].snr_db as int,
                mt.statuses@[i].snr_db as int,
            );
        }
    }
    assert forall|i: int| 0 <= i < ms.statuses@.len() implies ms.statuses@[i] == mt.statuses@[i] by {
        assert(same_but_voice(a.measured.vfos@[i], b.measured.vfos@[i]));
    }
    assert(ms.statuses@ =~= mt.statuses@);
}

/// The twins go through a block in the same way.
proof fn lemma_one_block(a: Pass, b: Pass, front: FrontEnd)
    requires
        a.is_of(front),
        b.is_of(front),
        twins(a.start, b.start),
    ensures
        twins(a.end, b.end),
        a.snapshot.selected == b.snapshot.selected,
        a.snapshot.vfos@ == b.snapshot.vfos@,
{
    lemma_measured_twins(a, b, front);
    let statuses = a.measurement.statuses@;
    let (x, y) = (a.cleaned, b.cleaned);
    assert forall|i: int| 0 <= i < x.vfos@.len() implies same_but_voice(
        #[trigger] x.vfos@[i],
        y.vfos@[i],
    ) by {
        assert(same_but_voice(a.measured.vfos@[i], b.measured.vfos@[i]));
        assert(same_but_voice(y.vfos@[i], b.measured.vfos@[i]));
    }
    lemma_selection_ignores_voice(x.settings@, y.settings@, statuses, x.selected, b.end.selected);
    selection_is_determined(x.settings@, statuses, x.selected, a.end.selected, b.end.selected);
    assert(a.snapshot.vfos@ =~= b.snapshot.vfos@);
    let mix = |p: Processor, s: Snapshot, audio: Seq<Vec<i32>>|
        Mix {
            vfos: p.settings@.vfos,
            statuses: s.vfos@,
            audio,
            gains: p.gains@,
            master_gain: p.settings@.master_gain,
        };
    let ma = mix(x, a.snapshot, a.audio);
    let mb = mix(y, b.snapshot, b.audio);
    assert forall|i: int| 0 <= i < a.end.gains@.len() implies a.end.gains@[i] == b.end.gains@[i] by {
        assert(a.end.gains@[i] == ma.gain(i, BLOCK_AUDIO as nat));
        assert(b.end.gains@[i] == mb.gain(i, BLOCK_AUDIO as nat));
        assert(ma.target(i) == mb.target(i));
    }
    assert(a.end.gains@ =~= b.end.gains@);
}

/// The selection does not look at the voice filter.
proof fn lemma_selection_ignores_voice(
    a: SettingsView,
    b: SettingsView,
    statuses: Seq<VfoStatus>,
    previous: Option<u32>,
    selected: Option<u32>,
)
    requires
        b == with_voice(a, b.voice_denoise, b.voice_strength),
        is_selected(b, statuses, previous, selected),
    ensures
        is_selected(a, statuses, previous, selected),
{
    assert forall|i: int|
        is_candidate(a, statuses, i) == #[trigger] is_candidate(b, statuses, i) by {}
    match selected {
        Some(id) => {
            let i = choose|i: int| #[trigger]
                is_best(b, statuses, previous, i) && b.vfos[i].id == id;
            assert forall|j: int| #[trigger] is_candidate(a, statuses, j) implies !goes_before(
                a.vfos[j],
                a.vfos[i],
                previous,
            ) by {
                assert(is_candidate(b, statuses, j));
            }
            assert(is_candidate(b, statuses, i));
            assert(is_best(a, statuses, previous, i));
        },
        None => {
            assert forall|i: int| !is_candidate(a, statuses, i) by {
                assert(!is_candidate(b, statuses, i));
            }
        },
    }
}

proof fn lemma_twins_stay(a: Seq<Pass>, b: Seq<Pass>, fronts: Seq<FrontEnd>, k: int)
    requires
        goes_through(a, fronts),
        goes_through(b, fronts),
        0 <= k < fronts.len(),
        twins(a[0].start, b[0].start),
    ensures
        twins(a[k].start, b[k].start),
    decreases k,
{
    if k > 0 {
        lemma_twins_stay(a, b, fronts, k - 1);
        assert(a[k - 1].is_of(fronts[k - 1]));
        assert(b[k - 1].is_of(fronts[k - 1]));
        lemma_one_block(a[k - 1], b[k - 1], fronts[k - 1]);
        assert(follows(a, k));
        assert(follows(b, k));
    }
}

/// Whether the voice is cleaned, and how much, changes no decision of the receiver: two
/// receivers that start with settings equal but for the voice filter, and go through the
/// same blocks, measure the same of every channel, select the same channel and hear the
/// same channels with every block. Either gives 512 samples below full scale.
pub proof fn voice_filter_changes_no_decision_of_the_receiver(
    a: Seq<Pass>,
    b: Seq<Pass>,
    fronts: Seq<FrontEnd>,
    settings: SettingsView,
    denoise: bool,
    strength: int,
    k: int,
)
    requires
        goes_through(a, fronts),
        goes_through(b, fronts),
        0 <= k < fronts.len(),
        a[0].start.is_at_rest(settings),
        b[0].start.is_at_rest(with_voice(settings, denoise, strength)),
        a[0].start.spectrum.is_new(),
        b[0].start.spectrum.is_new(),
    ensures
        a[k].snapshot.selected == b[k].snapshot.selected,
        a[k].snapshot.vfos@ == b[k].snapshot.vfos@,
        a[k].output.len() == BLOCK_AUDIO,
        b[k].output.len() == BLOCK_AUDIO,
        forall|t: int| 0 <= t < BLOCK_AUDIO ==> -CEILING <= #[trigger] a[k].output[t] <= CEILING,
        forall|t: int| 0 <= t < BLOCK_AUDIO ==> -CEILING <= #[trigger] b[k].output[t] <= CEILING,
{
    lemma_new_twins(a[0].start, b[0].start, settings, denoise, strength);
    lemma_twins_stay(a, b, fronts, k);
    assert(a[k].is_of(fronts[k]));
    assert(b[k].is_of(fronts[k]));
    lemma_one_block(a[k], b[k], fronts[k]);
}

} // verus!
