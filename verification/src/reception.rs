//! What holds over a whole reception, from the block that is read to what is shown.

use crate::dsp::pass::{FrontEnd, Pass};
use crate::dsp::processor::{admitted, restarts_zero, Carry, Processor};
use crate::dsp::spectrum::{counted, lemma_progress_grows, progress};
use crate::engine::{held_after, Acquisition, FrameGate, FrameTag, FrameUse, Stage};
use crate::model::{default_settings, Settings, SettingsView};
use vstd::prelude::*;

verus! {

/// Whether `run` is what the thread that owns the device goes through.
pub open spec fn is_run(run: Seq<Acquisition>) -> bool {
    &&& run.len() > 0
    &&& run[0].wf()
    &&& forall|i: int| 0 <= i < run.len() - 1 ==> #[trigger] is_step(run, i)
}

/// One step of a run.
pub open spec fn is_step(run: Seq<Acquisition>, i: int) -> bool {
    run[i].moves(run[i + 1])
}

proof fn lemma_run_wf(run: Seq<Acquisition>, i: int)
    requires
        is_run(run),
        0 <= i < run.len(),
    ensures
        run[i].wf(),
{
    if i > 0 {
        assert(is_step(run, i - 1));
    }
}

/// Over a run the number of the settings never falls, and names them.
pub proof fn epochs_name_settings_over_a_run(run: Seq<Acquisition>, i: int, j: int)
    requires
        is_run(run),
        0 <= i <= j < run.len(),
    ensures
        run[i].epoch <= run[j].epoch,
        run[i].sequence <= run[j].sequence,
        run[i].epoch == run[j].epoch ==> run[i].tags().settings == run[j].tags().settings,
    decreases j - i,
{
    if i < j {
        epochs_name_settings_over_a_run(run, i, j - 1);
        assert(is_step(run, j - 1));
    }
}

/// A reception that ended stays ended: nothing is read any more.
pub proof fn an_ended_reception_stays_ended(run: Seq<Acquisition>, i: int)
    requires
        is_run(run),
        0 <= i < run.len(),
        run[i].stage == Stage::Ended,
    ensures
        i == run.len() - 1,
{
    if i < run.len() - 1 {
        assert(is_step(run, i));
    }
}

/// The signal processing between two blocks, as far as a whole reception is followed.
pub struct Outline {
    pub gate: FrameGate,
    /// The settings of the receiver, where there is one.
    pub settings: SettingsView,
    /// How many spectra the noise was measured with.
    pub frames: int,
}

impl Outline {
    /// After the receiver was made ready for a block that came while the settings `live`
    /// held.
    pub open spec fn prepared(
        self,
        tag: FrameTag,
        settings: SettingsView,
        live: u64,
    ) -> Outline {
        let action = self.gate.spec_use(tag, live);
        Outline {
            gate: self.gate.spec_next(tag, live),
            settings: held_after(self.settings, admitted(settings), action),
            frames: match action {
                FrameUse::Skip | FrameUse::Keep => self.frames,
                FrameUse::Rebuild => 0,
                FrameUse::Resume | FrameUse::Configure => if restarts_zero(
                    self.settings,
                    settings,
                ) {
                    0
                } else {
                    self.frames
                },
            },
        }
    }

    /// After the block was measured too, unless it is skipped.
    pub open spec fn received(
        self,
        tag: FrameTag,
        settings: SettingsView,
        live: u64,
    ) -> Outline {
        let ready = self.prepared(tag, settings, live);
        if self.gate.spec_use(tag, live) == FrameUse::Skip {
            ready
        } else {
            Outline { frames: counted(ready.frames), ..ready }
        }
    }
}

/// The signal processing: the receiver, and what it knows of the blocks before.
pub struct Reception {
    pub gate: FrameGate,
    pub processor: Option<Processor>,
}

/// How the receiver was made ready for a block.
pub enum Preparation {
    /// The block is to be left out.
    Skipped,
    /// The receiver starts anew.
    Rebuilt,
    /// All channels start anew, and the noise is measured on.
    Resumed,
    /// The receiver took new settings; each channel says where its filters come from.
    Configured(Vec<Carry>),
    /// The receiver goes on.
    Kept,
}

impl Reception {
    /// The blocks that came, the settings and the measure of the noise.
    pub open spec fn outline(self) -> Outline {
        Outline {
            gate: self.gate,
            settings: match self.processor {
                Some(p) => p.settings@,
                None => default_settings(),
            },
            frames: match self.processor {
                Some(p) => p.spectrum.frames_seen as int,
                None => 0,
            },
        }
    }

    pub open spec fn wf(self) -> bool {
        &&& self.gate.ready <==> self.processor is Some
        &&& self.processor matches Some(p) ==> p.wf()
    }

    /// Whether `after` and `r` are what a block makes of the receiver.
    pub open spec fn prepares(
        self,
        after: Reception,
        tag: FrameTag,
        live: u64,
        settings: SettingsView,
        r: Preparation,
    ) -> bool {
        let (old, new) = (self.processor->0, after.processor->0);
        &&& after.gate == self.gate.spec_next(tag, live)
        &&& match self.gate.spec_use(tag, live) {
            FrameUse::Skip => r is Skipped && after.processor == self.processor,
            FrameUse::Rebuild => {
                &&& r is Rebuilt
                &&& after.processor is Some
                &&& new.is_at_rest(settings)
                &&& new.spectrum.is_new()
            },
            FrameUse::Resume => {
                &&& r is Resumed
                &&& after.processor is Some
                &&& new.is_at_rest(settings)
                &&& old.measures_on(new, settings)
            },
            FrameUse::Configure => {
                &&& r matches Preparation::Configured(carries)
                &&& after.processor is Some
                &&& old.configures(new, settings, carries@)
            },
            FrameUse::Keep => r is Kept && after.processor == self.processor,
        }
    }

    /// Before the first block.
    pub fn new() -> (r: Self)
        ensures
            r.wf(),
            not_ready(r.outline()),
            r.processor is None,
    {
        Reception { gate: FrameGate::new(), processor: None }
    }

    /// Makes the receiver ready for a block, which was received with `settings` and comes
    /// while the settings `live_epoch` hold.
    pub fn take(&mut self, tag: FrameTag, live_epoch: u64, settings: Settings) -> (r: Preparation)
        requires
            old(self).wf(),
            tag.sequence < u64::MAX,
        ensures
            final(self).wf(),
            final(self).outline() == old(self).outline().prepared(tag, settings@, live_epoch),
            old(self).prepares(*final(self), tag, live_epoch, settings@, r),
    {
        let action: FrameUse = self.gate.take(tag, live_epoch);
        if action == FrameUse::Skip {
            return Preparation::Skipped;
        }
        if action == FrameUse::Keep {
            return Preparation::Kept;
        }
        let mut last: Option<Processor> = None;
        std::mem::swap(&mut last, &mut self.processor);
        match last {
            Some(p) => {
                let mut processor: Processor = p;
                if action == FrameUse::Resume {
                    processor.resume(settings);
                    self.processor = Some(processor);
                    Preparation::Resumed
                } else {
                    let carries: Vec<Carry> = processor.configure(settings);
                    self.processor = Some(processor);
                    Preparation::Configured(carries)
                }
            },
            None => {
                self.processor = Some(Processor::new(settings));
                Preparation::Rebuilt
            },
        }
    }
}

/// A block that is processed is counted by the measure of the noise, and what is shown of
/// it names the centre of the receiver's band and how far the measure has come.
pub proof fn snapshots_show_the_receiver(ready: Reception, block: FrontEnd, pass: Pass)
    requires
        ready.processor == Some(pass.start),
        pass.is_of(block),
    ensures
        (Reception { processor: Some(pass.end), ..ready }).outline() == (Outline {
            frames: counted(ready.outline().frames),
            ..ready.outline()
        }),
        pass.snapshot.center_hz == ready.outline().settings.center_hz,
        pass.snapshot.zero_progress == progress(counted(ready.outline().frames)),
{
}

/// A block that reaches the signal processing, with the settings that hold then.
pub struct Arrival {
    pub tag: FrameTag,
    pub settings: SettingsView,
    pub live: u64,
}

/// The signal processing after some blocks.
pub open spec fn received_all(r: Outline, arrivals: Seq<Arrival>) -> Outline
    decreases arrivals.len(),
{
    if arrivals.len() == 0 {
        r
    } else {
        let last = arrivals.last();
        received_all(r, arrivals.drop_last()).received(last.tag, last.settings, last.live)
    }
}

/// The measure of the noise never falls back while the band, the gain of the tuner and
/// the request for a measure stay the same: whatever else changes in the settings, and
/// whatever blocks are skipped or lost.
pub proof fn calibration_never_falls_back(r: Outline, arrivals: Seq<Arrival>)
    requires
        r.gate.ready,
        0 <= r.frames <= u32::MAX,
        forall|k: int|
            0 <= k < arrivals.len() ==> !restarts_zero(r.settings, (#[trigger] arrivals[k]).settings),
    ensures
        progress(received_all(r, arrivals).frames) >= progress(r.frames),
        received_all(r, arrivals).gate.ready,
        r.frames <= received_all(r, arrivals).frames <= u32::MAX,
        !restarts_zero(r.settings, received_all(r, arrivals).settings),
    decreases arrivals.len(),
{
    if arrivals.len() > 0 {
        let before = arrivals.drop_last();
        assert forall|k: int| 0 <= k < before.len() implies !restarts_zero(
            r.settings,
            (#[trigger] before[k]).settings,
        ) by {
            assert(before[k] == arrivals[k]);
        }
        calibration_never_falls_back(r, before);
        assert(!restarts_zero(r.settings, arrivals[arrivals.len() - 1].settings));
    }
    lemma_progress_grows(r.frames, received_all(r, arrivals).frames);
}

/// A block on its way: where in the run it was handed on, and how far the run had come
/// when the signal processing took it and when it was done with it.
pub struct Passage {
    pub sent: int,
    pub taken: int,
    pub done: int,
}

impl Passage {
    /// Whether it is the passage of a block of the run.
    pub open spec fn is_of(self, run: Seq<Acquisition>) -> bool {
        &&& 0 <= self.sent <= self.taken <= self.done < run.len()
        &&& run[self.sent].stage == Stage::Sending
    }

    /// The block as it reaches the signal processing.
    pub open spec fn arrival(self, run: Seq<Acquisition>) -> Arrival {
        Arrival {
            tag: FrameTag { sequence: run[self.sent].sequence, epoch: run[self.sent].epoch },
            settings: run[self.sent].tags().settings,
            live: run[self.taken].epoch,
        }
    }
}

/// The blocks as they reach the signal processing.
pub open spec fn arrivals(run: Seq<Acquisition>, passages: Seq<Passage>) -> Seq<Arrival> {
    passages.map_values(|p: Passage| p.arrival(run))
}

/// The signal processing before the first block.
pub open spec fn not_ready(r: Outline) -> bool {
    r.gate == (FrameGate { ready: false, previous_epoch: u64::MAX, expected: 0 })
}

/// The centre that is shown with the last of some blocks; none where neither a snapshot
/// nor audio comes of it.
pub open spec fn shown(
    run: Seq<Acquisition>,
    r: Outline,
    passages: Seq<Passage>,
) -> Option<int> {
    let last = passages.last();
    let block = last.arrival(run);
    let before = received_all(r, arrivals(run, passages.drop_last()));
    if before.gate.spec_use(block.tag, block.live) == FrameUse::Skip || run[last.done].epoch
        != block.tag.epoch {
        None
    } else {
        Some(received_all(r, arrivals(run, passages)).settings.center_hz)
    }
}

/// Whether the receiver has the settings that its number names in the run.
spec fn holds_named(run: Seq<Acquisition>, r: Outline) -> bool {
    exists|m: int|
        0 <= m < run.len() && (#[trigger] run[m]).epoch == r.gate.previous_epoch && r.settings
            == admitted(run[m].tags().settings)
}

proof fn lemma_holds_named(run: Seq<Acquisition>, r: Outline, passages: Seq<Passage>)
    requires
        is_run(run),
        not_ready(r),
        forall|k: int| 0 <= k < passages.len() ==> (#[trigger] passages[k]).is_of(run),
    ensures
        ({
            let after = received_all(r, arrivals(run, passages));
            after.gate.ready ==> holds_named(run, after)
        }),
    decreases passages.len(),
{
    if passages.len() > 0 {
        let before = passages.drop_last();
        lemma_passages_before(run, passages);
        lemma_holds_named(run, r, before);
        lemma_one_passage(run, r, passages);
    }
}

proof fn lemma_passages_before(run: Seq<Acquisition>, passages: Seq<Passage>)
    requires
        passages.len() > 0,
        forall|k: int| 0 <= k < passages.len() ==> (#[trigger] passages[k]).is_of(run),
    ensures
        forall|k: int|
            0 <= k < passages.drop_last().len() ==> (#[trigger] passages.drop_last()[k]).is_of(run),
        passages.last().is_of(run),
        arrivals(run, passages).drop_last() =~= arrivals(run, passages.drop_last()),
        arrivals(run, passages).last() == passages.last().arrival(run),
{
    assert forall|k: int| 0 <= k < passages.drop_last().len() implies (
    #[trigger] passages.drop_last()[k]).is_of(run) by {
        assert(passages.drop_last()[k] == passages[k]);
    }
    assert(passages[passages.len() - 1].is_of(run));
}

/// One more block: the receiver then has the settings of the last block it took.
proof fn lemma_one_passage(run: Seq<Acquisition>, r: Outline, passages: Seq<Passage>)
    requires
        is_run(run),
        passages.len() > 0,
        passages.last().is_of(run),
        arrivals(run, passages).drop_last() =~= arrivals(run, passages.drop_last()),
        arrivals(run, passages).last() == passages.last().arrival(run),
        ({
            let before = received_all(r, arrivals(run, passages.drop_last()));
            before.gate.ready ==> holds_named(run, before)
        }),
    ensures
        ({
            let before = received_all(r, arrivals(run, passages.drop_last()));
            let after = received_all(r, arrivals(run, passages));
            let block = passages.last().arrival(run);
            &&& after.gate.ready ==> holds_named(run, after)
            &&& block.tag.epoch == block.live ==> after.settings == admitted(block.settings)
        }),
{
    let before = received_all(r, arrivals(run, passages.drop_last()));
    let after = received_all(r, arrivals(run, passages));
    let last = passages.last();
    let block = last.arrival(run);
    assert(after == before.received(block.tag, block.settings, block.live));
    let action = before.gate.spec_use(block.tag, block.live);
    if action == FrameUse::Skip {
    } else {
        if action == FrameUse::Keep {
            let m = choose|m: int|
                0 <= m < run.len() && (#[trigger] run[m]).epoch == before.gate.previous_epoch
                    && before.settings == admitted(run[m].tags().settings);
            if m <= last.sent {
                epochs_name_settings_over_a_run(run, m, last.sent);
            } else {
                epochs_name_settings_over_a_run(run, last.sent, m);
            }
        }
        assert(run[last.sent].epoch == after.gate.previous_epoch);
    }
}

/// What is shown of a block always belongs to the band that the device was open on while
/// the block was read. Of a block that was overtaken by new settings or a new gain,
/// before it was taken or before it was done with, neither a snapshot nor audio comes;
/// of any other it does.
pub proof fn snapshots_show_the_band_they_were_read_on(
    run: Seq<Acquisition>,
    r: Outline,
    passages: Seq<Passage>,
)
    requires
        is_run(run),
        not_ready(r),
        passages.len() > 0,
        forall|k: int| 0 <= k < passages.len() ==> (#[trigger] passages[k]).is_of(run),
    ensures
        ({
            let last = passages.last();
            let tuned = run[last.sent].tuned_hz;
            let overtaken = run[last.done].epoch != run[last.sent].epoch;
            &&& shown(run, r, passages) matches Some(hz) ==> tuned == Some(hz as i64)
                && tuned->0 == hz
            &&& shown(run, r, passages) is None <==> overtaken
        }),
{
    let last = passages.last();
    lemma_passages_before(run, passages);
    lemma_holds_named(run, r, passages.drop_last());
    lemma_one_passage(run, r, passages);
    lemma_run_wf(run, last.sent);
    epochs_name_settings_over_a_run(run, last.sent, last.taken);
    epochs_name_settings_over_a_run(run, last.taken, last.done);
}

} // verus!
