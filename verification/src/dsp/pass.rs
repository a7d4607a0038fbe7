//! The way of a receiver through the blocks, one after another.

use crate::dsp::detector::ToneDetector;
use crate::dsp::processor::{same_but_voice, ChannelAudio, Measurement, Processor};
use crate::dsp::vfo::Vfo;
use crate::model::Snapshot;
use vstd::prelude::*;

verus! {

/// What the transform and the demodulators give of a block.
pub struct FrontEnd {
    /// The averaged power of each bin.
    pub power_db: Seq<i32>,
    pub channels: Seq<ChannelAudio>,
    /// How far each channel has counted its samples.
    pub ticks: Seq<u32>,
    /// What each channel knows of its tone.
    pub tones: Seq<Option<ToneDetector>>,
}

/// The way of a receiver through one block.
pub struct Pass {
    pub start: Processor,
    /// After the samples and the tones were counted.
    pub demodulated: Processor,
    pub measured: Processor,
    pub measurement: Measurement,
    /// After the voices were cleaned.
    pub cleaned: Processor,
    /// The audio of the channels, as the voice filter left it.
    pub audio: Seq<Vec<i32>>,
    pub end: Processor,
    pub output: Seq<i32>,
    pub snapshot: Snapshot,
}

/// Whether only the samples and the tones were counted.
pub open spec fn only_counted(before: Processor, after: Processor, front: FrontEnd) -> bool {
    &&& after == (Processor { vfos: after.vfos, ..before })
    &&& after.vfos@.len() == before.vfos@.len()
    &&& forall|i: int|
        0 <= i < before.vfos@.len() ==> #[trigger] after.vfos@[i] == (Vfo {
            tick: front.ticks[i],
            tone: front.tones[i],
            ..before.vfos@[i]
        })
}

/// Whether only the voice filters went on.
pub open spec fn only_voices(before: Processor, after: Processor) -> bool {
    &&& after == (Processor { vfos: after.vfos, ..before })
    &&& after.vfos@.len() == before.vfos@.len()
    &&& forall|i: int|
        0 <= i < before.vfos@.len() ==> same_but_voice(#[trigger] after.vfos@[i], before.vfos@[i])
}

impl Pass {
    /// Whether it is the way through the block that `front` describes.
    pub open spec fn is_of(self, front: FrontEnd) -> bool {
        &&& only_counted(self.start, self.demodulated, front)
        &&& self.demodulated.wf()
        &&& self.demodulated.measures(
            self.measured,
            front.power_db,
            front.channels,
            self.measurement,
        )
        &&& only_voices(self.measured, self.cleaned)
        &&& self.cleaned.processes(
            self.end,
            self.measurement.spectrum,
            self.measurement.statuses@,
            self.audio,
            self.output,
            self.snapshot,
        )
    }
}

/// Whether the pass `k` goes on where the last one ended.
pub open spec fn follows(passes: Seq<Pass>, k: int) -> bool {
    passes[k].start == passes[k - 1].end
}

/// Whether a receiver goes through the blocks, one after another.
pub open spec fn goes_through(passes: Seq<Pass>, fronts: Seq<FrontEnd>) -> bool {
    &&& passes.len() == fronts.len()
    &&& forall|k: int| 0 <= k < passes.len() ==> (#[trigger] passes[k]).is_of(fronts[k])
    &&& forall|k: int| 0 < k < passes.len() ==> #[trigger] follows(passes, k)
}

} // verus!
