//! Detection of a sub-audible tone and of audio activity.

use vstd::prelude::*;

verus! {

/// Looks for one sub-audible tone in windows of 200 milliseconds.
#[derive(Clone, Copy, Debug)]
pub struct ToneDetector {
    /// Samples of the current window that were seen.
    pub count: u32,
    /// Samples per window.
    pub length: u32,
    /// Whether the last window held the tone.
    pub detected: bool,
}

/// The smallest mean energy that a tone is looked for in, in millionths of a
/// millionth: below, there is silence.
pub const SILENCE: u64 = 100_000;

/// The smallest share of the energy that a tone has, in millionths: below, the
/// energy lies elsewhere.
pub const TONE_SHARE: u64 = 8_000;

impl ToneDetector {
    pub open spec fn wf(self) -> bool {
        self.count < self.length
    }

    /// A detector for audio of `rate` samples per second.
    pub fn new(rate: u32) -> (r: Self)
        requires
            rate >= 5,
        ensures
            r.wf(),
            r.count == 0,
            r.length == rate / 5,
            !r.detected,
    {
        ToneDetector { count: 0, length: rate / 5, detected: false }
    }

    /// Counts a sample; true where it ends the window.
    pub fn push(&mut self) -> (end: bool)
        requires
            old(self).wf(),
        ensures
            final(self).wf(),
            final(self).length == old(self).length,
            final(self).detected == old(self).detected,
            end == (old(self).count + 1 == old(self).length),
            final(self).count == (if end {
                0
            } else {
                (old(self).count + 1) as u32
            }),
    {
        if self.count + 1 == self.length {
            self.count = 0;
            true
        } else {
            self.count = self.count + 1;
            false
        }
    }

    /// Decides at the end of a window: the tone is there where the audio carries
    /// energy and enough of it lies on the tone.
    pub fn conclude(&mut self, mean_energy: u64, share: u64)
        requires
            old(self).wf(),
        ensures
            final(self).wf(),
            final(self).count == old(self).count,
            final(self).length == old(self).length,
            final(self).detected == (mean_energy > SILENCE && share > TONE_SHARE),
    {
        self.detected = mean_energy > SILENCE && share > TONE_SHARE;
    }
}

/// Detects audio that carries energy, with a hold: it does not tell speech from
/// anything else.
#[derive(Clone, Copy, Debug)]
pub struct ActivityDetector {
    /// Samples for which activity is still held.
    pub remaining: usize,
}

/// Samples for which activity is held, a quarter of a second.
pub const ACTIVITY_HOLD: usize = 12_000;

/// The sum of the squares of the samples.
pub open spec fn energy(audio: Seq<i32>) -> int
    decreases audio.len(),
{
    if audio.len() == 0 {
        0
    } else {
        energy(audio.drop_last()) + audio.last() * audio.last()
    }
}

/// Whether the mean of the squares is above a ten-thousandth of full scale squared.
pub open spec fn is_active(audio: Seq<i32>) -> bool {
    energy(audio) > 1_000_000_000_000 * (if audio.len() == 0 {
        1
    } else {
        audio.len() as int
    })
}

/// What is left of `hold` after `n` samples.
pub open spec fn spent(hold: int, n: int) -> int {
    if hold > n {
        hold - n
    } else {
        0
    }
}

/// The sum of the squares of the samples.
fn sum_of_squares(audio: &[i32]) -> (r: u128)
    ensures
        r == energy(audio@),
{
    let mut sum: u128 = 0;
    let mut i: usize = 0;
    while i < audio.len()
        invariant
            i <= audio.len(),
            sum == energy(audio@.take(i as int)),
            sum <= i * 0x4000_0000_0000_0000,
        decreases audio@.len() - i,
    {
        let x: i64 = audio[i] as i64;
        proof {
            assert(audio@.take(i + 1).drop_last() =~= audio@.take(i as int));
            assert(0 <= x * x <= 0x4000_0000_0000_0000) by (nonlinear_arith)
                requires
                    -0x8000_0000 <= x <= 0x7fff_ffff,
            ;
            assert((i + 1) * 0x4000_0000_0000_0000 <= 0x1_0000_0000_0000_0000
                * 0x4000_0000_0000_0000);
        }
        sum = sum + (x * x) as u128;
        i += 1;
    }
    assert(audio@.take(i as int) =~= audio@);
    sum
}

impl ActivityDetector {
    /// The detector after a block.
    pub open spec fn spec_update(self, audio: Seq<i32>, rf_open: bool) -> ActivityDetector {
        ActivityDetector {
            remaining: if rf_open && is_active(audio) {
                ACTIVITY_HOLD
            } else {
                spent(self.remaining as int, audio.len() as int) as usize
            },
        }
    }

    /// Takes a block of audio, with whether the channel is open: whether activity is
    /// heard in it, or was within the hold.
    pub fn update(&mut self, audio: &[i32], rf_open: bool) -> (r: bool)
        ensures
            *final(self) == old(self).spec_update(audio@, rf_open),
            r == (rf_open && final(self).remaining > 0),
    {
        let count: u128 = if audio.len() == 0 {
            1
        } else {
            audio.len() as u128
        };
        if rf_open && sum_of_squares(audio) > 1_000_000_000_000 * count {
            self.remaining = ACTIVITY_HOLD;
        } else {
            self.remaining = self.remaining.saturating_sub(audio.len());
        }
        rf_open && self.remaining > 0
    }
}

impl Default for ActivityDetector {
    fn default() -> (r: Self)
        ensures
            r.remaining == 0,
    {
        ActivityDetector { remaining: 0 }
    }
}

/// Silence never starts activity.
pub proof fn silence_is_no_activity(audio: Seq<i32>)
    requires
        forall|i: int| 0 <= i < audio.len() ==> audio[i] == 0,
    ensures
        !is_active(audio),
    decreases audio.len(),
{
    lemma_no_energy(audio);
}

proof fn lemma_no_energy(audio: Seq<i32>)
    requires
        forall|i: int| 0 <= i < audio.len() ==> audio[i] == 0,
    ensures
        energy(audio) == 0,
    decreases audio.len(),
{
    if audio.len() > 0 {
        lemma_no_energy(audio.drop_last());
    }
}

/// Energies add up over blocks, and a sample counts its square, whatever its sign.
pub proof fn energy_adds_up(a: Seq<i32>, b: Seq<i32>, x: i32)
    ensures
        energy(a + b) == energy(a) + energy(b),
        energy(seq![x]) == x * x,
    decreases b.len(),
{
    let one = seq![x];
    assert(one.drop_last() =~= Seq::empty());
    assert(energy(one.drop_last()) == 0);
    if b.len() == 0 {
        assert(a + b =~= a);
    } else {
        assert((a + b).drop_last() =~= a + b.drop_last());
        energy_adds_up(a, b.drop_last(), x);
    }
}

/// Audio that never exceeds a hundredth of full scale is no activity; audio that always
/// does is.
pub proof fn activity_is_above_a_hundredth_of_full_scale(audio: Seq<i32>)
    ensures
        (forall|i: int| 0 <= i < audio.len() ==> -1_000_000 <= #[trigger] audio[i] <= 1_000_000)
            ==> !is_active(audio),
        audio.len() > 0 && (forall|i: int|
            0 <= i < audio.len() ==> #[trigger] audio[i] < -1_000_000 || audio[i] > 1_000_000)
            ==> is_active(audio),
{
    if forall|i: int| 0 <= i < audio.len() ==> -1_000_000 <= #[trigger] audio[i] <= 1_000_000 {
        lemma_weak(audio);
    }
    if forall|i: int|
        0 <= i < audio.len() ==> #[trigger] audio[i] < -1_000_000 || audio[i] > 1_000_000 {
        lemma_strong(audio);
    }
}

proof fn lemma_weak(audio: Seq<i32>)
    requires
        forall|i: int| 0 <= i < audio.len() ==> -1_000_000 <= #[trigger] audio[i] <= 1_000_000,
    ensures
        energy(audio) <= 1_000_000_000_000 * audio.len(),
    decreases audio.len(),
{
    if audio.len() > 0 {
        let t = audio.drop_last();
        assert forall|i: int| 0 <= i < t.len() implies -1_000_000 <= #[trigger] t[i] <= 1_000_000 by {
            assert(t[i] == audio[i]);
        }
        lemma_weak(t);
        let x = audio[audio.len() - 1] as int;
        assert(x * x <= 1_000_000_000_000) by (nonlinear_arith)
            requires
                -1_000_000 <= x <= 1_000_000,
        ;
    }
}

proof fn lemma_strong(audio: Seq<i32>)
    requires
        forall|i: int|
            0 <= i < audio.len() ==> #[trigger] audio[i] < -1_000_000 || audio[i] > 1_000_000,
    ensures
        energy(audio) >= 1_000_000_000_001 * audio.len(),
    decreases audio.len(),
{
    if audio.len() > 0 {
        let t = audio.drop_last();
        assert forall|i: int| 0 <= i < t.len() implies #[trigger] t[i] < -1_000_000 || t[i]
            > 1_000_000 by {
            assert(t[i] == audio[i]);
        }
        lemma_strong(t);
        let x = audio[audio.len() - 1] as int;
        assert(x * x >= 1_000_000_000_001) by (nonlinear_arith)
            requires
                x <= -1_000_001 || x >= 1_000_001,
        ;
    }
}

/// Activity is decided by the mean energy: above a ten-thousandth of full scale squared
/// there is activity, and only there.
pub proof fn activity_is_decided_by_the_mean_energy(audio: Seq<i32>)
    requires
        audio.len() > 0,
    ensures
        is_active(audio) <==> energy(audio) * 10_000 > 10_000_000_000_000_000 * audio.len(),
{
}

/// Activity in an open channel is held for a quarter of a second, 12 000 samples, sample by
/// sample, and nothing else starts it: neither audio of a closed channel nor audio
/// without energy.
pub proof fn activity_is_held_for_a_quarter_of_a_second(
    detector: ActivityDetector,
    audio: Seq<i32>,
    rf_open: bool,
)
    ensures
        ({
            let after = detector.spec_update(audio, rf_open);
            &&& rf_open && is_active(audio) ==> after.remaining == 12_000
            &&& !(rf_open && is_active(audio)) && detector.remaining >= audio.len()
                ==> after.remaining + audio.len() == detector.remaining
            &&& !(rf_open && is_active(audio)) && detector.remaining <= audio.len()
                ==> after.remaining == 0
        }),
{
}

} // verus!
