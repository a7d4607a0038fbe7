//! The sum of the audible channels, with gains that move gradually.

use crate::model::{VfoConfig, VfoStatus, MAX_VFOS};
use crate::units::{clamped, nearest, round_div, ONE};
use vstd::prelude::*;

verus! {

/// A gain of one while channels are mixed. It is a multiple of all numbers of
/// channels, so that sharing it out leaves no rest.
pub const MIX_ONE: i64 = 840_000_000;

/// The largest step of a gain from one sample to the next: from silence to full
/// gain takes 240 samples, five milliseconds.
pub const RAMP: i64 = 3_500_000;

/// The largest sample that is heard.
pub const CEILING: i32 = 95_000_000;

/// Audio samples per block.
pub const BLOCK_AUDIO: usize = 512;

/// The largest gain, either way.
pub const GAIN_BOUND: i64 = 0x200_0000_0000;

/// A gain after one more sample on its way to `target`.
pub open spec fn ramp_step(gain: int, target: int) -> int {
    gain + clamped(target - gain, -(RAMP as int), RAMP as int)
}

/// A gain after `n` samples on its way to `target`.
pub open spec fn ramped(gain: int, target: int, n: nat) -> int
    decreases n,
{
    if n == 0 {
        gain
    } else {
        ramp_step(ramped(gain, target, (n - 1) as nat), target)
    }
}

/// How many channels are audible.
pub open spec fn audible_count(statuses: Seq<VfoStatus>) -> int
    decreases statuses.len(),
{
    if statuses.len() == 0 {
        0
    } else {
        audible_count(statuses.drop_last()) + (if statuses.last().audible {
            1int
        } else {
            0
        })
    }
}

/// Among how many channels the gain is shared.
pub open spec fn divisor(statuses: Seq<VfoStatus>) -> int {
    if audible_count(statuses) < 1 {
        1
    } else {
        audible_count(statuses)
    }
}

/// The gain that a channel moves to.
pub open spec fn target(vfo: VfoConfig, status: VfoStatus, divisor: int) -> int {
    if status.audible {
        vfo.gain * 840 / divisor
    } else {
        0
    }
}

/// A sample of a channel: one outside the band is silent.
pub open spec fn channel_sample(status: VfoStatus, audio: Seq<i32>, t: int) -> int {
    if status.in_band {
        audio[t] as int
    } else {
        0
    }
}

/// What is mixed.
pub struct Mix {
    pub vfos: Seq<VfoConfig>,
    pub statuses: Seq<VfoStatus>,
    pub audio: Seq<Vec<i32>>,
    pub gains: Seq<i64>,
    pub master_gain: int,
}

impl Mix {
    /// The gain that the channel `i` moves to.
    pub open spec fn target(self, i: int) -> int {
        target(self.vfos[i], self.statuses[i], divisor(self.statuses))
    }

    /// The gain of the channel `i` after `n` samples.
    pub open spec fn gain(self, i: int, n: nat) -> int {
        ramped(self.gains[i] as int, self.target(i), n)
    }

    /// What the channel `i` adds at the sample `t`.
    pub open spec fn part(self, i: int, t: int) -> int {
        channel_sample(self.statuses[i], self.audio[i]@, t) * self.gain(i, (t + 1) as nat)
            * self.master_gain
    }

    /// What the first `k` channels add at the sample `t`.
    pub open spec fn sum(self, k: nat, t: int) -> int
        decreases k,
    {
        if k == 0 {
            0
        } else {
            self.sum((k - 1) as nat, t) + self.part(k - 1, t)
        }
    }

    /// What is heard at the sample `t`.
    pub open spec fn heard(self, t: int) -> int {
        clamped(
            nearest(self.sum(self.vfos.len(), t), MIX_ONE * ONE),
            -(CEILING as int),
            CEILING as int,
        )
    }

    /// All channels at hand, with their audio where they lie in the band.
    pub open spec fn wf(self) -> bool {
        &&& self.vfos.len() <= MAX_VFOS
        &&& self.statuses.len() == self.vfos.len()
        &&& self.audio.len() == self.vfos.len()
        &&& self.gains.len() == self.vfos.len()
        &&& forall|i: int|
            0 <= i < self.vfos.len() ==> -GAIN_BOUND <= #[trigger] self.gains[i] <= GAIN_BOUND
        &&& forall|i: int|
            0 <= i < self.vfos.len() && (#[trigger] self.statuses[i]).in_band
                ==> self.audio[i]@.len() == BLOCK_AUDIO
    }
}

pub proof fn lemma_audible_count(statuses: Seq<VfoStatus>)
    ensures
        0 <= audible_count(statuses) <= statuses.len(),
    decreases statuses.len(),
{
    if statuses.len() > 0 {
        lemma_audible_count(statuses.drop_last());
    }
}

fn count_audible(statuses: &[VfoStatus]) -> (r: usize)
    ensures
        r == audible_count(statuses@),
        r <= statuses@.len(),
{
    let mut count: usize = 0;
    let mut i: usize = 0;
    while i < statuses.len()
        invariant
            i <= statuses.len(),
            count <= i,
            count == audible_count(statuses@.take(i as int)),
        decreases statuses.len() - i,
    {
        assert(statuses@.take(i + 1).drop_last() =~= statuses@.take(i as int));
        if statuses[i].audible {
            count = count + 1;
        }
        i += 1;
    }
    assert(statuses@.take(i as int) =~= statuses@);
    count
}

proof fn lemma_target_bounds(vfo: VfoConfig, status: VfoStatus, divisor: int)
    requires
        1 <= divisor <= MAX_VFOS,
    ensures
        -GAIN_BOUND <= target(vfo, status, divisor) <= GAIN_BOUND,
{
    let a = vfo.gain * 840;
    assert(-0x200_0000_0000 <= a / divisor <= 0x200_0000_0000) by (nonlinear_arith)
        requires
            1 <= divisor <= 8,
            -0x8000_0000 * 840 <= a <= 0x7fff_ffff * 840,
    ;
}

/// The gain that a channel moves to.
fn target_gain(vfo: &VfoConfig, status: &VfoStatus, divisor: usize) -> (r: i64)
    requires
        1 <= divisor <= MAX_VFOS,
    ensures
        r == target(*vfo, *status, divisor as int),
        -GAIN_BOUND <= r <= GAIN_BOUND,
{
    proof {
        lemma_target_bounds(*vfo, *status, divisor as int);
    }
    if status.audible {
        crate::units::floor_div(vfo.gain as i128 * 840, divisor as i128) as i64
    } else {
        0
    }
}

/// Moves a gain by one sample.
fn move_gain(gain: i64, target: i64) -> (r: i64)
    requires
        -GAIN_BOUND <= gain <= GAIN_BOUND,
        -GAIN_BOUND <= target <= GAIN_BOUND,
    ensures
        r == ramp_step(gain as int, target as int),
        -GAIN_BOUND <= r <= GAIN_BOUND,
{
    gain + crate::units::clamp((target - gain) as i128, -(RAMP as i128), RAMP as i128) as i64
}

proof fn lemma_part_bounds(sample: int, gain: int, master: int)
    requires
        -0x8000_0000 <= sample <= 0x8000_0000,
        -0x200_0000_0000 <= gain <= 0x200_0000_0000,
        -0x8000_0000 <= master <= 0x8000_0000,
    ensures
        -0x100_0000_0000_0000_0000 <= sample * gain <= 0x100_0000_0000_0000_0000,
        -0x80_0000_0000_0000_0000_0000_0000 <= sample * gain * master
            <= 0x80_0000_0000_0000_0000_0000_0000,
{
    assert(-0x100_0000_0000_0000_0000 <= sample * gain <= 0x100_0000_0000_0000_0000)
        by (nonlinear_arith)
        requires
            -0x8000_0000 <= sample <= 0x8000_0000,
            -0x200_0000_0000 <= gain <= 0x200_0000_0000,
    ;
    let p = sample * gain;
    assert(-0x80_0000_0000_0000_0000_0000_0000 <= p * master
        <= 0x80_0000_0000_0000_0000_0000_0000) by (nonlinear_arith)
        requires
            -0x100_0000_0000_0000_0000 <= p <= 0x100_0000_0000_0000_0000,
            -0x8000_0000 <= master <= 0x8000_0000,
    ;
}

/// The bound on what `k` channels add.
spec fn sum_bound(k: int) -> int {
    k * 0x80_0000_0000_0000_0000_0000_0000
}

/// Adds the channel `i` to the sums and moves its gain.
fn add_channel(
    sums: &mut Vec<i128>,
    audio: &[i32],
    status: &VfoStatus,
    gain: i64,
    target: i64,
    master_gain: i32,
    Ghost(mix): Ghost<Mix>,
    Ghost(i): Ghost<int>,
) -> (r: i64)
    requires
        mix.wf(),
        0 <= i < mix.vfos.len(),
        *status == mix.statuses[i],
        audio@ == mix.audio[i]@,
        gain == mix.gains[i],
        target == mix.target(i),
        -GAIN_BOUND <= target <= GAIN_BOUND,
        master_gain == mix.master_gain,
        old(sums)@.len() == BLOCK_AUDIO,
        forall|t: int|
            0 <= t < BLOCK_AUDIO ==> #[trigger] old(sums)@[t] == mix.sum(i as nat, t)
                && -sum_bound(i) <= old(sums)@[t] <= sum_bound(i),
    ensures
        r == mix.gain(i, BLOCK_AUDIO as nat),
        -GAIN_BOUND <= r <= GAIN_BOUND,
        final(sums)@.len() == BLOCK_AUDIO,
        forall|t: int|
            0 <= t < BLOCK_AUDIO ==> #[trigger] final(sums)@[t] == mix.sum((i + 1) as nat, t)
                && -sum_bound(i + 1) <= final(sums)@[t] <= sum_bound(i + 1),
{
    let mut current: i64 = gain;
    let mut t: usize = 0;
    while t < BLOCK_AUDIO
        invariant
            t <= BLOCK_AUDIO,
            mix.wf(),
            0 <= i < mix.vfos.len(),
            *status == mix.statuses[i],
            audio@ == mix.audio[i]@,
            target == mix.target(i),
            -GAIN_BOUND <= target <= GAIN_BOUND,
            master_gain == mix.master_gain,
            current == mix.gain(i, t as nat),
            -GAIN_BOUND <= current <= GAIN_BOUND,
            sums@.len() == BLOCK_AUDIO,
            forall|u: int|
                0 <= u < t ==> #[trigger] sums@[u] == mix.sum((i + 1) as nat, u) && -sum_bound(
                    i + 1,
                ) <= sums@[u] <= sum_bound(i + 1),
            forall|u: int|
                t <= u < BLOCK_AUDIO ==> #[trigger] sums@[u] == mix.sum(i as nat, u)
                    && -sum_bound(i) <= sums@[u] <= sum_bound(i),
        decreases BLOCK_AUDIO - t,
    {
        current = move_gain(current, target);
        let sample: i128 = if status.in_band {
            audio[t] as i128
        } else {
            0
        };
        proof {
            lemma_part_bounds(sample as int, current as int, master_gain as int);
            assert(mix.part(i, t as int) == sample * current * master_gain);
            assert(sums@[t as int] == mix.sum(i as nat, t as int));
        }
        let part: i128 = sample * current as i128 * master_gain as i128;
        let sum: i128 = sums[t] + part;
        sums.set(t, sum);
        t += 1;
    }
    current
}

/// The quotient that is heard of a sum.
fn heard_sample(sum: i128) -> (r: i32)
    requires
        -0x0400_0000_0000_0000_0000_0000_0000 <= sum <= 0x0400_0000_0000_0000_0000_0000_0000,
    ensures
        r == clamped(nearest(sum as int, MIX_ONE * ONE), -(CEILING as int), CEILING as int),
{
    let unit: i128 = 840_000_000_000_000;
    assert(unit == MIX_ONE * ONE);
    crate::units::clamp(round_div(sum, unit), -(CEILING as i128), CEILING as i128) as i32
}

/// Mixes one block: each gain moves to its target, the parts are added, and the sum
/// is kept below full scale. Gives the audio, and moves the gains.
pub fn mix(
    vfos: &[VfoConfig],
    statuses: &[VfoStatus],
    audio: &[Vec<i32>],
    gains: &mut Vec<i64>,
    master_gain: i32,
) -> (r: Vec<i32>)
    requires
        (Mix {
            vfos: vfos@,
            statuses: statuses@,
            audio: audio@,
            gains: old(gains)@,
            master_gain: master_gain as int,
        }).wf(),
    ensures
        ({
            let mix = Mix {
                vfos: vfos@,
                statuses: statuses@,
                audio: audio@,
                gains: old(gains)@,
                master_gain: master_gain as int,
            };
            &&& r@.len() == BLOCK_AUDIO
            &&& forall|t: int| 0 <= t < BLOCK_AUDIO ==> #[trigger] r@[t] == mix.heard(t)
            &&& final(gains)@.len() == vfos@.len()
            &&& forall|i: int|
                0 <= i < vfos@.len() ==> #[trigger] final(gains)@[i] == mix.gain(
                    i,
                    BLOCK_AUDIO as nat,
                ) && -GAIN_BOUND <= final(gains)@[i] <= GAIN_BOUND
        }),
{
    let ghost mix = Mix {
        vfos: vfos@,
        statuses: statuses@,
        audio: audio@,
        gains: gains@,
        master_gain: master_gain as int,
    };
    let count: usize = count_audible(statuses);
    let share: usize = if count < 1 {
        1
    } else {
        count
    };
    let mut sums: Vec<i128> = vec![0i128; BLOCK_AUDIO];
    let mut i: usize = 0;
    while i < vfos.len()
        invariant
            i <= vfos.len(),
            mix.wf(),
            mix.vfos == vfos@,
            mix.statuses == statuses@,
            mix.audio == audio@,
            mix.master_gain == master_gain,
            share == divisor(mix.statuses),
            1 <= share <= MAX_VFOS,
            gains@.len() == vfos@.len(),
            forall|j: int| i <= j < vfos@.len() ==> #[trigger] gains@[j] == mix.gains[j],
            forall|j: int|
                0 <= j < i ==> #[trigger] gains@[j] == mix.gain(j, BLOCK_AUDIO as nat)
                    && -GAIN_BOUND <= gains@[j] <= GAIN_BOUND,
            sums@.len() == BLOCK_AUDIO,
            forall|t: int|
                0 <= t < BLOCK_AUDIO ==> #[trigger] sums@[t] == mix.sum(i as nat, t)
                    && -sum_bound(i as int) <= sums@[t] <= sum_bound(i as int),
        decreases vfos.len() - i,
    {
        let target: i64 = target_gain(&vfos[i], &statuses[i], share);
        assert(target == mix.target(i as int));
        let gain: i64 = add_channel(
            &mut sums,
            audio[i].as_slice(),
            &statuses[i],
            gains[i],
            target,
            master_gain,
            Ghost(mix),
            Ghost(i as int),
        );
        gains.set(i, gain);
        i += 1;
    }
    let mut output: Vec<i32> = Vec::with_capacity(BLOCK_AUDIO);
    let mut t: usize = 0;
    while t < BLOCK_AUDIO
        invariant
            t <= BLOCK_AUDIO,
            mix.vfos == vfos@,
            vfos@.len() <= MAX_VFOS,
            sums@.len() == BLOCK_AUDIO,
            forall|u: int|
                0 <= u < BLOCK_AUDIO ==> #[trigger] sums@[u] == mix.sum(vfos@.len(), u)
                    && -sum_bound(vfos@.len() as int) <= sums@[u] <= sum_bound(vfos@.len() as int),
            output@.len() == t,
            forall|u: int| 0 <= u < t ==> #[trigger] output@[u] == mix.heard(u),
        decreases BLOCK_AUDIO - t,
    {
        output.push(heard_sample(sums[t]));
        t += 1;
    }
    output
}

/// The audio never reaches full scale.
pub proof fn audio_never_reaches_full_scale(mix: Mix, t: int)
    ensures
        -CEILING <= mix.heard(t) <= CEILING,
        CEILING < crate::units::FULL_SCALE,
{
}

/// What the first `k` channels are targeted at together.
pub open spec fn targets(mix: Mix, k: nat) -> int
    decreases k,
{
    if k == 0 {
        0
    } else {
        targets(mix, (k - 1) as nat) + mix.target(k - 1)
    }
}

proof fn lemma_targets(mix: Mix, k: nat)
    requires
        mix.wf(),
        k <= mix.vfos.len(),
        forall|i: int| 0 <= i < mix.vfos.len() ==> 0 <= (#[trigger] mix.vfos[i]).gain <= ONE,
    ensures
        0 <= divisor(mix.statuses) * targets(mix, k) <= MIX_ONE * audible_count(
            mix.statuses.take(k as int),
        ),
    decreases k,
{
    let d = divisor(mix.statuses);
    lemma_audible_count(mix.statuses);
    if k == 0 {
        assert(d * 0 == 0) by (nonlinear_arith);
    } else {
        let j = (k - 1) as nat;
        lemma_targets(mix, j);
        assert(mix.statuses.take(k as int).drop_last() =~= mix.statuses.take(j as int));
        let g = mix.vfos[j as int].gain * 840;
        vstd::arithmetic::div_mod::lemma_fundamental_div_mod(g, d);
        vstd::arithmetic::div_mod::lemma_mod_bound(g, d);
        let t = mix.target(j as int);
        assert(d * (g / d) >= 0) by (nonlinear_arith)
            requires
                g >= 0,
                d > 0,
        ;
        assert(d * 0 == 0) by (nonlinear_arith);
        assert(d * (targets(mix, j) + t) == d * targets(mix, j) + d * t) by (nonlinear_arith);
    }
}

/// Mixing shares the gain out: where no channel has more than full gain, all together
/// have no more than full gain.
pub proof fn mixed_channels_share_full_gain(mix: Mix)
    requires
        mix.wf(),
        forall|i: int| 0 <= i < mix.vfos.len() ==> 0 <= (#[trigger] mix.vfos[i]).gain <= ONE,
    ensures
        0 <= targets(mix, mix.vfos.len()) <= MIX_ONE,
{
    lemma_targets(mix, mix.vfos.len());
    lemma_audible_count(mix.statuses);
    assert(mix.statuses.take(mix.vfos.len() as int) =~= mix.statuses);
    let (d, t, c) = (
        divisor(mix.statuses),
        targets(mix, mix.vfos.len()),
        audible_count(mix.statuses),
    );
    assert(0 <= t <= 840_000_000) by (nonlinear_arith)
        requires
            0 <= d * t <= 840_000_000 * c,
            c <= d,
            d >= 1,
    ;
}

/// A gain never jumps: from one sample to the next it moves by less than half a
/// hundredth of full gain.
pub proof fn gains_never_jump(gain: int, target: int, n: nat)
    ensures
        -RAMP <= ramped(gain, target, n + 1) - ramped(gain, target, n) <= RAMP,
        200 * RAMP < MIX_ONE,
{
}

/// A gain that is at most one away from its target reaches it within five
/// milliseconds, and stays.
pub proof fn gains_settle_within_five_milliseconds(gain: int, target: int, n: nat)
    requires
        -MIX_ONE <= target - gain <= MIX_ONE,
        n >= 240,
    ensures
        ramped(gain, target, n) == target,
{
    lemma_ramp(gain, target, n);
}

proof fn lemma_ramp(gain: int, target: int, n: nat)
    ensures
        target >= gain ==> ramped(gain, target, n) == (if gain + n * RAMP < target {
            gain + n * RAMP
        } else {
            target
        }),
        target <= gain ==> ramped(gain, target, n) == (if gain - n * RAMP > target {
            gain - n * RAMP
        } else {
            target
        }),
    decreases n,
{
    if n > 0 {
        lemma_ramp(gain, target, (n - 1) as nat);
    }
}

/// Where no channel is audible and all gains are down, there is silence.
pub proof fn nothing_audible_is_silence(mix: Mix, t: int)
    requires
        mix.wf(),
        0 <= t < BLOCK_AUDIO,
        forall|i: int| 0 <= i < mix.vfos.len() ==> !(#[trigger] mix.statuses[i]).audible,
        forall|i: int| 0 <= i < mix.vfos.len() ==> #[trigger] mix.gains[i] == 0,
    ensures
        mix.heard(t) == 0,
{
    assert forall|i: int| 0 <= i < mix.vfos.len() implies #[trigger] mix.part(i, t) == 0 by {
        assert(!mix.statuses[i].audible);
        assert(mix.gains[i] == 0);
        lemma_ramp(0, 0, (t + 1) as nat);
        let s = channel_sample(mix.statuses[i], mix.audio[i]@, t);
        assert(s * 0 * mix.master_gain == 0) by (nonlinear_arith);
    }
    lemma_no_parts(mix, mix.vfos.len(), t);
}

/// Channels outside the band never reach the audio, whatever their gains.
pub proof fn channels_outside_the_band_are_silent(mix: Mix, t: int)
    requires
        mix.wf(),
        0 <= t < BLOCK_AUDIO,
        forall|i: int| 0 <= i < mix.vfos.len() ==> !(#[trigger] mix.statuses[i]).in_band,
    ensures
        mix.heard(t) == 0,
{
    assert forall|i: int| 0 <= i < mix.vfos.len() implies #[trigger] mix.part(i, t) == 0 by {
        assert(!mix.statuses[i].in_band);
        let g = mix.gain(i, (t + 1) as nat);
        assert(0 * g * mix.master_gain == 0) by (nonlinear_arith);
    }
    lemma_no_parts(mix, mix.vfos.len(), t);
}

proof fn lemma_no_parts(mix: Mix, k: nat, t: int)
    requires
        k <= mix.vfos.len(),
        forall|i: int| 0 <= i < mix.vfos.len() ==> #[trigger] mix.part(i, t) == 0,
    ensures
        mix.sum(k, t) == 0,
        k == mix.vfos.len() ==> mix.heard(t) == 0,
    decreases k,
{
    if k > 0 {
        lemma_no_parts(mix, (k - 1) as nat, t);
        assert(mix.part(k - 1, t) == 0);
    }
    crate::units::lemma_nearest_multiple(0, MIX_ONE * ONE);
}

/// What is counted as audible are the channels that are marked so.
proof fn lemma_audible_filter(statuses: Seq<VfoStatus>)
    ensures
        audible_count(statuses) == statuses.filter(|s: VfoStatus| s.audible).len(),
    decreases statuses.len(),
{
    reveal(Seq::filter);
    if statuses.len() > 0 {
        lemma_audible_filter(statuses.drop_last());
    }
}

/// Every audible channel moves to its own gain, shared out equally among those that are
/// audible; one that is not audible moves to nothing.
pub proof fn audible_channels_share_equally(mix: Mix, i: int)
    requires
        0 <= i < mix.statuses.len(),
    ensures
        ({
            let n = mix.statuses.filter(|s: VfoStatus| s.audible).len();
            let share = mix.target(i);
            &&& mix.statuses[i].audible ==> n >= 1 && n * share <= mix.vfos[i].gain * 840 < n
                * share + n
            &&& !mix.statuses[i].audible ==> share == 0
        }),
{
    let n = mix.statuses.filter(|s: VfoStatus| s.audible).len() as int;
    lemma_audible_filter(mix.statuses);
    if mix.statuses[i].audible {
        lemma_counts_each(mix.statuses, i);
        let g = mix.vfos[i].gain * 840;
        vstd::arithmetic::div_mod::lemma_fundamental_div_mod(g, n);
        vstd::arithmetic::div_mod::lemma_mod_bound(g, n);
    }
}

proof fn lemma_counts_each(statuses: Seq<VfoStatus>, i: int)
    requires
        0 <= i < statuses.len(),
        statuses[i].audible,
    ensures
        audible_count(statuses) >= 1,
    decreases statuses.len(),
{
    lemma_audible_count(statuses.drop_last());
    if i < statuses.len() - 1 {
        lemma_counts_each(statuses.drop_last(), i);
    }
}

/// A gain moves towards its target by 3 500 000 parts of 840 000 000 with every sample, up
/// or down, until it is there.
pub proof fn gains_move_steadily(mix: Mix, i: int, n: nat)
    ensures
        ({
            let (from, to) = (mix.gains[i] as int, mix.target(i));
            &&& mix.gain(i, 0) == from
            &&& from + 3_500_000 * n <= to ==> mix.gain(i, n) == from + 3_500_000 * n
            &&& from <= to <= from + 3_500_000 * n ==> mix.gain(i, n) == to
            &&& from - 3_500_000 * n >= to ==> mix.gain(i, n) == from - 3_500_000 * n
            &&& from - 3_500_000 * n <= to <= from ==> mix.gain(i, n) == to
        }),
{
    lemma_ramp(mix.gains[i] as int, mix.target(i), n);
}

/// A channel that is not audible goes quiet: its gain only comes down, is nothing from the
/// sample 240 on where it was at most full, and once it is nothing the channel adds
/// nothing, whatever its audio.
pub proof fn channels_that_are_not_audible_go_quiet(mix: Mix, i: int, n: nat, t: int)
    requires
        0 <= i < mix.statuses.len(),
        !mix.statuses[i].audible,
        t >= 0,
    ensures
        mix.gains[i] >= 0 ==> 0 <= mix.gain(i, n) <= mix.gains[i],
        0 <= mix.gains[i] <= 840_000_000 && n >= 240 ==> mix.gain(i, n) == 0,
        mix.gains[i] == 0 ==> mix.gain(i, n) == 0,
        mix.gains[i] == 0 ==> mix.part(i, t) == 0,
        0 <= mix.gains[i] <= 840_000_000 && t >= 239 ==> mix.part(i, t) == 0,
{
    lemma_ramp(mix.gains[i] as int, 0, n);
    lemma_ramp(mix.gains[i] as int, 0, (t + 1) as nat);
    let s = channel_sample(mix.statuses[i], mix.audio[i]@, t);
    assert(s * 0 * mix.master_gain == 0) by (nonlinear_arith);
}

/// Channels that add the same give the same sum.
proof fn lemma_same_sums(a: Mix, b: Mix, k: nat, t: int)
    requires
        forall|i: int| 0 <= i < k ==> #[trigger] a.part(i, t) == b.part(i, t),
    ensures
        a.sum(k, t) == b.sum(k, t),
    decreases k,
{
    if k > 0 {
        lemma_same_sums(a, b, (k - 1) as nat, t);
        assert(a.part(k - 1, t) == b.part(k - 1, t));
    }
}

/// What is heard does not depend on the audio of a channel outside the band, nor on that of
/// one that is not audible and whose gain is down.
pub proof fn silent_channels_are_not_heard(a: Mix, b: Mix, i: int, t: int)
    requires
        0 <= t < BLOCK_AUDIO,
        0 <= i < a.vfos.len(),
        a.vfos.len() == a.statuses.len(),
        !a.statuses[i].in_band || !a.statuses[i].audible && a.gains[i] == 0,
        b.vfos == a.vfos,
        b.statuses == a.statuses,
        b.gains == a.gains,
        b.master_gain == a.master_gain,
        forall|j: int|
            0 <= j < a.vfos.len() && j != i ==> (#[trigger] a.audio[j])@ == b.audio[j]@,
    ensures
        a.heard(t) == b.heard(t),
{
    assert forall|j: int| 0 <= j < a.vfos.len() implies #[trigger] a.part(j, t) == b.part(j, t) by {
        assert(a.target(j) == b.target(j));
        if j != i {
            assert(a.audio[j]@ == b.audio[j]@);
        } else if a.statuses[i].in_band {
            channels_that_are_not_audible_go_quiet(a, i, 0, t);
            channels_that_are_not_audible_go_quiet(b, i, 0, t);
        }
    }
    lemma_same_sums(a, b, a.vfos.len(), t);
}

/// A sum in which only the channel `i` adds.
proof fn lemma_alone(mix: Mix, i: int, k: nat, t: int)
    requires
        0 <= i,
        forall|j: int| 0 <= j < k && j != i ==> #[trigger] mix.part(j, t) == 0,
    ensures
        mix.sum(k, t) == (if i < k {
            mix.part(i, t)
        } else {
            0
        }),
    decreases k,
{
    if k > 0 {
        lemma_alone(mix, i, (k - 1) as nat, t);
        if k - 1 != i {
            assert(mix.part(k - 1, t) == 0);
        }
    }
}

/// The bounds that rounding and the ceiling leave for what is heard of a sum.
proof fn lemma_heard(sum: int, heard: int)
    requires
        heard == clamped(nearest(sum, MIX_ONE * ONE), -(CEILING as int), CEILING as int),
    ensures
        -95_000_000 <= heard <= 95_000_000,
        heard > -95_000_000 ==> 2 * (heard * 840_000_000_000_000) <= 2 * sum + 840_000_000_000_000,
        heard < 95_000_000 ==> 2 * sum - 840_000_000_000_000 < 2 * (heard * 840_000_000_000_000),
{
    let one = MIX_ONE * ONE;
    assert(one == 840_000_000_000_000) by (nonlinear_arith)
        requires
            one == MIX_ONE * ONE,
            MIX_ONE == 840_000_000,
            ONE == 1_000_000,
    ;
    let n = nearest(sum, one);
    crate::units::lemma_nearest_bounds(sum, one);
    assert(2 * one * n == 1_680_000_000_000_000 * n) by (nonlinear_arith)
        requires
            one == 840_000_000_000_000,
    ;
}

/// A channel in the band to which no other adds, because it lies outside the band, is not
/// audible and has come down, or is silent at that sample, is heard as its sample times its
/// gain at that sample times the general volume, rounded to the nearest, and cut where that
/// is louder than 95 hundredths of full scale.
pub proof fn lone_channel_is_heard_at_its_gain(mix: Mix, i: int, t: int)
    requires
        0 <= t < BLOCK_AUDIO,
        0 <= i < mix.vfos.len(),
        mix.statuses.len() == mix.vfos.len(),
        mix.statuses[i].in_band,
        forall|j: int|
            0 <= j < mix.vfos.len() && j != i ==> {
                ||| !(#[trigger] mix.statuses[j]).in_band
                ||| !mix.statuses[j].audible && mix.gains[j] == 0
                ||| mix.audio[j]@[t] == 0
            },
    ensures
        ({
            let heard = mix.heard(t);
            let exact = mix.audio[i]@[t] * mix.gain(i, (t + 1) as nat) * mix.master_gain;
            &&& -95_000_000 <= heard <= 95_000_000
            &&& heard > -95_000_000 ==> 2 * (heard * 840_000_000_000_000) <= 2 * exact
                + 840_000_000_000_000
            &&& heard < 95_000_000 ==> 2 * exact - 840_000_000_000_000 < 2 * (heard
                * 840_000_000_000_000)
        }),
{
    assert forall|j: int| 0 <= j < mix.vfos.len() && j != i implies #[trigger] mix.part(j, t)
        == 0 by {
        if mix.statuses[j].in_band && mix.audio[j]@[t] != 0 {
            channels_that_are_not_audible_go_quiet(mix, j, 0, t);
        } else {
            let g = mix.gain(j, (t + 1) as nat);
            assert(0 * g * mix.master_gain == 0) by (nonlinear_arith);
        }
    }
    lemma_alone(mix, i, mix.vfos.len(), t);
    lemma_heard(mix.sum(mix.vfos.len(), t), mix.heard(t));
}

proof fn lemma_sums_add(a: Mix, b: Mix, c: Mix, k: nat, t: int)
    requires
        forall|i: int| 0 <= i < k ==> #[trigger] c.part(i, t) == a.part(i, t) + b.part(i, t),
    ensures
        c.sum(k, t) == a.sum(k, t) + b.sum(k, t),
    decreases k,
{
    if k > 0 {
        lemma_sums_add(a, b, c, (k - 1) as nat, t);
        assert(c.part(k - 1, t) == a.part(k - 1, t) + b.part(k - 1, t));
    }
}

/// Channels are added up: where nothing is cut, what is heard of the sum of two audios is
/// the sum of what is heard of each, but for the rounding.
pub proof fn audio_adds_up(a: Mix, b: Mix, c: Mix, t: int)
    requires
        0 <= t < BLOCK_AUDIO,
        b.vfos == a.vfos && c.vfos == a.vfos,
        b.statuses == a.statuses && c.statuses == a.statuses,
        b.gains == a.gains && c.gains == a.gains,
        b.master_gain == a.master_gain && c.master_gain == a.master_gain,
        forall|i: int|
            0 <= i < a.vfos.len() && (#[trigger] a.statuses[i]).in_band ==> c.audio[i]@[t]
                == a.audio[i]@[t] + b.audio[i]@[t],
        -95_000_000 < a.heard(t) < 95_000_000,
        -95_000_000 < b.heard(t) < 95_000_000,
        -95_000_000 < c.heard(t) < 95_000_000,
    ensures
        -1 <= c.heard(t) - a.heard(t) - b.heard(t) <= 1,
{
    assert forall|i: int| 0 <= i < a.vfos.len() implies #[trigger] c.part(i, t) == a.part(i, t)
        + b.part(i, t) by {
        let (x, y, g, m) = (
            channel_sample(a.statuses[i], a.audio[i]@, t),
            channel_sample(b.statuses[i], b.audio[i]@, t),
            a.gain(i, (t + 1) as nat),
            a.master_gain,
        );
        assert(a.statuses[i].in_band ==> c.audio[i]@[t] == a.audio[i]@[t] + b.audio[i]@[t]);
        assert(b.target(i) == a.target(i) && c.target(i) == a.target(i));
        assert((x + y) * g * m == x * g * m + y * g * m) by (nonlinear_arith);
    }
    lemma_sums_add(a, b, c, a.vfos.len(), t);
    lemma_heard(a.sum(a.vfos.len(), t), a.heard(t));
    lemma_heard(b.sum(a.vfos.len(), t), b.heard(t));
    lemma_heard(c.sum(a.vfos.len(), t), c.heard(t));
}

/// What the first `k` channels add, one after another.
proof fn lemma_sum_folds(mix: Mix, k: nat, t: int)
    ensures
        mix.sum(k, t) == Seq::new(
            k,
            |i: int|
                (if mix.statuses[i].in_band {
                    mix.audio[i]@[t] as int
                } else {
                    0
                }) * mix.gain(i, (t + 1) as nat) * mix.master_gain,
        ).fold_left(0int, |sum: int, part: int| sum + part),
    decreases k,
{
    let part = |i: int|
        (if mix.statuses[i].in_band {
            mix.audio[i]@[t] as int
        } else {
            0
        }) * mix.gain(i, (t + 1) as nat) * mix.master_gain;
    let plus = |sum: int, part: int| sum + part;
    let parts = Seq::new(k, part);
    reveal(Seq::fold_left);
    if k > 0 {
        let m = (k - 1) as nat;
        lemma_sum_folds(mix, m, t);
        assert(parts.drop_last() =~= Seq::new(m, part));
        assert(parts.last() == mix.part(m as int, t));
        assert(parts.fold_left(0, plus) == plus(parts.drop_last().fold_left(0, plus), parts.last()));
    }
}

/// All channels in the band are added up before anything is cut: what is heard is the sum of
/// their samples, each times its gain at that sample, times the general volume, rounded to
/// the nearest; only that sum is cut, at 95 hundredths of full scale.
pub proof fn only_the_sum_is_cut(mix: Mix, t: int)
    ensures
        ({
            let heard = mix.heard(t);
            let exact = Seq::new(
                mix.vfos.len(),
                |i: int|
                    (if mix.statuses[i].in_band {
                        mix.audio[i]@[t] as int
                    } else {
                        0
                    }) * mix.gain(i, (t + 1) as nat) * mix.master_gain,
            ).fold_left(0int, |sum: int, part: int| sum + part);
            &&& -95_000_000 <= heard <= 95_000_000
            &&& heard > -95_000_000 ==> 2 * (heard * 840_000_000_000_000) <= 2 * exact
                + 840_000_000_000_000
            &&& heard < 95_000_000 ==> 2 * exact - 840_000_000_000_000 < 2 * (heard
                * 840_000_000_000_000)
        }),
{
    lemma_sum_folds(mix, mix.vfos.len(), t);
    lemma_heard(mix.sum(mix.vfos.len(), t), mix.heard(t));
}

} // verus!
