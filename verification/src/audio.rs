//! From the queue of mono samples to the frames of the sound card, without any wait,
//! lock or allocation.

use crate::channel::Tap;
use crate::decimal::{decimal, push_decimal};
use crate::model::AUDIO_RATE;
use crate::units::{nearest, round_div};
use vstd::prelude::*;
use vstd::string::StringExecFns;

verus! {

/// Samples that wait for the sound card at most, a tenth of a second.
pub const AUDIO_QUEUE: usize = 4_800;

/// The text for an output: its name, or a general one, and its rate.
pub open spec fn output_text(name: Option<Seq<char>>, rate: nat) -> Seq<char> {
    (match name {
        Some(n) => n,
        None => "Sortie système"@,
    }) + " · "@ + decimal(rate) + " Hz"@
}

/// The text for an output.
pub fn describe_output(name: Option<&str>, rate: u32) -> (r: String)
    ensures
        r@ == output_text(
            match name {
                Some(n) => Some(n@),
                None => None,
            },
            rate as nat,
        ),
{
    let mut r: String = match name {
        Some(n) => n.to_owned(),
        None => "Sortie système".to_owned(),
    };
    r.append(" · ");
    push_decimal(&mut r, rate as u64);
    r.append(" Hz");
    r
}

/// Adapts the rate of the samples to that of the sound card: what is heard lies on
/// the line between the last two samples.
#[derive(Clone, Copy, Debug, PartialEq, Eq, Structural)]
pub struct Resampler {
    /// Frames per second of the sound card.
    pub rate: u32,
    /// How far the frame lies behind the left sample, in parts of the rate.
    pub phase: u32,
    pub left: i32,
    pub right: i32,
}

/// The value at `phase / rate` of the way from `left` to `right`.
pub open spec fn between(left: int, right: int, phase: int, rate: int) -> int {
    left + nearest((right - left) * phase, rate)
}

/// The resampler after it took a sample, or silence where there was none.
pub open spec fn pulled(r: Resampler, sample: Option<i32>) -> Resampler {
    Resampler {
        left: r.right,
        right: match sample {
            Some(x) => x,
            None => 0,
        },
        ..r
    }
}

/// The resampler after it took some samples.
pub open spec fn pulled_all(r: Resampler, samples: Seq<Option<i32>>) -> Resampler
    decreases samples.len(),
{
    if samples.len() == 0 {
        r
    } else {
        pulled(pulled_all(r, samples.drop_last()), samples.last())
    }
}

/// How many samples were not there.
pub open spec fn missing(samples: Seq<Option<i32>>) -> int
    decreases samples.len(),
{
    if samples.len() == 0 {
        0
    } else {
        missing(samples.drop_last()) + (if samples.last() is None {
            1int
        } else {
            0
        })
    }
}

impl Resampler {
    pub open spec fn wf(self) -> bool {
        self.phase < self.rate
    }

    /// How many samples are due behind a frame.
    pub open spec fn due(self) -> int {
        (self.phase + AUDIO_RATE) / (self.rate as int)
    }

    /// The resampler with the phase of the next frame.
    pub open spec fn moved(self) -> Resampler {
        Resampler { phase: ((self.phase + AUDIO_RATE) % (self.rate as int)) as u32, ..self }
    }

    /// What is heard in a frame.
    pub open spec fn spec_sample(self) -> int {
        between(self.left as int, self.right as int, self.phase as int, self.rate as int)
    }

    /// Starts with silence.
    pub fn new(rate: u32) -> (r: Self)
        requires
            rate > 0,
        ensures
            r == (Resampler { rate, phase: 0, left: 0, right: 0 }),
            r.wf(),
    {
        Resampler { rate, phase: 0, left: 0, right: 0 }
    }

    /// What is heard in a frame.
    pub fn sample(&self) -> (r: i32)
        requires
            self.wf(),
        ensures
            r == self.spec_sample(),
    {
        let gap: i128 = self.right as i128 - self.left as i128;
        proof {
            interpolation_stays_between(
                self.left as int,
                self.right as int,
                self.phase as int,
                self.rate as int,
            );
            assert(-0x2_0000_0000_0000_0000 <= gap * self.phase <= 0x2_0000_0000_0000_0000)
                by (nonlinear_arith)
                requires
                    -0x1_0000_0000 <= gap <= 0x1_0000_0000,
                    0 <= self.phase <= 0xffff_ffff,
            ;
        }
        (self.left as i128 + round_div(gap * self.phase as i128, self.rate as i128)) as i32
    }

    /// Moves on to the next frame: how many samples are to be taken for it.
    pub fn advance(&mut self) -> (n: u32)
        requires
            old(self).wf(),
        ensures
            *final(self) == old(self).moved(),
            final(self).wf(),
            n == old(self).due(),
    {
        let sum: u64 = self.phase as u64 + AUDIO_RATE as u64;
        let rate: u64 = self.rate as u64;
        proof {
            let (s, r) = (sum as int, rate as int);
            vstd::arithmetic::div_mod::lemma_fundamental_div_mod(s, r);
            assert(s / r <= 48_000) by (nonlinear_arith)
                requires
                    s == r * (s / r) + s % r,
                    s < r + 48_000,
                    r >= 1,
                    s % r >= 0,
            ;
        }
        self.phase = (sum % rate) as u32;
        (sum / rate) as u32
    }

    /// Takes a sample; true where there was none.
    pub fn pull(&mut self, sample: Option<i32>) -> (absent: bool)
        ensures
            *final(self) == pulled(*old(self), sample),
            absent == (sample is None),
    {
        self.left = self.right;
        match sample {
            Some(x) => {
                self.right = x;
                false
            },
            None => {
                self.right = 0;
                true
            },
        }
    }

    /// Gives the sample of a frame and takes what is due behind it out of the queue.
    /// What is found there rests on the other threads; whatever it was, as many
    /// samples are taken as are due, and those that were not there are counted.
    pub fn frame(&mut self, tap: &mut Tap<i32>) -> (r: (i32, u32))
        requires
            old(self).wf(),
        ensures
            final(self).wf(),
            r.0 == old(self).spec_sample(),
            ({
                let found = final(tap).found().skip(old(tap).found().len() as int);
                &&& final(tap).found() == old(tap).found() + found
                &&& found.len() == old(self).due()
                &&& *final(self) == pulled_all(old(self).moved(), found)
                &&& r.1 == missing(found)
            }),
    {
        let heard: i32 = self.sample();
        let n: u32 = self.advance();
        let ghost start = *self;
        let ghost before = tap.found();
        let ghost mut found: Seq<Option<i32>> = Seq::empty();
        let mut absent: u32 = 0;
        let mut i: u32 = 0;
        assert(before =~= before + found);
        while i < n
            invariant
                i <= n,
                absent <= i,
                found.len() == i,
                tap.found() == before + found,
                start.wf(),
                self.rate == start.rate,
                self.phase == start.phase,
                *self == pulled_all(start, found),
                absent == missing(found),
            decreases n - i,
        {
            let sample: Option<i32> = tap.pop();
            proof {
                let next = found.push(sample);
                assert(next.drop_last() =~= found);
                assert(tap.found() =~= before + next);
                found = next;
            }
            if self.pull(sample) {
                absent = absent + 1;
            }
            i += 1;
        }
        assert(tap.found().skip(before.len() as int) =~= found);
        (heard, absent)
    }
}

/// What is heard lies between the two samples.
pub proof fn interpolation_stays_between(left: int, right: int, phase: int, rate: int)
    requires
        0 <= phase < rate,
    ensures
        left <= right ==> left <= between(left, right, phase, rate) <= right,
        right <= left ==> right <= between(left, right, phase, rate) <= left,
{
    let gap = right - left;
    let q = nearest(gap * phase, rate);
    crate::units::lemma_nearest_bounds(gap * phase, rate);
    if gap >= 0 {
        assert(0 <= q <= gap) by (nonlinear_arith)
            requires
                2 * (gap * phase) - rate < 2 * rate * q <= 2 * (gap * phase) + rate,
                0 <= phase < rate,
                gap >= 0,
        ;
    } else {
        assert(gap <= q <= 0) by (nonlinear_arith)
            requires
                2 * (gap * phase) - rate < 2 * rate * q <= 2 * (gap * phase) + rate,
                0 <= phase < rate,
                gap < 0,
        ;
    }
}

/// The phase after `n` frames.
pub open spec fn phase_after(phase: int, rate: int, n: nat) -> int
    decreases n,
{
    if n == 0 {
        phase
    } else {
        (phase_after(phase, rate, (n - 1) as nat) + AUDIO_RATE) % rate
    }
}

/// How many samples were taken for `n` frames.
pub open spec fn taken_after(phase: int, rate: int, n: nat) -> int
    decreases n,
{
    if n == 0 {
        0
    } else {
        taken_after(phase, rate, (n - 1) as nat) + (phase_after(phase, rate, (n - 1) as nat)
            + AUDIO_RATE) / rate
    }
}

/// The sound card gets every sample once, at its own pace: for `n` frames exactly
/// those samples are taken that belong to them, with no drift.
pub proof fn resampling_does_not_drift(rate: int, n: nat)
    requires
        rate > 0,
    ensures
        taken_after(0, rate, n) == n * AUDIO_RATE / rate,
        phase_after(0, rate, n) == n * AUDIO_RATE % rate,
    decreases n,
{
    if n == 0 {
        assert(0int / rate == 0 && 0int % rate == 0) by (nonlinear_arith)
            requires
                rate > 0,
        ;
    } else {
        let m = (n - 1) as nat;
        resampling_does_not_drift(rate, m);
        let before = m * AUDIO_RATE;
        let (q, p) = (before / rate, before % rate);
        vstd::arithmetic::div_mod::lemma_fundamental_div_mod(before, rate);
        let sum = p + AUDIO_RATE;
        vstd::arithmetic::div_mod::lemma_fundamental_div_mod(sum, rate);
        vstd::arithmetic::div_mod::lemma_mod_bound(sum, rate);
        assert((q + sum / rate) * rate + sum % rate == n * AUDIO_RATE) by (nonlinear_arith)
            requires
                before == rate * q + p,
                sum == p + AUDIO_RATE,
                sum == rate * (sum / rate) + sum % rate,
                n * AUDIO_RATE == before + AUDIO_RATE,
        ;
        vstd::arithmetic::div_mod::lemma_fundamental_div_mod_converse(
            n * AUDIO_RATE,
            rate,
            q + sum / rate,
            sum % rate,
        );
    }
}

/// A sample, or silence where there was none.
pub open spec fn filled(sample: Option<i32>) -> i32 {
    match sample {
        Some(x) => x,
        None => 0,
    }
}

/// The samples that were taken for the first `k` frames, silence where there was none.
/// Two samples of silence come before them.
pub open spec fn stream(found: Seq<Seq<Option<i32>>>, k: nat) -> Seq<i32>
    decreases k,
{
    if k == 0 {
        seq![0i32, 0i32]
    } else {
        stream(found, (k - 1) as nat) + found[k - 1].map_values(|x: Option<i32>| filled(x))
    }
}

/// The value at the position `place / rate` of a stream: on the line between the two
/// samples around it.
pub open spec fn interpolated(stream: Seq<i32>, place: int, rate: int) -> int {
    between(
        stream[place / rate] as int,
        stream[place / rate + 1] as int,
        place % rate,
        rate,
    )
}

/// Whether `frames` are the states of a resampler from its start on, and `found` what it
/// took behind each frame.
pub open spec fn plays(rate: u32, frames: Seq<Resampler>, found: Seq<Seq<Option<i32>>>) -> bool {
    &&& rate > 0
    &&& frames.len() == found.len() + 1
    &&& frames[0] == (Resampler { rate, phase: 0, left: 0, right: 0 })
    &&& forall|k: int|
        0 <= k < found.len() ==> (#[trigger] found[k]).len() == frames[k].due() && frames[k + 1]
            == pulled_all(frames[k].moved(), found[k])
}

proof fn lemma_pulled_all(r: Resampler, xs: Seq<Option<i32>>)
    ensures
        ({
            let after = pulled_all(r, xs);
            let s = seq![r.left, r.right] + xs.map_values(|x: Option<i32>| filled(x));
            &&& after.rate == r.rate
            &&& after.phase == r.phase
            &&& after.left == s[s.len() - 2]
            &&& after.right == s[s.len() - 1]
        }),
    decreases xs.len(),
{
    if xs.len() > 0 {
        lemma_pulled_all(r, xs.drop_last());
        let s = seq![r.left, r.right] + xs.map_values(|x: Option<i32>| filled(x));
        let t = seq![r.left, r.right] + xs.drop_last().map_values(|x: Option<i32>| filled(x));
        assert(s =~= t.push(filled(xs.last())));
    }
}

proof fn lemma_plays(rate: u32, frames: Seq<Resampler>, found: Seq<Seq<Option<i32>>>, k: nat)
    requires
        plays(rate, frames, found),
        k < frames.len(),
    ensures
        ({
            let s = stream(found, k);
            &&& s.len() == taken_after(0, rate as int, k) + 2
            &&& s.len() >= 2
            &&& frames[k as int].rate == rate
            &&& frames[k as int].phase == phase_after(0, rate as int, k)
            &&& frames[k as int].left == s[s.len() - 2]
            &&& frames[k as int].right == s[s.len() - 1]
        }),
    decreases k,
{
    if k > 0 {
        let m = (k - 1) as nat;
        lemma_plays(rate, frames, found, m);
        let r = frames[m as int];
        let xs = found[m as int];
        assert(xs.len() == r.due());
        lemma_pulled_all(r.moved(), xs);
        let s = stream(found, m);
        let values = xs.map_values(|x: Option<i32>| filled(x));
        let two = seq![r.left, r.right] + values;
        let all = s + values;
        assert(all[all.len() - 1] == two[two.len() - 1]) by {
            if values.len() == 0 {
                assert(two[1] == r.right);
            }
        }
        assert(all[all.len() - 2] == two[two.len() - 2]) by {
            if values.len() == 0 {
                assert(two[0] == r.left);
            } else if values.len() == 1 {
                assert(two[1] == r.right);
            }
        }
        vstd::arithmetic::div_mod::lemma_mod_bound(r.phase + AUDIO_RATE, rate as int);
    }
}

proof fn lemma_stream_grows(found: Seq<Seq<Option<i32>>>, k: nat, n: nat)
    requires
        k <= n,
    ensures
        stream(found, k).len() <= stream(found, n).len(),
        forall|i: int|
            0 <= i < stream(found, k).len() ==> stream(found, k)[i] == stream(found, n)[i],
    decreases n,
{
    if k < n {
        lemma_stream_grows(found, k, (n - 1) as nat);
    }
}

/// Frame `k` of the sound card hears the stream of samples at the position
/// `k * 48000 / rate`, on the line between the two samples around it.
pub proof fn frames_interpolate_the_stream(
    rate: u32,
    frames: Seq<Resampler>,
    found: Seq<Seq<Option<i32>>>,
    k: nat,
)
    requires
        plays(rate, frames, found),
        k < frames.len(),
    ensures
        frames[k as int].spec_sample() == interpolated(
            stream(found, found.len()),
            k * AUDIO_RATE,
            rate as int,
        ),
        0 <= k * AUDIO_RATE / (rate as int),
        k * AUDIO_RATE / (rate as int) + 1 < stream(found, found.len()).len(),
{
    lemma_plays(rate, frames, found, k);
    lemma_stream_grows(found, k, found.len());
    resampling_does_not_drift(rate as int, k);
    assert(0 <= k * AUDIO_RATE / (rate as int)) by (nonlinear_arith)
        requires
            rate > 0,
            k >= 0,
    ;
}

/// A sound card of the same rate hears every sample unchanged.
pub proof fn same_rate_is_unchanged(r: Resampler, sample: Option<i32>)
    requires
        r.rate == AUDIO_RATE,
        r.phase == 0,
    ensures
        r.spec_sample() == r.left,
        r.due() == 1,
        pulled(r.moved(), sample).phase == 0,
        pulled(r.moved(), sample).left == r.right,
{
    assert((r.right - r.left) * 0 == 0) by (nonlinear_arith);
    crate::units::lemma_nearest_multiple(0, AUDIO_RATE as int);
}

/// The stream is silence for two samples and then every sample that was found, once and in
/// its order, with silence in place of one that was not there.
pub proof fn stream_holds_every_sample_once(found: Seq<Seq<Option<i32>>>)
    ensures
        stream(found, found.len()) == seq![0i32, 0i32] + found.flatten().map_values(
            |x: Option<i32>| match x {
                Some(v) => v,
                None => 0,
            },
        ),
{
    lemma_stream_flat(found, found.len());
    assert(found.take(found.len() as int) =~= found);
}

proof fn lemma_stream_flat(found: Seq<Seq<Option<i32>>>, k: nat)
    requires
        k <= found.len(),
    ensures
        stream(found, k) == seq![0i32, 0i32] + found.take(k as int).flatten().map_values(
            |x: Option<i32>| match x {
                Some(v) => v,
                None => 0,
            },
        ),
    decreases k,
{
    let value = |x: Option<i32>| match x {
        Some(v) => v,
        None => 0,
    };
    let rows = found.take(k as int);
    rows.lemma_flatten_and_flatten_alt_are_equivalent();
    if k == 0 {
        assert(rows.flatten() =~= Seq::empty());
        assert(stream(found, k) =~= seq![0i32, 0i32] + rows.flatten().map_values(value));
    } else {
        let m = (k - 1) as nat;
        lemma_stream_flat(found, m);
        let before = found.take(m as int);
        assert(rows.drop_last() =~= before);
        before.lemma_flatten_and_flatten_alt_are_equivalent();
        assert(rows.flatten() == before.flatten() + found[m as int]);
        assert(stream(found, k) =~= seq![0i32, 0i32] + rows.flatten().map_values(value));
    }
}

/// What is counted as missing are the samples that were not there.
pub proof fn every_missing_sample_is_counted(samples: Seq<Option<i32>>)
    ensures
        missing(samples) == samples.filter(|x: Option<i32>| x is None).len(),
    decreases samples.len(),
{
    reveal(Seq::filter);
    if samples.len() > 0 {
        every_missing_sample_is_counted(samples.drop_last());
    }
}

/// Frame `k` lies on the line between the samples `q` and `q + 1` of the stream around the
/// time `k * 48000 / rate`, within half a unit.
pub proof fn frames_lie_on_the_line_between_samples(
    rate: u32,
    frames: Seq<Resampler>,
    found: Seq<Seq<Option<i32>>>,
    k: nat,
    q: int,
)
    requires
        plays(rate, frames, found),
        k < frames.len(),
        q * rate <= k * 48_000 < q * rate + rate,
    ensures
        ({
            let s = stream(found, found.len());
            let x = frames[k as int].spec_sample();
            let off = rate * (x - s[q]) - (s[q + 1] - s[q]) * (k * 48_000 - q * rate);
            &&& 0 <= q && q + 1 < s.len()
            &&& -rate < 2 * off <= rate
        }),
{
    frames_interpolate_the_stream(rate, frames, found, k);
    let (place, d) = ((k * 48_000) as int, rate as int);
    vstd::arithmetic::div_mod::lemma_fundamental_div_mod_converse(place, d, q, place - q * d);
    let s = stream(found, found.len());
    let gap = s[q + 1] - s[q];
    let phase = place - q * d;
    crate::units::lemma_nearest_bounds(gap * phase, d);
    let n = nearest(gap * phase, d);
    assert(2 * d * n == 2 * (d * n)) by (nonlinear_arith);
}

/// An output is told by its name first, or a general one, and then by its rate in digits.
pub proof fn outputs_are_told_by_name_and_rate(name: Option<Seq<char>>, rate: nat)
    ensures
        ({
            let text = output_text(name, rate);
            let first = match name {
                Some(n) => n,
                None => "Sortie système"@,
            };
            let digits = decimal(rate);
            let from = first.len() + 3;
            &&& text.take(first.len() as int) == first
            &&& text.len() == from + digits.len() + 3
            &&& text.subrange(from as int, (from + digits.len()) as int) == digits
            &&& crate::decimal::digits_value(digits) == rate
        }),
{
    reveal_strlit(" · ");
    reveal_strlit(" Hz");
    let text = output_text(name, rate);
    let first = match name {
        Some(n) => n,
        None => "Sortie système"@,
    };
    let digits = decimal(rate);
    let from = first.len() + 3;
    crate::decimal::lemma_decimal_reads_back(rate);
    assert(text.take(first.len() as int) =~= first);
    assert(text.subrange(from as int, (from + digits.len()) as int) =~= digits);
}

} // verus!
