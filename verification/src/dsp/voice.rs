//! Cutting the audio of a channel into the frames of the voice filter, and putting
//! the filtered frames back into the stream.

use crate::units::{clamped, nearest, round_div, FULL_SCALE, ONE};
use std::collections::VecDeque;
use vstd::prelude::*;

verus! {

/// Samples per frame of the voice filter.
pub const FRAME: usize = 480;

/// A stream of audio on its way through the voice filter.
pub struct VoiceDenoiser {
    /// The frame that is being filled.
    pub input: Vec<i32>,
    /// The frame before it, as it came in.
    pub previous_dry: Vec<i32>,
    /// Samples of the frame that are filled.
    pub filled: usize,
    /// What is to be heard next.
    pub output: VecDeque<i32>,
}

/// The stream as a mathematical value.
#[verifier::ext_equal]
pub struct VoiceView {
    pub input: Seq<i32>,
    pub previous_dry: Seq<i32>,
    pub filled: int,
    pub output: Seq<i32>,
}

/// A sample within full scale.
pub open spec fn dry(sample: int) -> int {
    clamped(sample, -FULL_SCALE as int, FULL_SCALE as int)
}

/// The share of the filtered voice: from none to all of it.
pub open spec fn wet(strength: int) -> int {
    clamped(strength, 0, ONE as int)
}

/// The original and the filtered sample, mixed.
pub open spec fn mixed(original: int, clean: int, strength: int) -> int {
    clamped(
        nearest(original * (ONE - wet(strength)) + clean * wet(strength), ONE as int),
        -FULL_SCALE as int,
        FULL_SCALE as int,
    )
}

impl VoiceView {
    /// What holds between two samples: the queue always has a sample to give, and
    /// all is within full scale.
    pub open spec fn wf(self) -> bool {
        &&& self.input.len() == FRAME
        &&& self.previous_dry.len() == FRAME
        &&& 0 <= self.filled <= FRAME
        &&& self.output.len() == FRAME - self.filled
        &&& within_full_scale(self.input)
        &&& within_full_scale(self.previous_dry)
        &&& within_full_scale(self.output)
    }

    /// The stream before the first sample: one frame of silence is to be heard.
    pub open spec fn start() -> VoiceView {
        VoiceView {
            input: silence(FRAME as nat),
            previous_dry: silence(FRAME as nat),
            filled: 0,
            output: silence(FRAME as nat),
        }
    }

    /// The stream after a sample came in and one was heard.
    pub open spec fn pushed(self, sample: int) -> VoiceView {
        VoiceView {
            input: self.input.update(self.filled, dry(sample) as i32),
            filled: self.filled + 1,
            output: self.output.skip(1),
            ..self
        }
    }

    /// The stream after the frame was filtered: the filter is late by one frame, so
    /// that its samples are mixed with those of the frame before.
    pub open spec fn finished(self, clean: Seq<i32>, strength: int) -> VoiceView {
        VoiceView {
            input: self.input,
            previous_dry: self.input,
            filled: 0,
            output: self.output + Seq::new(
                FRAME as nat,
                |i: int|
                    mixed(self.previous_dry[i] as int, clean[i] as int, strength) as i32,
            ),
        }
    }
}

/// `n` samples of silence.
pub open spec fn silence(n: nat) -> Seq<i32> {
    Seq::new(n, |i: int| 0i32)
}

pub open spec fn within_full_scale(s: Seq<i32>) -> bool {
    forall|i: int| 0 <= i < s.len() ==> -FULL_SCALE <= #[trigger] s[i] <= FULL_SCALE
}

impl View for VoiceDenoiser {
    type V = VoiceView;

    open spec fn view(&self) -> VoiceView {
        VoiceView {
            input: self.input@,
            previous_dry: self.previous_dry@,
            filled: self.filled as int,
            output: self.output@,
        }
    }
}

impl VoiceDenoiser {
    /// Whether a frame waits for the filter.
    pub fn ready(&self) -> (r: bool)
        ensures
            r == (self@.filled == FRAME),
    {
        self.filled == FRAME
    }

    /// Takes a sample in and gives the sample that is to be heard in its place.
    pub fn push(&mut self, sample: i32) -> (heard: i32)
        requires
            old(self)@.wf(),
            old(self)@.filled < FRAME,
        ensures
            final(self)@ == old(self)@.pushed(sample as int),
            final(self)@.wf(),
            heard == old(self)@.output[0],
            -FULL_SCALE <= heard <= FULL_SCALE,
    {
        let value: i32 = crate::units::clamp(
            sample as i128,
            -(FULL_SCALE as i128),
            FULL_SCALE as i128,
        ) as i32;
        let heard: i32 = match self.output.pop_front() {
            Some(x) => x,
            None => 0,
        };
        self.input.set(self.filled, value);
        self.filled = self.filled + 1;
        assert(self@ =~= old(self)@.pushed(sample as int));
        heard
    }

    /// Takes the filtered frame in.
    pub fn finish(&mut self, clean: &[i32], strength: i32)
        requires
            old(self)@.wf(),
            old(self)@.filled == FRAME,
            clean@.len() == FRAME,
        ensures
            final(self)@ == old(self)@.finished(clean@, strength as int),
            final(self)@.wf(),
    {
        let share: i128 = crate::units::clamp(strength as i128, 0, ONE as i128);
        let ghost before = self@;
        let ghost all = before.finished(clean@, strength as int).output;
        let mut i: usize = 0;
        while i < FRAME
            invariant
                i <= FRAME,
                clean@.len() == FRAME,
                share == wet(strength as int),
                before == old(self)@,
                before.wf(),
                before.filled == FRAME,
                all == before.finished(clean@, strength as int).output,
                self.input@ == before.input,
                self.previous_dry@ == before.previous_dry,
                self.output@ == all.take(i as int),
                within_full_scale(self.output@),
            decreases FRAME - i,
        {
            let p: i128 = self.previous_dry[i] as i128;
            let c: i128 = clean[i] as i128;
            let rest: i128 = ONE as i128 - share;
            proof {
                assert(-0x8000_0000_0000_0000 <= p * rest <= 0x8000_0000_0000_0000)
                    by (nonlinear_arith)
                    requires
                        -0x8000_0000 <= p <= 0x7fff_ffff,
                        0 <= rest <= 1_000_000,
                ;
                assert(-0x8000_0000_0000_0000 <= c * share <= 0x8000_0000_0000_0000)
                    by (nonlinear_arith)
                    requires
                        -0x8000_0000 <= c <= 0x7fff_ffff,
                        0 <= share <= 1_000_000,
                ;
            }
            let sum: i128 = p * rest + c * share;
            let value: i32 = crate::units::clamp(
                round_div(sum, ONE as i128),
                -(FULL_SCALE as i128),
                FULL_SCALE as i128,
            ) as i32;
            assert(value == mixed(before.previous_dry[i as int] as int, clean@[i as int] as int, strength as int));
            self.output.push_back(value);
            assert(all.take(i + 1) =~= all.take(i as int).push(value));
            i += 1;
        }
        assert(all.take(FRAME as int) =~= all);
        let copy: Vec<i32> = vstd::slice::slice_to_vec(self.input.as_slice());
        self.previous_dry = copy;
        self.filled = 0;
        assert(self@ =~= before.finished(clean@, strength as int));
    }

    /// The frames that a block fills, for the filter.
    pub fn frames(&self, audio: &[i32]) -> (r: Vec<Vec<i32>>)
        requires
            self@.wf(),
            self@.filled < FRAME,
        ensures
            row_views(r@) == full_frames(self@, audio@),
            r@.len() == frame_count(self@, audio@),
            forall|i: int| 0 <= i < r@.len() ==> (#[trigger] r@[i])@.len() == FRAME,
    {
        let ghost silent = |frames: Seq<Seq<i32>>| silence(FRAME as nat);
        let mut r: Vec<Vec<i32>> = Vec::new();
        let mut row: Vec<i32> = vstd::slice::slice_to_vec(self.input.as_slice());
        let mut filled: usize = self.filled;
        let mut i: usize = 0;
        let ghost mut s = from_here(self@);
        assert(audio@.take(0) =~= Seq::empty());
        assert(row_views(r@) =~= s.frames);
        while i < audio.len()
            invariant
                i <= audio@.len(),
                filled < FRAME,
                row@.len() == FRAME,
                s == after(from_here(self@), audio@.take(i as int), silent, 0),
                silent == |frames: Seq<Seq<i32>>| silence(FRAME as nat),
                s.voice.input == row@,
                s.voice.filled == filled,
                row_views(r@) == s.frames,
                forall|j: int| 0 <= j < r@.len() ==> (#[trigger] r@[j])@.len() == FRAME,
            decreases audio@.len() - i,
        {
            let value: i32 = crate::units::clamp(
                audio[i] as i128,
                -(FULL_SCALE as i128),
                FULL_SCALE as i128,
            ) as i32;
            row.set(filled, value);
            filled = filled + 1;
            let ghost next = s.voice.pushed(audio@[i as int] as int);
            assert(next.input =~= row@);
            proof {
                let xs = audio@.take(i + 1);
                assert(xs.drop_last() =~= audio@.take(i as int));
                assert(xs.last() == audio@[i as int]);
                s = after(from_here(self@), xs, silent, 0);
            }
            if filled == FRAME {
                let ghost last = r@;
                r.push(vstd::slice::slice_to_vec(row.as_slice()));
                filled = 0;
                assert(row_views(r@) =~= row_views(last).push(row@));
            }
            i += 1;
        }
        assert(audio@.take(i as int) =~= audio@);
        proof {
            lemma_frames(from_here(self@), audio@, silent, 0);
            assert(row_views(r@).len() == r@.len());
        }
        r
    }

    /// Sends a block through the filter: `clean` is what the filter gave for the frames
    /// that the block fills. Gives what is heard in place of the block.
    pub fn process(&mut self, audio: &[i32], clean: &[Vec<i32>], strength: i32) -> (heard_now: Vec<
        i32,
    >)
        requires
            old(self)@.wf(),
            old(self)@.filled < FRAME,
            clean@.len() == frame_count(old(self)@, audio@),
            forall|i: int| 0 <= i < clean@.len() ==> (#[trigger] clean@[i])@.len() == FRAME,
        ensures
            final(self)@.wf(),
            final(self)@.filled < FRAME,
            ({
                let s = from_here(old(self)@);
                let filter = giving(row_views(clean@));
                &&& final(self)@ == after(s, audio@, filter, strength as int).voice
                &&& heard_now@ == heard(s, audio@, filter, strength as int)
            }),
            heard_now@.len() == audio@.len(),
            within_full_scale(heard_now@),
    {
        let ghost start = from_here(self@);
        let ghost filter = giving(row_views(clean@));
        let ghost share = strength as int;
        let mut out: Vec<i32> = Vec::new();
        let mut k: usize = 0;
        let mut i: usize = 0;
        let ghost mut s = start;
        assert(audio@.take(0) =~= Seq::empty());
        while i < audio.len()
            invariant
                i <= audio@.len(),
                start.voice.wf(),
                start.voice.filled < FRAME,
                share == strength,
                filter == giving(row_views(clean@)),
                clean@.len() == frame_count(start.voice, audio@),
                forall|j: int| 0 <= j < clean@.len() ==> (#[trigger] clean@[j])@.len() == FRAME,
                s == after(start, audio@.take(i as int), filter, share),
                start.frames.len() == 0,
                self@ == s.voice,
                self@.wf(),
                self@.filled < FRAME,
                k == s.frames.len(),
                out@ == heard(start, audio@.take(i as int), filter, share),
            decreases audio@.len() - i,
        {
            let ghost xs = audio@.take(i + 1);
            let ghost last = s;
            let x: i32 = self.push(audio[i]);
            out.push(x);
            proof {
                assert(xs.drop_last() =~= audio@.take(i as int));
                assert(xs.last() == audio@[i as int]);
                s = after(start, xs, filter, share);
                assert(out@ =~= heard(start, xs, filter, share));
                lemma_frames(start, xs, filter, share);
                assert(frame_count(start.voice, xs) <= frame_count(start.voice, audio@));
                assert(s.frames.len() <= clean@.len());
            }
            if self.filled == FRAME {
                assert(s.frames == last.frames.push(self@.input));
                assert(row_views(clean@)[k as int] == clean@[k as int]@);
                self.finish(clean[k].as_slice(), strength);
                k = k + 1;
            }
            i += 1;
        }
        assert(audio@.take(i as int) =~= audio@);
        proof {
            voice_stays_within_full_scale(start, audio@, filter, share);
        }
        out
    }
}

impl Default for VoiceDenoiser {
    fn default() -> (r: Self)
        ensures
            r@ == VoiceView::start(),
            r@.wf(),
    {
        let input: Vec<i32> = vec![0i32; FRAME];
        let previous_dry: Vec<i32> = vec![0i32; FRAME];
        let mut output: VecDeque<i32> = VecDeque::new();
        let mut i: usize = 0;
        while i < FRAME
            invariant
                i <= FRAME,
                output@ == silence(i as nat),
            decreases FRAME - i,
        {
            output.push_back(0);
            assert(output@ =~= silence((i + 1) as nat));
            i += 1;
        }
        let r: VoiceDenoiser = VoiceDenoiser { input, previous_dry, filled: 0, output };
        assert(r@ =~= VoiceView::start());
        r
    }
}

/// The stream after one sample, where nothing of the filtered voice is heard,
/// whatever the filter gave.
pub open spec fn passed(v: VoiceView, sample: int, clean: Seq<i32>) -> VoiceView {
    let next = v.pushed(sample);
    if next.filled == FRAME {
        next.finished(clean, 0)
    } else {
        next
    }
}

/// The stream after `xs`, where nothing of the filtered voice is heard; `clean` is
/// what the filter gave for each frame.
pub open spec fn run_dry(xs: Seq<i32>, clean: spec_fn(int) -> Seq<i32>) -> VoiceView
    decreases xs.len(),
{
    if xs.len() == 0 {
        VoiceView::start()
    } else {
        passed(
            run_dry(xs.drop_last(), clean),
            xs.last() as int,
            clean((xs.len() - 1) as int / FRAME as int),
        )
    }
}

/// What is heard at place `i` of a stream that is late by two frames.
pub open spec fn late(xs: Seq<i32>, i: int) -> int {
    if i < 2 * FRAME {
        0
    } else {
        dry(xs[i - 2 * FRAME] as int)
    }
}

/// Where the stream stands after `xs`.
spec fn aligned(v: VoiceView, xs: Seq<i32>) -> bool {
    let n = xs.len() as int;
    &&& v.wf()
    &&& v.filled == n % (FRAME as int)
    &&& forall|j: int|
        0 <= j < v.filled ==> #[trigger] v.input[j] == dry(xs[n - v.filled + j] as int)
    &&& forall|j: int|
        0 <= j < FRAME ==> #[trigger] v.previous_dry[j] == (if n - v.filled >= FRAME {
            dry(xs[n - v.filled - FRAME + j] as int)
        } else {
            0
        })
    &&& forall|j: int| 0 <= j < v.output.len() ==> #[trigger] v.output[j] == late(xs, n + j)
}

proof fn lemma_mixed_dry(original: int, clean: int)
    requires
        -FULL_SCALE <= original <= FULL_SCALE,
    ensures
        mixed(original, clean, 0) == original,
{
    assert(clean * 0 == 0) by (nonlinear_arith);
    crate::units::lemma_nearest_multiple(original, ONE as int);
}

proof fn lemma_aligned(xs: Seq<i32>, clean: spec_fn(int) -> Seq<i32>)
    ensures
        aligned(run_dry(xs, clean), xs),
    decreases xs.len(),
{
    let n = xs.len() as int;
    if n == 0 {
        assert(aligned(VoiceView::start(), xs));
    } else {
        let ys = xs.drop_last();
        lemma_aligned(ys, clean);
        let v = run_dry(ys, clean);
        let next = v.pushed(xs.last() as int);
        let m = n - 1;
        let f = v.filled;
        assert(next.wf());
        assert forall|j: int| 0 <= j < f + 1 implies #[trigger] next.input[j] == dry(
            xs[m - f + j] as int,
        ) by {
            if j < f {
                assert(next.input[j] == v.input[j]);
                assert(ys[m - f + j] == xs[m - f + j]);
            }
        }
        assert forall|j: int| 0 <= j < FRAME implies #[trigger] next.previous_dry[j] == (if m - f
            >= FRAME {
            dry(xs[m - f - FRAME + j] as int)
        } else {
            0
        }) by {
            assert(next.previous_dry[j] == v.previous_dry[j]);
            if m - f >= FRAME {
                assert(ys[m - f - FRAME + j] == xs[m - f - FRAME + j]);
            }
        }
        assert forall|j: int| 0 <= j < next.output.len() implies #[trigger] next.output[j] == late(
            xs,
            n + j,
        ) by {
            assert(next.output[j] == v.output[j + 1]);
            if n + j >= 2 * FRAME {
                assert(ys[n + j - 2 * FRAME] == xs[n + j - 2 * FRAME]);
            }
        }
        if f + 1 == FRAME {
            let given = clean(m / FRAME as int);
            let done = next.finished(given, 0);
            assert(n % (FRAME as int) == 0);
            assert forall|j: int| 0 <= j < FRAME implies #[trigger] done.output[j] == late(
                xs,
                n + j,
            ) by {
                lemma_mixed_dry(next.previous_dry[j] as int, given[j] as int);
                assert(next.previous_dry[j] == (if m - f >= FRAME {
                    dry(xs[m - f - FRAME + j] as int)
                } else {
                    0
                }));
                assert(m - f == n - FRAME);
            }
            assert(aligned(done, xs));
        } else {
            assert(n % (FRAME as int) == f + 1);
            assert(aligned(next, xs));
        }
    }
}

/// Where nothing of the filtered voice is mixed in, the audio is heard as it came,
/// late by two frames, whatever the filter gave and however the samples were cut
/// into blocks; before that there is silence.
pub proof fn unfiltered_audio_is_only_late(xs: Seq<i32>, clean: spec_fn(int) -> Seq<i32>)
    ensures
        run_dry(xs, clean).wf(),
        run_dry(xs, clean).filled < FRAME,
        run_dry(xs, clean).output[0] == late(xs, xs.len() as int),
{
    lemma_aligned(xs, clean);
    assert(run_dry(xs, clean).output[0] == late(xs, xs.len() as int + 0));
}

/// A stream with the frames that the filter got so far: what the filter gives for a frame
/// depends on the frames before it too.
#[verifier::ext_equal]
pub struct Stream {
    pub voice: VoiceView,
    pub frames: Seq<Seq<i32>>,
}

/// A filter: what it gives for the last of the frames that it got.
pub type Filter = spec_fn(Seq<Seq<i32>>) -> Seq<i32>;

/// The stream after a sample came in; a frame that is full goes through the filter.
pub open spec fn step(s: Stream, sample: int, filter: Filter, strength: int) -> Stream {
    let next = s.voice.pushed(sample);
    if next.filled == FRAME {
        let frames = s.frames.push(next.input);
        Stream { voice: next.finished(filter(frames), strength), frames }
    } else {
        Stream { voice: next, frames: s.frames }
    }
}

/// The stream after the samples came in.
pub open spec fn after(s: Stream, xs: Seq<i32>, filter: Filter, strength: int) -> Stream
    decreases xs.len(),
{
    if xs.len() == 0 {
        s
    } else {
        step(after(s, xs.drop_last(), filter, strength), xs.last() as int, filter, strength)
    }
}

/// What is heard in place of the samples.
pub open spec fn heard(s: Stream, xs: Seq<i32>, filter: Filter, strength: int) -> Seq<i32>
    decreases xs.len(),
{
    if xs.len() == 0 {
        Seq::empty()
    } else {
        heard(s, xs.drop_last(), filter, strength).push(
            after(s, xs.drop_last(), filter, strength).voice.output[0],
        )
    }
}

/// However the samples are cut into blocks, and however strong the filter is, the same is
/// heard, and the stream goes on in the same way.
pub proof fn blocks_do_not_matter(
    s: Stream,
    a: Seq<i32>,
    b: Seq<i32>,
    filter: Filter,
    strength: int,
)
    ensures
        after(s, a + b, filter, strength) == after(
            after(s, a, filter, strength),
            b,
            filter,
            strength,
        ),
        heard(s, a + b, filter, strength) == heard(s, a, filter, strength) + heard(
            after(s, a, filter, strength),
            b,
            filter,
            strength,
        ),
    decreases b.len(),
{
    if b.len() == 0 {
        assert(a + b =~= a);
    } else {
        blocks_do_not_matter(s, a, b.drop_last(), filter, strength);
        assert((a + b).drop_last() =~= a + b.drop_last());
        assert((a + b).last() == b.last());
    }
    assert(heard(s, a + b, filter, strength) =~= heard(s, a, filter, strength) + heard(
        after(s, a, filter, strength),
        b,
        filter,
        strength,
    ));
}

/// Every sample is answered by one within full scale, whatever came in, whatever the
/// filter gave and however strong it is.
pub proof fn voice_stays_within_full_scale(
    s: Stream,
    xs: Seq<i32>,
    filter: Filter,
    strength: int,
)
    requires
        s.voice.wf(),
        s.voice.filled < FRAME,
    ensures
        after(s, xs, filter, strength).voice.wf(),
        after(s, xs, filter, strength).voice.filled < FRAME,
        heard(s, xs, filter, strength).len() == xs.len(),
        within_full_scale(heard(s, xs, filter, strength)),
    decreases xs.len(),
{
    if xs.len() > 0 {
        voice_stays_within_full_scale(s, xs.drop_last(), filter, strength);
        let v = after(s, xs.drop_last(), filter, strength).voice;
        let next = v.pushed(xs.last() as int);
        assert(next.wf()) by {
            assert forall|i: int| 0 <= i < next.output.len() implies -FULL_SCALE
                <= #[trigger] next.output[i] <= FULL_SCALE by {
                assert(next.output[i] == v.output[i + 1]);
            }
        }
    }
}

/// The samples within full scale.
pub open spec fn all_dry(xs: Seq<i32>) -> Seq<i32> {
    Seq::new(xs.len(), |i: int| dry(xs[i] as int) as i32)
}

/// A sample beyond full scale counts as full scale, and a strength beyond its range as
/// the nearest end of the range.
pub proof fn samples_and_strength_are_clamped(
    s: Stream,
    xs: Seq<i32>,
    filter: Filter,
    strength: int,
)
    ensures
        after(s, xs, filter, strength) == after(s, all_dry(xs), filter, wet(strength)),
        heard(s, xs, filter, strength) == heard(s, all_dry(xs), filter, wet(strength)),
    decreases xs.len(),
{
    if xs.len() > 0 {
        samples_and_strength_are_clamped(s, xs.drop_last(), filter, strength);
        assert(all_dry(xs).drop_last() =~= all_dry(xs.drop_last()));
        assert(all_dry(xs).last() == dry(xs.last() as int));
        let before = after(s, xs.drop_last(), filter, strength);
        let next = before.voice.pushed(xs.last() as int);
        assert(next =~= before.voice.pushed(all_dry(xs).last() as int));
        let clean = filter(before.frames.push(next.input));
        assert(next.finished(clean, strength) =~= next.finished(clean, wet(strength)));
    }
}

/// A stream that is looked at from here on.
pub open spec fn from_here(v: VoiceView) -> Stream {
    Stream { voice: v, frames: Seq::empty() }
}

/// The filter that gives these frames, one after another.
pub open spec fn giving(clean: Seq<Seq<i32>>) -> Filter {
    |frames: Seq<Seq<i32>>| clean[frames.len() - 1]
}

/// The frames that the samples fill; what the filter gives changes nothing of them.
pub open spec fn full_frames(v: VoiceView, xs: Seq<i32>) -> Seq<Seq<i32>> {
    after(from_here(v), xs, |frames: Seq<Seq<i32>>| silence(FRAME as nat), 0).frames
}

/// The rows as mathematical values.
pub open spec fn row_views(rows: Seq<Vec<i32>>) -> Seq<Seq<i32>> {
    rows.map_values(|row: Vec<i32>| row@)
}

/// How many frames the samples fill.
pub open spec fn frame_count(v: VoiceView, xs: Seq<i32>) -> int {
    (v.filled + xs.len()) / (FRAME as int)
}

proof fn lemma_frames(s: Stream, xs: Seq<i32>, filter: Filter, strength: int)
    requires
        0 <= s.voice.filled < FRAME,
    ensures
        ({
            let t = after(s, xs, filter, strength);
            let u = after(
                from_here(s.voice),
                xs,
                |frames: Seq<Seq<i32>>| silence(FRAME as nat),
                0,
            );
            &&& t.frames == s.frames + full_frames(s.voice, xs)
            &&& t.voice.input == u.voice.input
            &&& t.voice.filled == u.voice.filled
            &&& t.voice.filled == (s.voice.filled + xs.len()) % (FRAME as int)
            &&& full_frames(s.voice, xs).len() == frame_count(s.voice, xs)
        }),
    decreases xs.len(),
{
    let silent = |frames: Seq<Seq<i32>>| silence(FRAME as nat);
    let t = after(s, xs, filter, strength);
    let u = after(from_here(s.voice), xs, silent, 0);
    if xs.len() > 0 {
        let ys = xs.drop_last();
        lemma_frames(s, ys, filter, strength);
        let (v, w) = (
            after(s, ys, filter, strength),
            after(from_here(s.voice), ys, silent, 0),
        );
        assert(v.voice.pushed(xs.last() as int).input == w.voice.pushed(xs.last() as int).input);
        assert(t.frames =~= s.frames + u.frames);
    } else {
        assert(t.frames =~= s.frames + u.frames);
    }
}

/// Two filters that give the same for the frames that come are heard alike.
proof fn lemma_alike(s: Stream, t: Stream, xs: Seq<i32>, f: Filter, g: Filter, strength: int)
    requires
        s.voice == t.voice,
        0 <= s.voice.filled < FRAME,
        forall|new: Seq<Seq<i32>>|
            0 < new.len() <= frame_count(s.voice, xs) ==> f(s.frames + new) == #[trigger] g(
                t.frames + new,
            ),
    ensures
        after(s, xs, f, strength).voice == after(t, xs, g, strength).voice,
        heard(s, xs, f, strength) == heard(t, xs, g, strength),
    decreases xs.len(),
{
    if xs.len() > 0 {
        let ys = xs.drop_last();
        assert(frame_count(s.voice, ys) <= frame_count(s.voice, xs));
        lemma_alike(s, t, ys, f, g, strength);
        lemma_frames(s, ys, f, strength);
        lemma_frames(t, ys, g, strength);
        let (v, w) = (after(s, ys, f, strength), after(t, ys, g, strength));
        let next = v.voice.pushed(xs.last() as int);
        if next.filled == FRAME {
            let new = full_frames(s.voice, ys).push(next.input);
            assert(v.frames.push(next.input) =~= s.frames + new);
            assert(w.frames.push(next.input) =~= t.frames + new);
            assert(new.len() <= frame_count(s.voice, xs)) by {
                lemma_frames(s, xs, f, strength);
                assert(after(s, xs, f, strength).frames =~= s.frames + new);
                assert((s.frames + full_frames(s.voice, xs)).len() == (s.frames + new).len());
            }
            assert(f(s.frames + new) == g(t.frames + new));
        }
    }
}

/// A block and then another are processed as both at once: the same frames are filled, the
/// same is heard, and the stream goes on in the same way.
pub proof fn processing_in_blocks(
    v: VoiceView,
    a: Seq<i32>,
    b: Seq<i32>,
    clean_a: Seq<Seq<i32>>,
    clean_b: Seq<Seq<i32>>,
    strength: int,
)
    requires
        v.wf(),
        v.filled < FRAME,
        clean_a.len() == frame_count(v, a),
        clean_b.len() == frame_count(v, a + b) - frame_count(v, a),
    ensures
        ({
            let first = after(from_here(v), a, giving(clean_a), strength).voice;
            let second = after(from_here(first), b, giving(clean_b), strength).voice;
            let both = giving(clean_a + clean_b);
            &&& clean_b.len() == frame_count(first, b)
            &&& full_frames(v, a + b) == full_frames(v, a) + full_frames(first, b)
            &&& after(from_here(v), a + b, both, strength).voice == second
            &&& heard(from_here(v), a + b, both, strength) == heard(
                from_here(v),
                a,
                giving(clean_a),
                strength,
            ) + heard(from_here(first), b, giving(clean_b), strength)
        }),
{
    let s = from_here(v);
    let both = giving(clean_a + clean_b);
    blocks_do_not_matter(s, a, b, both, strength);
    let middle = after(s, a, both, strength);
    lemma_frames(s, a, both, strength);
    assert forall|new: Seq<Seq<i32>>| 0 < new.len() <= frame_count(v, a) implies giving(clean_a)(
        s.frames + new,
    ) == #[trigger] both(s.frames + new) by {
        assert((s.frames + new).len() == new.len());
        assert((clean_a + clean_b)[new.len() - 1] == clean_a[new.len() - 1]);
    }
    lemma_alike(s, s, a, giving(clean_a), both, strength);
    let first = middle.voice;
    let (n, f) = (a.len() as int, FRAME as int);
    assert(v.filled + n == f * ((v.filled + n) / f) + (v.filled + n) % f);
    assert((v.filled + n + b.len()) / f == (v.filled + n) / f + ((v.filled + n) % f + b.len()) / f);
    assert((a + b).len() == n + b.len());
    assert forall|new: Seq<Seq<i32>>| 0 < new.len() <= frame_count(first, b) implies giving(
        clean_b,
    )(from_here(first).frames + new) == #[trigger] both(middle.frames + new) by {
        assert((middle.frames + new).len() == clean_a.len() + new.len());
        assert((from_here(first).frames + new).len() == new.len());
        assert((clean_a + clean_b)[clean_a.len() + new.len() - 1] == clean_b[new.len() - 1]);
    }
    lemma_alike(from_here(first), middle, b, giving(clean_b), both, strength);
    lemma_frames(s, a + b, both, strength);
    lemma_frames(middle, b, both, strength);
    assert(s.frames + full_frames(v, a + b) =~= full_frames(v, a + b));
    assert(s.frames + full_frames(v, a) =~= full_frames(v, a));
}

/// What is due at the place `p` of a stream from its start: the filtered sample, mixed with
/// the original that came two frames earlier.
spec fn blended(xs: Seq<i32>, clean: Seq<Seq<i32>>, strength: int, p: int) -> int {
    if p < FRAME {
        0
    } else {
        mixed(
            if p >= 2 * FRAME {
                dry(xs[p - 2 * FRAME] as int)
            } else {
                0
            },
            clean[p / (FRAME as int) - 1][p % (FRAME as int)] as int,
            strength,
        )
    }
}

/// Whether a stream is where it belongs after the samples, from its start.
spec fn is_at(s: Stream, xs: Seq<i32>, clean: Seq<Seq<i32>>, strength: int) -> bool {
    let (n, v) = (xs.len() as int, s.voice);
    &&& v.wf()
    &&& v.filled == n % (FRAME as int)
    &&& s.frames.len() == n / (FRAME as int)
    &&& forall|j: int|
        0 <= j < v.filled ==> #[trigger] v.input[j] == dry(xs[n - v.filled + j] as int)
    &&& forall|j: int|
        0 <= j < FRAME ==> #[trigger] v.previous_dry[j] == (if n - v.filled >= FRAME {
            dry(xs[n - v.filled - FRAME + j] as int)
        } else {
            0
        })
    &&& forall|j: int|
        0 <= j < v.output.len() ==> #[trigger] v.output[j] == blended(xs, clean, strength, n + j)
    &&& forall|m: int, j: int|
        0 <= m < s.frames.len() && 0 <= j < FRAME ==> #[trigger] s.frames[m][j] == dry(
            xs[m * FRAME + j] as int,
        )
}

proof fn lemma_is_at(xs: Seq<i32>, clean: Seq<Seq<i32>>, strength: int)
    ensures
        is_at(after(from_here(VoiceView::start()), xs, giving(clean), strength), xs, clean, strength),
        forall|m: int|
            0 <= m < xs.len() / (FRAME as nat) ==> (#[trigger] after(
                from_here(VoiceView::start()),
                xs,
                giving(clean),
                strength,
            ).frames[m]).len() == FRAME,
    decreases xs.len(),
{
    let start = from_here(VoiceView::start());
    let n = xs.len() as int;
    if n > 0 {
        let ys = xs.drop_last();
        lemma_is_at(ys, clean, strength);
        let s = after(start, ys, giving(clean), strength);
        let v = s.voice;
        let next = v.pushed(xs.last() as int);
        let (m, f) = (n - 1, v.filled);
        assert(next.wf()) by {
            assert forall|i: int| 0 <= i < next.output.len() implies -FULL_SCALE
                <= #[trigger] next.output[i] <= FULL_SCALE by {
                assert(next.output[i] == v.output[i + 1]);
            }
        }
        assert forall|j: int| 0 <= j < f + 1 implies #[trigger] next.input[j] == dry(
            xs[m - f + j] as int,
        ) by {
            if j < f {
                assert(next.input[j] == v.input[j]);
                assert(ys[m - f + j] == xs[m - f + j]);
            }
        }
        assert forall|j: int| 0 <= j < FRAME implies #[trigger] next.previous_dry[j] == (if m - f
            >= FRAME {
            dry(xs[m - f - FRAME + j] as int)
        } else {
            0
        }) by {
            assert(next.previous_dry[j] == v.previous_dry[j]);
            if m - f >= FRAME {
                assert(ys[m - f - FRAME + j] == xs[m - f - FRAME + j]);
            }
        }
        assert forall|j: int| 0 <= j < next.output.len() implies #[trigger] next.output[j]
            == blended(xs, clean, strength, n + j) by {
            assert(next.output[j] == v.output[j + 1]);
            if n + j >= 2 * FRAME {
                assert(ys[n + j - 2 * FRAME] == xs[n + j - 2 * FRAME]);
            }
        }
        assert forall|a: int, j: int|
            0 <= a < s.frames.len() && 0 <= j < FRAME implies #[trigger] s.frames[a][j] == dry(
            xs[a * FRAME + j] as int,
        ) by {
            assert(a * FRAME + j < n - 1) by {
                assert((m / 480) * 480 <= m);
            }
            assert(ys[a * FRAME + j] == xs[a * FRAME + j]);
        }
        if f + 1 == FRAME {
            let frames = s.frames.push(next.input);
            let given = giving(clean)(frames);
            let k = m / (FRAME as int);
            assert(frames.len() == k + 1);
            assert(given == clean[k]);
            let done = next.finished(given, strength);
            assert(n % (FRAME as int) == 0 && n / (FRAME as int) == k + 1);
            assert forall|j: int| 0 <= j < FRAME implies #[trigger] done.output[j] == blended(
                xs,
                clean,
                strength,
                n + j,
            ) by {
                assert((n + j) / 480 == k + 1 && (n + j) % 480 == j);
                assert(next.previous_dry[j] == (if m - f >= FRAME {
                    dry(xs[m - f - FRAME + j] as int)
                } else {
                    0
                }));
                assert(m - f == n - FRAME);
            }
            assert forall|a: int, j: int|
                0 <= a < frames.len() && 0 <= j < FRAME implies #[trigger] frames[a][j] == dry(
                xs[a * FRAME + j] as int,
            ) by {
                if a < k {
                    assert(frames[a] == s.frames[a]);
                } else {
                    assert(frames[a] == next.input);
                    assert(m - f == k * 480);
                }
            }
            assert(is_at(Stream { voice: done, frames }, xs, clean, strength));
        } else {
            assert(n % (FRAME as int) == f + 1);
            assert(n / (FRAME as int) == m / (FRAME as int));
            assert(is_at(Stream { voice: next, frames: s.frames }, xs, clean, strength));
        }
    }
}

proof fn lemma_heard_at(xs: Seq<i32>, clean: Seq<Seq<i32>>, strength: int, i: int)
    requires
        0 <= i < xs.len(),
    ensures
        heard(from_here(VoiceView::start()), xs, giving(clean), strength)[i] == blended(
            xs,
            clean,
            strength,
            i,
        ),
    decreases xs.len(),
{
    let start = from_here(VoiceView::start());
    let ys = xs.drop_last();
    voice_stays_within_full_scale(start, ys, giving(clean), strength);
    if i < ys.len() {
        lemma_heard_at(ys, clean, strength, i);
    } else {
        lemma_is_at(ys, clean, strength);
        let s = after(start, ys, giving(clean), strength);
        assert(s.voice.output[0] == blended(ys, clean, strength, i + 0));
    }
    if i >= 2 * FRAME {
        assert(ys[i - 2 * FRAME] == xs[i - 2 * FRAME]);
    }
}

/// The voice is heard as the original and the filtered sample of the same moment, weighted
/// by the strength, 20 milliseconds after the original came in: within half a unit of the
/// weighted mean, and within full scale. Before the first filtered frame there is silence.
/// The strength counts from nothing to all, and the original up to full scale.
pub proof fn original_and_filtered_voice_are_mixed_in_time(
    xs: Seq<i32>,
    clean: Seq<Seq<i32>>,
    strength: int,
    i: int,
)
    requires
        0 <= i < xs.len(),
    ensures
        ({
            let start = from_here(VoiceView::start());
            let r = heard(start, xs, giving(clean), strength)[i];
            let original = if i < 960 {
                0
            } else if xs[i - 960] > 100_000_000 {
                100_000_000
            } else if xs[i - 960] < -100_000_000 {
                -100_000_000
            } else {
                xs[i - 960] as int
            };
            let share = if strength < 0 {
                0
            } else if strength > 1_000_000 {
                1_000_000
            } else {
                strength
            };
            let exact = original * (1_000_000 - share) + clean[i / 480 - 1][i % 480] * share;
            &&& i < 480 ==> r == 0
            &&& -100_000_000 <= r <= 100_000_000
            &&& i >= 480 && r > -100_000_000 ==> 2_000_000 * r <= 2 * exact + 1_000_000
            &&& i >= 480 && r < 100_000_000 ==> 2 * exact - 1_000_000 < 2_000_000 * r
        }),
{
    lemma_heard_at(xs, clean, strength, i);
    if i >= 480 {
        let original = if i < 960 {
            0
        } else {
            dry(xs[i - 960] as int)
        };
        let share = wet(strength);
        let exact = original * (1_000_000 - share) + clean[i / 480 - 1][i % 480] * share;
        crate::units::lemma_nearest_bounds(exact, 1_000_000);
    }
}

/// The filter gets every sample once, in its order, in frames of 480, up to full scale.
pub proof fn filter_gets_every_sample_once(xs: Seq<i32>, m: int, j: int)
    requires
        0 <= m,
        0 <= j < 480,
        480 * m + 480 <= xs.len(),
    ensures
        ({
            let frames = full_frames(VoiceView::start(), xs);
            let x = xs[480 * m + j];
            &&& frames.len() == xs.len() / 480
            &&& frames[m].len() == 480
            &&& -100_000_000 <= x <= 100_000_000 ==> frames[m][j] == x
            &&& x > 100_000_000 ==> frames[m][j] == 100_000_000
            &&& x < -100_000_000 ==> frames[m][j] == -100_000_000
        }),
{
    let start = from_here(VoiceView::start());
    let none = Seq::<Seq<i32>>::empty();
    lemma_is_at(xs, none, 0);
    lemma_frames(start, xs, giving(none), 0);
    let s = after(start, xs, giving(none), 0);
    assert(s.frames =~= full_frames(VoiceView::start(), xs));
    assert(s.frames[m][j] == dry(xs[m * FRAME + j] as int));
}

} // verus!
