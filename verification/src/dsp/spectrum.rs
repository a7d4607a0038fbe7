//! The local noise floor of the spectrum, and what a channel holds above it.

use crate::model::{Spectrum, BLOCK_SIZE, FFT_SIZE, IQ_RATE};
use crate::units::{clamped, floor_div, nearest, round_div, DB};
use vstd::prelude::*;

verus! {

/// How many of `s` lie below `v`.
pub open spec fn below(s: Seq<int>, v: int) -> int
    decreases s.len(),
{
    if s.len() == 0 {
        0
    } else {
        below(s.drop_last(), v) + (if s.last() < v {
            1int
        } else {
            0
        })
    }
}

/// Whether `v` stands at place `k` when `s` is sorted.
pub open spec fn is_rank(s: Seq<int>, k: int, v: int) -> bool {
    below(s, v) <= k < below(s, v + 1)
}

/// Whether `v` stands a quarter up the sorted window.
pub open spec fn is_quartile(window: Seq<int>, v: int) -> bool {
    is_rank(window, (window.len() / 4) as int, v)
}

/// The value a quarter up the sorted window.
pub open spec fn quartile(window: Seq<int>) -> int {
    choose|v: int| is_quartile(window, v)
}

/// The bins around `i` from which its noise is estimated: 64 on either side.
pub open spec fn window_start(i: int) -> int {
    if i < 64 {
        0
    } else {
        i - 64
    }
}

/// The end of the bins around `i` from which its noise is estimated.
pub open spec fn window_end(i: int, n: int) -> int {
    if i + 65 > n {
        n
    } else {
        i + 65
    }
}

/// The noise around bin `i`, before it is followed over time: the lower quartile of
/// the window, and one decibel that brings it near the mean of the noise.
pub open spec fn noise_estimate(power: Seq<int>, i: int) -> int {
    quartile(power.subrange(window_start(i), window_end(i, power.len() as int))) + DB
}

/// Whether the noise is still being measured after `frames` spectra: for two
/// seconds of samples.
pub open spec fn measuring(frames: int) -> bool {
    frames * BLOCK_SIZE < 2 * IQ_RATE
}

/// How far the measure of the noise has come after `frames` spectra, in millionths.
pub open spec fn progress(frames: int) -> int {
    if measuring(frames) {
        frames * BLOCK_SIZE * 1_000_000 / (2 * IQ_RATE)
    } else {
        1_000_000
    }
}

/// How many spectra were seen after one more; the count stops at its largest value.
pub open spec fn counted(frames: int) -> int {
    if frames < u32::MAX {
        frames + 1
    } else {
        u32::MAX as int
    }
}

/// The measure of the noise only advances with the spectra.
pub proof fn lemma_progress_grows(a: int, b: int)
    requires
        0 <= a <= b,
    ensures
        progress(a) <= progress(b),
{
    if measuring(a) {
        vstd::arithmetic::div_mod::lemma_div_is_ordered(
            a * BLOCK_SIZE * 1_000_000,
            b * BLOCK_SIZE * 1_000_000,
            2 * IQ_RATE as int,
        );
        vstd::arithmetic::div_mod::lemma_div_is_ordered(
            a * BLOCK_SIZE * 1_000_000,
            2 * IQ_RATE * 1_000_000,
            2 * IQ_RATE as int,
        );
    }
}

/// The noise of a bin after one more spectrum. What stands out by more than six
/// decibels is no noise, once 32 spectra were seen. The noise is followed fast at
/// the start and downwards, and slowly upwards.
pub open spec fn followed(floor: int, power: int, estimate: int, frames: int, initialized: bool) -> int {
    if frames >= 32 && power > estimate + 6 * DB {
        floor
    } else if !initialized {
        estimate
    } else if measuring(frames) || estimate < floor {
        floor + nearest(estimate - floor, 5)
    } else {
        floor + nearest(3 * (estimate - floor), 200)
    }
}

/// The noise of all bins after one more spectrum.
pub open spec fn noise_after(
    floor: Seq<int>,
    power: Seq<int>,
    frames: int,
    initialized: bool,
) -> Seq<int> {
    Seq::new(
        power.len(),
        |i: int| followed(floor[i], power[i], noise_estimate(power, i), frames, initialized),
    )
}

/// A row of levels as integers.
pub open spec fn levels(row: Seq<i32>) -> Seq<int> {
    row.map_values(|v: i32| v as int)
}

/// A row with `c` added to each level.
pub open spec fn shifted(row: Seq<int>, c: int) -> Seq<int> {
    row.map_values(|v: int| v + c)
}

proof fn lemma_below_bounds(s: Seq<int>, v: int)
    ensures
        0 <= below(s, v) <= s.len(),
    decreases s.len(),
{
    if s.len() > 0 {
        lemma_below_bounds(s.drop_last(), v);
    }
}

proof fn lemma_below_monotonic(s: Seq<int>, v: int, w: int)
    requires
        v <= w,
    ensures
        below(s, v) <= below(s, w),
    decreases s.len(),
{
    if s.len() > 0 {
        lemma_below_monotonic(s.drop_last(), v, w);
    }
}

proof fn lemma_below_concat(a: Seq<int>, b: Seq<int>, v: int)
    ensures
        below(a + b, v) == below(a, v) + below(b, v),
    decreases b.len(),
{
    if b.len() == 0 {
        assert(a + b =~= a);
    } else {
        assert((a + b).drop_last() =~= a + b.drop_last());
        lemma_below_concat(a, b.drop_last(), v);
    }
}

proof fn lemma_below_none(s: Seq<int>, v: int)
    requires
        forall|i: int| 0 <= i < s.len() ==> s[i] >= v,
    ensures
        below(s, v) == 0,
    decreases s.len(),
{
    if s.len() > 0 {
        lemma_below_none(s.drop_last(), v);
    }
}

proof fn lemma_below_all(s: Seq<int>, v: int)
    requires
        forall|i: int| 0 <= i < s.len() ==> s[i] < v,
    ensures
        below(s, v) == s.len(),
    decreases s.len(),
{
    if s.len() > 0 {
        lemma_below_all(s.drop_last(), v);
    }
}

/// A sequence has one value of a given rank.
proof fn lemma_rank_unique(s: Seq<int>, k: int, v: int, w: int)
    requires
        is_rank(s, k, v),
        is_rank(s, k, w),
    ensures
        v == w,
{
    if v < w {
        lemma_below_monotonic(s, v + 1, w);
    } else if w < v {
        lemma_below_monotonic(s, w + 1, v);
    }
}

proof fn lemma_below_shifted(s: Seq<int>, v: int, c: int)
    ensures
        below(shifted(s, c), v + c) == below(s, v),
    decreases s.len(),
{
    if s.len() > 0 {
        assert(shifted(s, c).drop_last() =~= shifted(s.drop_last(), c));
        lemma_below_shifted(s.drop_last(), v, c);
    }
}

/// Every value below `v` counts once in the multiset of a sequence.
proof fn lemma_below_multiset(s: Seq<int>, v: int)
    ensures
        below(s, v) == s.to_multiset().filter(|x: int| x < v).len(),
    decreases s.len(),
{
    broadcast use vstd::multiset::group_multiset_axioms;
    broadcast use vstd::seq_lib::group_to_multiset_ensures;

    let p = |x: int| x < v;
    if s.len() == 0 {
        assert(s.to_multiset() =~= vstd::multiset::Multiset::empty());
        assert(s.to_multiset().filter(p) =~= vstd::multiset::Multiset::empty());
    } else {
        let t = s.drop_last();
        lemma_below_multiset(t, v);
        assert(s =~= t.push(s.last()));
        assert(s.to_multiset() =~= t.to_multiset().insert(s.last()));
        if s.last() < v {
            assert(s.to_multiset().filter(p) =~= t.to_multiset().filter(p).insert(s.last()));
        } else {
            assert(s.to_multiset().filter(p) =~= t.to_multiset().filter(p));
        }
    }
}

/// Sequences with the same values have as many below `v`.
proof fn lemma_below_permuted(s: Seq<i32>, t: Seq<i32>, v: int)
    requires
        s.to_multiset() == t.to_multiset(),
    ensures
        below(levels(s), v) == below(levels(t), v),
{
    lemma_levels_multiset(s);
    lemma_levels_multiset(t);
    lemma_below_multiset(levels(s), v);
    lemma_below_multiset(levels(t), v);
    assert forall|x: int|
        #[trigger] levels(s).to_multiset().count(x) == levels(t).to_multiset().count(x) by {
        lemma_levels_count(s, x);
        lemma_levels_count(t, x);
    }
    assert(levels(s).to_multiset() =~= levels(t).to_multiset());
}

proof fn lemma_levels_multiset(s: Seq<i32>)
    ensures
        levels(s).len() == s.len(),
{
}

proof fn lemma_levels_count(s: Seq<i32>, x: int)
    ensures
        levels(s).to_multiset().count(x) == (if i32::MIN <= x <= i32::MAX {
            s.to_multiset().count(x as i32)
        } else {
            0
        }),
    decreases s.len(),
{
    broadcast use vstd::multiset::group_multiset_axioms;
    broadcast use vstd::seq_lib::group_to_multiset_ensures;

    if s.len() == 0 {
        assert(levels(s) =~= Seq::empty());
        assert(levels(s).to_multiset() =~= vstd::multiset::Multiset::empty());
        assert(s.to_multiset() =~= vstd::multiset::Multiset::empty());
    } else {
        let t = s.drop_last();
        lemma_levels_count(t, x);
        assert(s =~= t.push(s.last()));
        assert(levels(s) =~= levels(t).push(s.last() as int));
        assert(s.to_multiset() =~= t.to_multiset().insert(s.last()));
        assert(levels(s).to_multiset() =~= levels(t).to_multiset().insert(s.last() as int));
    }
}

/// `<[i32]>::select_nth_unstable`: reorders `values` so that the one at `index`
/// stands where sorting would put it, with none greater before it and none smaller
/// behind it.
#[verifier::external_body]
fn select_nth(values: &mut Vec<i32>, index: usize)
    requires
        index < old(values)@.len(),
    ensures
        final(values)@.to_multiset() == old(values)@.to_multiset(),
        final(values)@.len() == old(values)@.len(),
        forall|i: int| 0 <= i < index ==> final(values)@[i] <= final(values)@[index as int],
        forall|i: int|
            index < i < final(values)@.len() ==> final(values)@[i] >= final(values)@[index as int],
{
    values.select_nth_unstable(index);
}

/// The value a quarter up the sorted window.
fn lower_quartile(window: &mut Vec<i32>) -> (r: i32)
    requires
        old(window)@.len() > 0,
    ensures
        r == quartile(levels(old(window)@)),
        is_quartile(levels(old(window)@), r as int),
{
    let ghost before = levels(window@);
    let ghost original = window@;
    let index: usize = window.len() / 4;
    select_nth(window, index);
    let r: i32 = window[index];
    proof {
        let k = index as int;
        let after = levels(window@);
        let v = r as int;
        let (a, b) = (after.take(k), after.skip(k));
        assert(after =~= a + b);
        lemma_below_concat(a, b, v);
        lemma_below_none(b, v);
        lemma_below_bounds(a, v);
        let (c, d) = (after.take(k + 1), after.skip(k + 1));
        assert(after =~= c + d);
        lemma_below_concat(c, d, v + 1);
        lemma_below_all(c, v + 1);
        lemma_below_bounds(d, v + 1);
        lemma_below_permuted(original, window@, v);
        lemma_below_permuted(original, window@, v + 1);
        assert(is_quartile(before, v));
        lemma_rank_unique(before, k, v, quartile(before));
    }
    r
}

/// What is known of the noise between two spectra.
pub struct SpectrumAnalyzer {
    /// The noise of each bin, in millionths of a dBFS.
    pub floor: Vec<i32>,
    pub initialized: bool,
    /// How many spectra were seen.
    pub frames_seen: u32,
}

/// The floor before the first spectrum.
pub const UNKNOWN_FLOOR: i32 = -100_000_000;

impl SpectrumAnalyzer {
    pub open spec fn wf(self) -> bool {
        &&& self.floor@.len() == FFT_SIZE
        &&& !self.initialized ==> self.frames_seen == 0
    }

    /// Whether nothing is known of the noise.
    pub open spec fn is_new(self) -> bool {
        &&& self.wf()
        &&& !self.initialized
        &&& self.frames_seen == 0
        &&& forall|i: int| 0 <= i < FFT_SIZE ==> self.floor@[i] == UNKNOWN_FLOOR
    }

    /// How far the measure of the noise has come, in millionths.
    pub open spec fn spec_progress(self) -> int {
        progress(self.frames_seen as int)
    }

    /// How many samples the spectra stand for.
    fn samples_seen(&self) -> (r: u64)
        ensures
            r == self.frames_seen * BLOCK_SIZE,
            r <= 25_600 * u32::MAX,
    {
        self.frames_seen as u64 * 25_600
    }

    /// How far the measure of the noise has come, in millionths.
    pub fn zero_progress(&self) -> (r: u32)
        ensures
            r == self.spec_progress(),
            r == 1_000_000 <==> !measuring(self.frames_seen as int),
    {
        let samples: u64 = self.samples_seen();
        let all: u64 = 2 * IQ_RATE as u64;
        if samples < all {
            assert(samples * 1_000_000 / 4_800_000 < 1_000_000);
            (samples * 1_000_000 / all) as u32
        } else {
            1_000_000
        }
    }

    /// Follows the noise of one bin.
    fn follow(&self, i: usize, power: i32, estimate: i64) -> (r: i32)
        requires
            self.wf(),
            i < FFT_SIZE,
            i32::MIN <= estimate <= i32::MAX,
        ensures
            r == followed(
                self.floor@[i as int] as int,
                power as int,
                estimate as int,
                self.frames_seen as int,
                self.initialized,
            ),
    {
        let floor: i64 = self.floor[i] as i64;
        if self.frames_seen >= 32 && power as i64 > estimate + 6 * DB as i64 {
            return floor as i32;
        }
        if !self.initialized {
            return estimate as i32;
        }
        let gap: i64 = estimate - floor;
        let samples: u64 = self.samples_seen();
        if samples < 2 * IQ_RATE as u64 || estimate < floor {
            proof {
                crate::units::lemma_nearest_bounds(gap as int, 5);
            }
            (floor + round_div(gap as i128, 5) as i64) as i32
        } else {
            proof {
                crate::units::lemma_nearest_bounds(3 * gap as int, 200);
            }
            (floor + round_div(3 * gap as i128, 200) as i64) as i32
        }
    }

    /// Takes the averaged power of each bin and follows the noise.
    pub fn process(&mut self, power_db: Vec<i32>) -> (r: Spectrum)
        requires
            old(self).wf(),
            power_db@.len() == FFT_SIZE,
            forall|i: int| 0 <= i < power_db@.len() ==> power_db@[i] <= i32::MAX - DB,
        ensures
            final(self).wf(),
            r.power_db@ == power_db@,
            r.floor_db@ == final(self).floor@,
            levels(final(self).floor@) == noise_after(
                levels(old(self).floor@),
                levels(power_db@),
                old(self).frames_seen as int,
                old(self).initialized,
            ),
            final(self).initialized,
            final(self).frames_seen == counted(old(self).frames_seen as int),
    {
        let ghost power = levels(power_db@);
        let ghost before = levels(self.floor@);
        let mut next: Vec<i32> = Vec::with_capacity(FFT_SIZE);
        let mut i: usize = 0;
        while i < FFT_SIZE
            invariant
                i <= FFT_SIZE,
                power_db@.len() == FFT_SIZE,
                self.wf(),
                power == levels(power_db@),
                before == levels(self.floor@),
                forall|j: int| 0 <= j < power_db@.len() ==> power_db@[j] <= i32::MAX - DB,
                levels(next@) == noise_after(
                    before,
                    power,
                    self.frames_seen as int,
                    self.initialized,
                ).take(i as int),
                *self == *old(self),
            decreases FFT_SIZE - i,
        {
            let lo: usize = if i < 64 {
                0
            } else {
                i - 64
            };
            let hi: usize = if i + 65 > FFT_SIZE {
                FFT_SIZE
            } else {
                i + 65
            };
            let mut window: Vec<i32> = vstd::slice::slice_to_vec(
                vstd::slice::slice_subrange(power_db.as_slice(), lo, hi),
            );
            assert(levels(window@) =~= power.subrange(lo as int, hi as int));
            let quarter: i32 = lower_quartile(&mut window);
            proof {
                lemma_quartile_in(power.subrange(lo as int, hi as int));
            }
            let value: i32 = self.follow(i, power_db[i], quarter as i64 + DB as i64);
            next.push(value);
            proof {
                let all = noise_after(before, power, self.frames_seen as int, self.initialized);
                assert(levels(next@) =~= all.take(i as int).push(value as int));
                assert(all.take(i + 1) =~= all.take(i as int).push(value as int));
            }
            i += 1;
        }
        proof {
            let all = noise_after(before, power, self.frames_seen as int, self.initialized);
            assert(all.take(i as int) =~= all);
            assert(levels(next@).len() == next@.len());
        }
        let copy: Vec<i32> = vstd::slice::slice_to_vec(next.as_slice());
        self.floor = next;
        self.initialized = true;
        self.frames_seen = self.frames_seen.saturating_add(1);
        Spectrum { power_db, floor_db: copy }
    }
}

/// The quartile is one of the values.
proof fn lemma_quartile_in(s: Seq<int>)
    requires
        s.len() > 0,
        exists|v: int| is_quartile(s, v),
    ensures
        s.contains(quartile(s)),
{
    let v = quartile(s);
    if !s.contains(v) {
        lemma_below_absent(s, v);
    }
}

proof fn lemma_below_absent(s: Seq<int>, v: int)
    requires
        !s.contains(v),
    ensures
        below(s, v) == below(s, v + 1),
    decreases s.len(),
{
    if s.len() > 0 {
        assert forall|i: int| 0 <= i < s.len() - 1 implies s.drop_last()[i] != v by {
            assert(s[i] != v);
        }
        lemma_below_absent(s.drop_last(), v);
        assert(s[s.len() - 1] != v);
    }
}

impl Default for SpectrumAnalyzer {
    fn default() -> (r: Self)
        ensures
            r.is_new(),
    {
        let floor: Vec<i32> = vec![UNKNOWN_FLOOR; FFT_SIZE];
        SpectrumAnalyzer { floor, initialized: false, frames_seen: 0 }
    }
}

/// Adding the same level to every bin of the window moves its quartile by as much.
proof fn lemma_quartile_shifted(s: Seq<int>, c: int)
    requires
        exists|v: int| is_quartile(s, v),
    ensures
        quartile(shifted(s, c)) == quartile(s) + c,
        is_quartile(shifted(s, c), quartile(s) + c),
{
    let v = quartile(s);
    lemma_below_shifted(s, v, c);
    lemma_below_shifted(s, v + 1, c);
    assert(v + 1 + c == v + c + 1);
    assert(is_quartile(shifted(s, c), v + c));
    lemma_rank_unique(
        shifted(s, c),
        (s.len() / 4) as int,
        v + c,
        quartile(shifted(s, c)),
    );
}

/// A window that is not empty has a quartile.
proof fn lemma_quartile_exists(s: Seq<int>)
    requires
        s.len() > 0,
    ensures
        exists|v: int| is_quartile(s, v),
{
    let k = (s.len() / 4) as int;
    lemma_rank_exists(s, k);
    let v = choose|v: int| is_rank(s, k, v);
    assert(is_quartile(s, v));
}

/// The quartile of a window that is not empty stands a quarter up the sorted window, is
/// one of its values, and no other value stands there.
pub proof fn quartile_is_a_quarter_up(window: Seq<int>, v: int)
    requires
        window.len() > 0,
    ensures
        is_quartile(window, quartile(window)),
        window.contains(quartile(window)),
        is_quartile(window, v) <==> v == quartile(window),
{
    lemma_quartile_exists(window);
    lemma_quartile_in(window);
    if is_quartile(window, v) {
        lemma_rank_unique(window, (window.len() / 4) as int, v, quartile(window));
    }
}

proof fn lemma_rank_exists(s: Seq<int>, k: int)
    requires
        0 <= k < s.len(),
    ensures
        exists|v: int| is_rank(s, k, v),
    decreases s.len(),
{
    let top = lemma_bound_above(s);
    let bottom = lemma_bound_below(s);
    lemma_below_all(s, top);
    lemma_below_none(s, bottom);
    lemma_rank_between(s, k, bottom, top);
}

/// Between a value with at most `k` below it and one with more lies the rank `k`.
proof fn lemma_rank_between(s: Seq<int>, k: int, lo: int, hi: int)
    requires
        below(s, lo) <= k < below(s, hi),
    ensures
        exists|v: int| is_rank(s, k, v),
    decreases hi - lo,
{
    if lo < hi {
        if k < below(s, lo + 1) {
            assert(is_rank(s, k, lo));
        } else {
            lemma_rank_between(s, k, lo + 1, hi);
        }
    } else {
        lemma_below_monotonic(s, hi, lo);
    }
}

proof fn lemma_bound_above(s: Seq<int>) -> (top: int)
    ensures
        forall|i: int| 0 <= i < s.len() ==> s[i] < top,
    decreases s.len(),
{
    if s.len() == 0 {
        0
    } else {
        let t = lemma_bound_above(s.drop_last());
        assert forall|i: int| 0 <= i < s.len() - 1 implies s[i] < t by {
            assert(s[i] == s.drop_last()[i]);
        }
        if s.last() < t {
            t
        } else {
            s.last() + 1
        }
    }
}

proof fn lemma_bound_below(s: Seq<int>) -> (bottom: int)
    ensures
        forall|i: int| 0 <= i < s.len() ==> s[i] >= bottom,
    decreases s.len(),
{
    if s.len() == 0 {
        0
    } else {
        let t = lemma_bound_below(s.drop_last());
        assert forall|i: int| 0 <= i < s.len() - 1 implies s[i] >= t by {
            assert(s[i] == s.drop_last()[i]);
        }
        if s.last() < t {
            s.last()
        } else {
            t
        }
    }
}

proof fn lemma_estimate_shifted(power: Seq<int>, c: int, i: int)
    requires
        0 <= i < power.len(),
    ensures
        noise_estimate(shifted(power, c), i) == noise_estimate(power, i) + c,
{
    let n = power.len() as int;
    let window = power.subrange(window_start(i), window_end(i, n));
    assert(shifted(power, c).subrange(window_start(i), window_end(i, n)) =~= shifted(window, c));
    lemma_quartile_exists(window);
    lemma_quartile_shifted(window, c);
}

/// What stands above the noise does not depend on how strong the noise is: where
/// every bin is `c` stronger, and the noise was followed `c` higher, it is followed
/// `c` higher again.
pub proof fn noise_follows_the_level(
    floor: Seq<int>,
    power: Seq<int>,
    frames: int,
    initialized: bool,
    c: int,
)
    requires
        floor.len() == power.len(),
    ensures
        noise_after(shifted(floor, c), shifted(power, c), frames, initialized) == shifted(
            noise_after(floor, power, frames, initialized),
            c,
        ),
{
    let a = noise_after(shifted(floor, c), shifted(power, c), frames, initialized);
    let b = shifted(noise_after(floor, power, frames, initialized), c);
    assert forall|i: int| 0 <= i < power.len() implies a[i] == b[i] by {
        lemma_estimate_shifted(power, c, i);
    }
    assert(a =~= b);
}

/// The noise after a whole reception, one spectrum after another, from the start of
/// the measure.
pub open spec fn noise_history(start: Seq<int>, rows: Seq<Seq<int>>) -> Seq<int>
    decreases rows.len(),
{
    if rows.len() == 0 {
        start
    } else {
        noise_after(
            noise_history(start, rows.drop_last()),
            rows.last(),
            rows.len() - 1,
            rows.len() > 1,
        )
    }
}

/// The contrast of a signal does not depend on the absolute level: a reception that
/// is `c` stronger in every bin of every spectrum has its noise `c` higher, whatever
/// was assumed of the noise at the start.
pub proof fn contrast_does_not_depend_on_the_level(
    start: Seq<int>,
    rows: Seq<Seq<int>>,
    strong: Seq<Seq<int>>,
    c: int,
)
    requires
        rows.len() > 0,
        strong.len() == rows.len(),
        start.len() == FFT_SIZE,
        forall|k: int| 0 <= k < rows.len() ==> (#[trigger] rows[k]).len() == FFT_SIZE,
        forall|k: int| 0 <= k < rows.len() ==> #[trigger] strong[k] == shifted(rows[k], c),
    ensures
        noise_history(start, rows).len() == FFT_SIZE,
        noise_history(start, strong) == shifted(noise_history(start, rows), c),
    decreases rows.len(),
{
    let n = rows.len();
    assert(strong.last() == shifted(rows.last(), c));
    if n == 1 {
        let a = noise_after(start, shifted(rows[0], c), 0, false);
        let b = shifted(noise_after(start, rows[0], 0, false), c);
        assert forall|i: int| 0 <= i < FFT_SIZE implies a[i] == b[i] by {
            lemma_estimate_shifted(rows[0], c, i);
        }
        assert(a =~= b);
        assert(rows.drop_last() =~= Seq::empty());
        assert(strong.drop_last() =~= Seq::empty());
        assert(rows.last() == rows[0]);
        assert(noise_history(start, rows.drop_last()) == start);
        assert(noise_history(start, strong.drop_last()) == start);
        assert(noise_history(start, strong) == a);
        assert(noise_history(start, rows) == noise_after(start, rows[0], 0, false));
    } else {
        let (t, u) = (rows.drop_last(), strong.drop_last());
        assert forall|k: int| 0 <= k < t.len() implies (#[trigger] t[k]).len() == FFT_SIZE by {
            assert(t[k] == rows[k]);
        }
        assert forall|k: int| 0 <= k < t.len() implies #[trigger] u[k] == shifted(t[k], c) by {
            assert(u[k] == strong[k]);
        }
        contrast_does_not_depend_on_the_level(start, t, u, c);
        assert(rows.last().len() == FFT_SIZE);
        noise_follows_the_level(noise_history(start, t), rows.last(), n - 1, true, c);
    }
}

/// The measure of the noise ends with the 188th spectrum, after two seconds.
pub proof fn measure_takes_two_seconds(frames: int)
    ensures
        measuring(frames) <==> frames < 188,
        187 * BLOCK_SIZE < 2 * IQ_RATE <= 188 * BLOCK_SIZE,
{
}

/// A carrier that stands out is not taken for noise, however long it lasts.
pub proof fn carriers_are_not_absorbed(floor: int, power: int, estimate: int, frames: int)
    requires
        frames >= 32,
        power > estimate + 6 * DB,
    ensures
        followed(floor, power, estimate, frames, true) == floor,
{
}

/// The noise is followed towards its estimate and never past it.
pub proof fn noise_is_never_overshot(floor: int, power: int, estimate: int, frames: int)
    ensures
        ({
            let next = followed(floor, power, estimate, frames, true);
            &&& floor <= estimate ==> floor <= next <= estimate
            &&& estimate <= floor ==> estimate <= next <= floor
        }),
{
    crate::units::lemma_nearest_bounds(estimate - floor, 5);
    crate::units::lemma_nearest_bounds(3 * (estimate - floor), 200);
}

/// The bin that holds `f`, in hertz from the centre of the band.
pub open spec fn bin(f: int) -> int {
    clamped((2 * f + IQ_RATE) * FFT_SIZE / (2 * IQ_RATE as int), 0, FFT_SIZE - 1)
}

/// The first and the last bin of a channel.
pub fn channel_bins(offset: i64, bandwidth: u32) -> (r: (usize, usize))
    ensures
        r.0 == bin(offset - bandwidth / 2),
        r.1 == bin(offset + bandwidth / 2),
        r.0 <= r.1 < FFT_SIZE,
{
    let half: i128 = (bandwidth / 2) as i128;
    let lo: i128 = floor_div((2 * (offset as i128 - half) + 2_400_000) * 2048, 4_800_000);
    let hi: i128 = floor_div((2 * (offset as i128 + half) + 2_400_000) * 2048, 4_800_000);
    proof {
        let (a, b) = (offset - half, offset + half);
        vstd::arithmetic::div_mod::lemma_div_is_ordered(
            (2 * a + IQ_RATE) * FFT_SIZE,
            (2 * b + IQ_RATE) * FFT_SIZE,
            2 * IQ_RATE as int,
        );
    }
    (
        crate::units::clamp(lo, 0, FFT_SIZE as i128 - 1) as usize,
        crate::units::clamp(hi, 0, FFT_SIZE as i128 - 1) as usize,
    )
}

/// How far a bin stands above its noise.
pub open spec fn contrast(power: Seq<i32>, floor: Seq<i32>, i: int) -> int {
    power[i] - floor[i]
}

/// The largest contrast among the bins from `lo` to `hi`, zero at least.
pub open spec fn is_peak(power: Seq<i32>, floor: Seq<i32>, lo: int, hi: int, peak: int) -> bool {
    &&& peak >= 0
    &&& forall|i: int| lo <= i <= hi ==> #[trigger] contrast(power, floor, i) <= peak
    &&& peak == 0 || exists|i: int| lo <= i <= hi && #[trigger] contrast(power, floor, i) == peak
}

/// There is one largest contrast.
pub proof fn lemma_peak_is_unique(
    power: Seq<i32>,
    floor: Seq<i32>,
    lo: int,
    hi: int,
    a: int,
    b: int,
)
    requires
        is_peak(power, floor, lo, hi, a),
        is_peak(power, floor, lo, hi, b),
    ensures
        a == b,
{
}

/// The contrast of a channel does not depend on the absolute level: where powers and
/// noise are shifted alike, it stays the same.
pub proof fn channel_contrast_does_not_depend_on_the_level(
    power: (Seq<i32>, Seq<i32>),
    floor: (Seq<i32>, Seq<i32>),
    shift: int,
    lo: int,
    hi: int,
    peak: int,
)
    requires
        forall|i: int| lo <= i <= hi ==> #[trigger] power.1[i] == power.0[i] + shift,
        forall|i: int| lo <= i <= hi ==> #[trigger] floor.1[i] == floor.0[i] + shift,
    ensures
        is_peak(power.0, floor.0, lo, hi, peak) == is_peak(power.1, floor.1, lo, hi, peak),
{
    assert forall|i: int| lo <= i <= hi implies #[trigger] contrast(power.0, floor.0, i)
        == contrast(power.1, floor.1, i) by {
        assert(power.1[i] == power.0[i] + shift);
        assert(floor.1[i] == floor.0[i] + shift);
    }
    assert forall|i: int| lo <= i <= hi implies contrast(power.0, floor.0, i)
        == #[trigger] contrast(power.1, floor.1, i) by {
        assert(contrast(power.0, floor.0, i) == contrast(power.1, floor.1, i));
    }
}

/// The largest contrast in the channel, in millionths of a decibel above the local
/// noise. It is no calibrated ratio of powers.
pub fn channel_snr(s: &Spectrum, offset: i64, bandwidth: u32) -> (r: i64)
    requires
        bin(offset + bandwidth / 2) < s.power_db@.len(),
        bin(offset + bandwidth / 2) < s.floor_db@.len(),
    ensures
        is_peak(
            s.power_db@,
            s.floor_db@,
            bin(offset - bandwidth / 2),
            bin(offset + bandwidth / 2),
            r as int,
        ),
{
    let (lo, hi) = channel_bins(offset, bandwidth);
    let mut peak: i64 = 0;
    let mut i: usize = lo;
    while i <= hi
        invariant
            lo <= i <= hi + 1,
            hi < FFT_SIZE,
            hi < s.power_db@.len(),
            hi < s.floor_db@.len(),
            is_peak(s.power_db@, s.floor_db@, lo as int, i - 1, peak as int),
        decreases hi + 1 - i,
    {
        let value: i64 = s.power_db[i] as i64 - s.floor_db[i] as i64;
        assert(contrast(s.power_db@, s.floor_db@, i as int) == value);
        if value > peak {
            peak = value;
        }
        i += 1;
    }
    peak
}

/// A spectrum as the transform gives it, with the centre of the band in the middle.
pub fn centred<T: Copy>(row: &[T]) -> (r: Vec<T>)
    requires
        row@.len() == FFT_SIZE,
    ensures
        r@.len() == FFT_SIZE,
        forall|i: int|
            0 <= i < FFT_SIZE ==> #[trigger] r@[i] == row@[(i + FFT_SIZE / 2) % (FFT_SIZE as int)],
{
    let mut out: Vec<T> = Vec::with_capacity(FFT_SIZE);
    let mut i: usize = 0;
    while i < FFT_SIZE
        invariant
            i <= FFT_SIZE,
            row@.len() == FFT_SIZE,
            out@.len() == i,
            forall|j: int|
                0 <= j < i ==> #[trigger] out@[j] == row@[(j + FFT_SIZE / 2) % (FFT_SIZE as int)],
        decreases FFT_SIZE - i,
    {
        out.push(row[(i + FFT_SIZE / 2) % FFT_SIZE]);
        i += 1;
    }
    out
}

/// The bins of positive frequencies come to stand right of the centre, those of
/// negative ones left of it.
pub proof fn positive_frequencies_are_right_of_the_centre(k: int)
    requires
        0 <= k < FFT_SIZE / 2,
    ensures
        (FFT_SIZE / 2 + k + FFT_SIZE / 2) % (FFT_SIZE as int) == k,
        (k + FFT_SIZE / 2) % (FFT_SIZE as int) == FFT_SIZE / 2 + k,
{
}

/// Counting by a condition is the length of what meets it.
proof fn lemma_below_filter(s: Seq<int>, v: int)
    ensures
        below(s, v) == s.filter(|x: int| x < v).len(),
        below(s, v + 1) == s.filter(|x: int| x <= v).len(),
    decreases s.len(),
{
    reveal(Seq::filter);
    if s.len() > 0 {
        lemma_below_filter(s.drop_last(), v);
    }
}

/// The estimate of the noise lies one decibel above a power that is found within 64 bins of
/// the bin, on either side, and at most a quarter of the powers there are smaller, more
/// than a quarter at most as large. Nothing further away matters.
pub proof fn estimate_is_a_quarter_up_the_bins_around(power: Seq<int>, i: int, q: int)
    requires
        0 <= i < power.len(),
    ensures
        ({
            let from = if i >= 64 {
                i - 64
            } else {
                0
            };
            let to = if i + 65 <= power.len() {
                i + 65
            } else {
                power.len() as int
            };
            let window = power.subrange(from, to);
            &&& window.contains(noise_estimate(power, i) - 1_000_000)
            &&& noise_estimate(power, i) == q + 1_000_000 <==> {
                &&& window.filter(|x: int| x < q).len() <= window.len() / 4
                &&& window.len() / 4 < window.filter(|x: int| x <= q).len()
            }
        }),
{
    let window = power.subrange(window_start(i), window_end(i, power.len() as int));
    quartile_is_a_quarter_up(window, q);
    lemma_below_filter(window, q);
}

/// The noise is followed for ever: whatever the number of spectra, a bin that does not
/// stand out by more than six decibels moves its noise by a fifth of the way to the
/// estimate during the first 188 spectra and downwards, and by three two-hundredths of it
/// upwards later, but for the rounding. Only from the spectrum 32 on, a bin that stands out
/// leaves its noise as it is. The first spectrum sets the noise to the estimate. The
/// estimate is what stands a quarter up the 64 bins on either side, and a decibel.
pub proof fn every_bin_follows_the_noise_around_it(
    floor: Seq<int>,
    power: Seq<int>,
    frames: int,
    initialized: bool,
    i: int,
    q: int,
)
    requires
        0 <= i < power.len(),
        ({
            let from = if i >= 64 {
                i - 64
            } else {
                0
            };
            let to = if i + 65 <= power.len() {
                i + 65
            } else {
                power.len() as int
            };
            let window = power.subrange(from, to);
            &&& window.filter(|x: int| x < q).len() <= window.len() / 4
            &&& window.len() / 4 < window.filter(|x: int| x <= q).len()
        }),
    ensures
        noise_after(floor, power, frames, initialized).len() == power.len(),
        ({
            let next = noise_after(floor, power, frames, initialized)[i];
            let way = q + 1_000_000 - floor[i];
            let stands_out = power[i] > q + 7_000_000;
            &&& frames >= 32 && stands_out ==> next == floor[i]
            &&& (frames < 32 || !stands_out) && !initialized ==> next == q + 1_000_000
            &&& (frames < 32 || !stands_out) && initialized && (frames < 188 || way < 0) ==> -5 < 2 * (5
                * (next - floor[i]) - way) <= 5
            &&& (frames < 32 || !stands_out) && initialized && frames >= 188 && way >= 0 ==> -200 < 2
                * (200 * (next - floor[i]) - 3 * way) <= 200
        }),
{
    estimate_is_a_quarter_up_the_bins_around(power, i, q);
    measure_takes_two_seconds(frames);
    let way = q + 1_000_000 - floor[i];
    crate::units::lemma_nearest_bounds(way, 5);
    crate::units::lemma_nearest_bounds(3 * way, 200);
}

/// The noise is followed however long the reception lasts: where a bin does not stand out
/// by more than six decibels, its noise comes within half a unit of a fifth of the way to
/// the estimate during the first 188 spectra and downwards, of three two-hundredths of it
/// upwards later. Each step takes at least a hundredth of a way of a hundred millionths of
/// a decibel or more, and some of one of 34 or more.
pub proof fn noise_is_followed_for_ever(floor: int, power: int, estimate: int, frames: int)
    requires
        power <= estimate + 6_000_000,
    ensures
        ({
            let next = followed(floor, power, estimate, frames, true);
            let (way, left) = (estimate - floor, estimate - next);
            &&& frames < 188 || way < 0 ==> -5 < 2 * (5 * (next - floor) - way) <= 5
            &&& frames >= 188 && way >= 0 ==> -200 < 2 * (200 * (next - floor) - 3 * way) <= 200
            &&& way >= 100 ==> 0 <= 100 * left <= 99 * way
            &&& way <= -100 ==> 0 >= 100 * left >= 99 * way
            &&& way >= 34 ==> left < way
            &&& way <= -34 ==> left > way
        }),
{
    measure_takes_two_seconds(frames);
    noise_is_never_overshot(floor, power, estimate, frames);
    crate::units::lemma_nearest_bounds(estimate - floor, 5);
    crate::units::lemma_nearest_bounds(3 * (estimate - floor), 200);
}

/// Whether the spectrum `k` moves the noise of a bin from `floors[k]` to the next one, after
/// `frames` others, where the estimate is always the same.
pub open spec fn moves_on(
    floors: Seq<int>,
    powers: Seq<int>,
    estimate: int,
    frames: int,
    k: int,
) -> bool {
    &&& powers[k] <= estimate + 6_000_000
    &&& floors[k + 1] == followed(floors[k], powers[k], estimate, frames + k, true)
}

/// An estimate that stays the same is reached, whenever the reception started: after `n`
/// spectra the noise of a bin is at least `n` millionths of a decibel nearer to it, or
/// within 33 of it; and it never passes it.
pub proof fn steady_noise_is_reached(
    floors: Seq<int>,
    powers: Seq<int>,
    estimate: int,
    frames: int,
    n: int,
)
    requires
        0 <= n < floors.len(),
        forall|k: int| 0 <= k < n ==> #[trigger] moves_on(floors, powers, estimate, frames, k),
    ensures
        floors[0] <= estimate ==> {
            &&& floors[0] <= floors[n] <= estimate
            &&& estimate - floors[n] <= 33 || estimate - floors[n] <= estimate - floors[0] - n
        },
        floors[0] >= estimate ==> {
            &&& estimate <= floors[n] <= floors[0]
            &&& floors[n] - estimate <= 33 || floors[n] - estimate <= floors[0] - estimate - n
        },
    decreases n,
{
    if n > 0 {
        steady_noise_is_reached(floors, powers, estimate, frames, n - 1);
        assert(moves_on(floors, powers, estimate, frames, n - 1));
        let (floor, power) = (floors[n - 1], powers[n - 1]);
        noise_is_followed_for_ever(floor, power, estimate, frames + n - 1);
        noise_is_never_overshot(floor, power, estimate, frames + n - 1);
    }
}

/// The measure of the noise is told as the part of 188 spectra, two seconds of samples, that
/// were seen, in millionths; every spectrum counts.
pub proof fn progress_is_the_time_measured(frames: int)
    requires
        0 <= frames,
    ensures
        frames < 188 ==> 4_800_000 * progress(frames) <= frames * 25_600 * 1_000_000 < 4_800_000 * (
        progress(frames) + 1),
        frames >= 188 ==> progress(frames) == 1_000_000,
        frames < u32::MAX ==> counted(frames) == frames + 1,
        frames == u32::MAX ==> counted(frames) == frames,
{
    let n = frames * 25_600 * 1_000_000;
    vstd::arithmetic::div_mod::lemma_fundamental_div_mod(n, 4_800_000);
    vstd::arithmetic::div_mod::lemma_mod_bound(n, 4_800_000);
}

/// A frequency of the band lies between the ends of its bin; one beyond the band counts to
/// the bin at its end.
pub proof fn bins_hold_their_frequencies(f: int)
    ensures
        ({
            let b = bin(f);
            &&& 0 <= b < 2048
            &&& -1_200_000 <= f < 1_200_000 ==> b * 2_400_000 <= (2 * f + 2_400_000) * 1024 < (b + 1)
                * 2_400_000
            &&& f < -1_200_000 ==> b == 0
            &&& f >= 1_200_000 ==> b == 2047
        }),
{
    let n = (2 * f + 2_400_000) * 2048;
    vstd::arithmetic::div_mod::lemma_fundamental_div_mod(n, 4_800_000);
    vstd::arithmetic::div_mod::lemma_mod_bound(n, 4_800_000);
}

} // verus!
