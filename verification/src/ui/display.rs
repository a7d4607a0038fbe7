//! What is drawn of a spectrum. The measurements themselves are never touched.

use crate::model::{Spectrum, IQ_RATE};
use crate::units::{clamped, nearest, round_div, ONE};
use vstd::prelude::*;

verus! {

/// The value of a bin: its power, or its level above the local noise.
pub open spec fn bin_level(s: Spectrum, normalized: bool, i: int) -> int {
    if normalized {
        s.power_db@[i] - s.floor_db@[i]
    } else {
        s.power_db@[i] as int
    }
}

/// The number of bins that have both a power and a noise.
pub open spec fn bins(s: Spectrum) -> int {
    if s.power_db@.len() < s.floor_db@.len() {
        s.power_db@.len() as int
    } else {
        s.floor_db@.len() as int
    }
}

/// The values of all bins.
pub open spec fn bin_levels(s: Spectrum, normalized: bool) -> Seq<i64> {
    Seq::new(bins(s) as nat, |i: int| bin_level(s, normalized, i) as i64)
}

/// Whether the bin `i` of `n` is one of the five in the middle.
pub open spec fn is_central(n: int, i: int) -> bool {
    n >= 7 && n / 2 - 2 <= i <= n / 2 + 2
}

/// The row with the five central bins on the line between their neighbours.
pub open spec fn blanked(row: Seq<i64>) -> Seq<i64> {
    let c = row.len() as int / 2;
    Seq::new(
        row.len(),
        |i: int|
            if is_central(row.len() as int, i) {
                (row[c - 3] + nearest((row[c + 3] - row[c - 3]) * (i - c + 3), 6)) as i64
            } else {
                row[i]
            },
    )
}

/// The row with all that is not above the margin at zero.
pub open spec fn without_background(row: Seq<i64>, margin: int) -> Seq<i64> {
    row.map_values(
        |v: i64|
            if v <= margin {
                0
            } else {
                v
            },
    )
}

/// What is drawn of a spectrum.
pub open spec fn displayed(
    s: Spectrum,
    normalized: bool,
    blank_dc: bool,
    noise_blank: Option<int>,
) -> Seq<i64> {
    let levels = bin_levels(s, normalized);
    let row = if blank_dc {
        blanked(levels)
    } else {
        levels
    };
    match noise_blank {
        Some(margin) if normalized => without_background(row, margin),
        _ => row,
    }
}

/// The value at `k` sixths of the way from `left` to `right`.
fn sixths(left: i64, right: i64, k: i64) -> (r: i64)
    requires
        1 <= k <= 5,
    ensures
        r == left + nearest((right - left) * k, 6),
{
    let gap: i128 = right as i128 - left as i128;
    proof {
        assert(-0x1_0000_0000_0000_0000 * 5 <= gap * k <= 0x1_0000_0000_0000_0000 * 5)
            by (nonlinear_arith)
            requires
                -0x1_0000_0000_0000_0000 <= gap <= 0x1_0000_0000_0000_0000,
                1 <= k <= 5,
        ;
        crate::audio::interpolation_stays_between(left as int, right as int, k as int, 6);
    }
    (left as i128 + round_div(gap * k as i128, 6)) as i64
}

/// Hides the peak in the middle of the band, where the tuner leaks: the five central
/// bins are drawn on the line between their neighbours.
pub fn blank_dc_bins(power: &mut Vec<i64>)
    ensures
        final(power)@ == blanked(old(power)@),
{
    let n: usize = power.len();
    if n < 7 {
        assert(power@ =~= blanked(old(power)@));
        return;
    }
    let center: usize = n / 2;
    let left: i64 = power[center - 3];
    let right: i64 = power[center + 3];
    let ghost all = blanked(old(power)@);
    let mut k: usize = 1;
    while k <= 5
        invariant
            1 <= k <= 6,
            n >= 7,
            center == n / 2,
            power@.len() == n,
            n == old(power)@.len(),
            all == blanked(old(power)@),
            left == old(power)@[center - 3],
            right == old(power)@[center + 3],
            forall|i: int|
                0 <= i < n ==> #[trigger] power@[i] == (if i < center - 3 + k {
                    all[i]
                } else {
                    old(power)@[i]
                }),
        decreases 6 - k,
    {
        let value: i64 = sixths(left, right, k as i64);
        assert(all[center - 3 + k] == value);
        power.set(center - 3 + k, value);
        k += 1;
    }
    assert(power@ =~= all);
}

/// What is drawn of a spectrum: power, or level above the local noise; without the
/// peak in the middle where that is asked for; and, above the noise, without what
/// does not exceed the margin.
pub fn display_power(
    s: &Spectrum,
    normalized: bool,
    blank_dc: bool,
    noise_blank: Option<i32>,
) -> (r: Vec<i64>)
    ensures
        r@ == displayed(
            *s,
            normalized,
            blank_dc,
            match noise_blank {
                Some(m) => Some(m as int),
                None => None,
            },
        ),
{
    let n: usize = if s.power_db.len() < s.floor_db.len() {
        s.power_db.len()
    } else {
        s.floor_db.len()
    };
    let ghost all = bin_levels(*s, normalized);
    let mut values: Vec<i64> = Vec::with_capacity(n);
    let mut i: usize = 0;
    while i < n
        invariant
            i <= n,
            n == bins(*s),
            all == bin_levels(*s, normalized),
            values@ == all.take(i as int),
        decreases n - i,
    {
        let power: i64 = s.power_db[i] as i64;
        values.push(
            if normalized {
                power - s.floor_db[i] as i64
            } else {
                power
            },
        );
        assert(values@ =~= all.take(i + 1));
        i += 1;
    }
    assert(all.take(n as int) =~= all);
    if blank_dc {
        blank_dc_bins(&mut values);
    }
    if normalized {
        if let Some(margin) = noise_blank {
            hide_background(&mut values, margin as i64);
        }
    }
    values
}

/// Draws all that is not above the margin at zero.
fn hide_background(values: &mut Vec<i64>, margin: i64)
    ensures
        final(values)@ == without_background(old(values)@, margin as int),
{
    let ghost all = without_background(old(values)@, margin as int);
    let mut i: usize = 0;
    while i < values.len()
        invariant
            i <= values@.len(),
            values@.len() == old(values)@.len(),
            all == without_background(old(values)@, margin as int),
            forall|j: int|
                0 <= j < values@.len() ==> #[trigger] values@[j] == (if j < i {
                    all[j]
                } else {
                    old(values)@[j]
                }),
        decreases values@.len() - i,
    {
        if values[i] <= margin {
            values.set(i, 0);
        }
        i += 1;
    }
    assert(values@ =~= all);
}

/// Hiding the central peak touches five bins and no other.
pub proof fn only_five_central_bins_are_hidden(row: Seq<i64>, i: int)
    requires
        0 <= i < row.len(),
        i < row.len() as int / 2 - 2 || i > row.len() as int / 2 + 2,
    ensures
        blanked(row)[i] == row[i],
        blanked(row).len() == row.len(),
{
}

/// Absolute levels are drawn as they were measured, whatever margin is set.
pub proof fn absolute_levels_are_drawn_as_measured(s: Spectrum, margin: Option<int>, i: int)
    requires
        s.floor_db@.len() >= s.power_db@.len(),
        0 <= i < s.power_db@.len(),
    ensures
        displayed(s, false, false, margin).len() == s.power_db@.len(),
        displayed(s, false, false, margin)[i] == s.power_db@[i],
{
}

/// What is drawn above the noise does not change where powers and noise rise
/// together.
pub proof fn relative_levels_do_not_depend_on_the_noise(
    a: Spectrum,
    b: Spectrum,
    shift: int,
    blank_dc: bool,
    margin: Option<int>,
)
    requires
        a.power_db@.len() == b.power_db@.len(),
        a.floor_db@.len() == b.floor_db@.len(),
        forall|i: int|
            0 <= i < a.power_db@.len() ==> #[trigger] b.power_db@[i] == a.power_db@[i] + shift,
        forall|i: int|
            0 <= i < a.floor_db@.len() ==> #[trigger] b.floor_db@[i] == a.floor_db@[i] + shift,
    ensures
        displayed(a, true, blank_dc, margin) == displayed(b, true, blank_dc, margin),
{
    assert(bin_levels(a, true) =~= bin_levels(b, true));
}

/// A share of a whole, in millionths, between nothing and all of it.
pub open spec fn share(value: int, min: int, max: int) -> int {
    clamped(nearest((value - min) * ONE, max - min), 0, ONE as int)
}

/// Where `value` lies between `min` and `max`, in millionths; what lies outside is
/// brought to the edge.
pub fn share_of(value: i64, min: i32, max: i32) -> (r: i32)
    requires
        min < max,
    ensures
        r == share(value as int, min as int, max as int),
{
    let distance: i128 = value as i128 - min as i128;
    let span: i128 = max as i128 - min as i128;
    crate::units::clamp(round_div(distance * 1_000_000, span), 0, ONE as i128) as i32
}

/// The levels at the bottom and at the top of the plot, in millionths of a decibel.
pub open spec fn spec_axis(normalized: bool) -> (i32, i32) {
    if normalized {
        (-10_000_000i32, 40_000_000i32)
    } else {
        (-110_000_000i32, 0i32)
    }
}

/// The levels at the bottom and at the top of the plot.
pub fn axis(normalized: bool) -> (r: (i32, i32))
    ensures
        r == spec_axis(normalized),
        r.0 < r.1,
{
    if normalized {
        (-10_000_000, 40_000_000)
    } else {
        (-110_000_000, 0)
    }
}

/// The level at the grid line `i` of four, counted from the top, in millionths of a
/// decibel.
pub fn grid_level(normalized: bool, i: i32) -> (r: i32)
    requires
        0 <= i <= 5,
    ensures
        ({
            let (min, max) = spec_axis(normalized);
            5 * r == 5 * max - (max - min) * i
        }),
{
    if normalized {
        assert((40_000_000 - (-10_000_000)) * i == 50_000_000 * i);
        40_000_000 - 10_000_000 * i
    } else {
        assert((0 - (-110_000_000)) * i == 110_000_000 * i);
        -(22_000_000 * i)
    }
}

/// How bright a level is in the waterfall, in millionths.
pub open spec fn spec_intensity(db: int, normalized: bool) -> int {
    if normalized {
        share(db, -5_000_000, 35_000_000)
    } else {
        share(db, -100_000_000, -15_000_000)
    }
}

/// How bright a level is in the waterfall, in millionths: from five decibels below
/// the noise to 35 above it, or from -100 to -15 dBFS.
pub fn intensity(db: i64, normalized: bool) -> (r: i32)
    ensures
        r == spec_intensity(db as int, normalized),
        0 <= r <= ONE,
{
    if normalized {
        share_of(db, -5_000_000, 35_000_000)
    } else {
        share_of(db, -100_000_000, -15_000_000)
    }
}

/// Where a frequency lies in the band, in millionths of its width from the left.
pub open spec fn place(offset_hz: int) -> int {
    nearest(offset_hz * ONE, IQ_RATE as int) + ONE / 2
}

/// Where a frequency lies in the band, in millionths of its width from the left edge;
/// the centre lies in the middle.
pub fn place_of(offset_hz: i64) -> (r: i64)
    requires
        -1_000_000_000_000 <= offset_hz <= 1_000_000_000_000,
    ensures
        r == place(offset_hz as int),
{
    let rate: i128 = IQ_RATE as i128;
    proof {
        crate::units::lemma_nearest_bounds(offset_hz * ONE, IQ_RATE as int);
    }
    round_div(offset_hz as i128 * 1_000_000, rate) as i64 + 500_000
}

/// The frequency at `x` of `width`, both in the same unit of length, while the band
/// lies around `center_hz`.
pub open spec fn pointed(center_hz: int, x: int, width: int) -> int {
    center_hz + nearest((2 * x - width) * IQ_RATE, 2 * width)
}

/// The frequency at `x` of `width`, both in thousandths of a pixel.
pub fn frequency_at(center_hz: i64, x: i32, width: i32) -> (r: i64)
    requires
        width > 0,
        -0x1000_0000_0000_0000 <= center_hz <= 0x1000_0000_0000_0000,
    ensures
        r == pointed(center_hz as int, x as int, width as int),
{
    let distance: i128 = 2 * x as i128 - width as i128;
    let rate: i128 = IQ_RATE as i128;
    proof {
        let a = distance * rate;
        assert(-0x8_0000_0000 * 2_400_000 <= a <= 0x8_0000_0000 * 2_400_000) by (nonlinear_arith)
            requires
                a == distance * rate,
                rate == 2_400_000,
                -0x8_0000_0000 <= distance <= 0x8_0000_0000,
        ;
        crate::units::lemma_nearest_bounds(a as int, 2 * width as int);
        let q = nearest(a as int, 2 * width as int);
        let w = width as int;
        assert(-0x1000_0000_0000_0000 <= q <= 0x1000_0000_0000_0000) by (nonlinear_arith)
            requires
                2 * a - 2 * w < 2 * (2 * w) * q <= 2 * a + 2 * w,
                -0x8_0000_0000 * 2_400_000 <= a <= 0x8_0000_0000 * 2_400_000,
                1 <= w <= 0x7fff_ffff,
        ;
    }
    (center_hz as i128 + round_div(distance * rate, 2 * width as i128)) as i64
}

/// The middle of the plot shows the centre of the band.
pub proof fn middle_shows_the_centre(center_hz: int, half: int)
    requires
        half > 0,
    ensures
        pointed(center_hz, half, 2 * half) == center_hz,
        place(0) == ONE / 2,
{
    assert((2 * half - 2 * half) * IQ_RATE == 0) by (nonlinear_arith);
    crate::units::lemma_nearest_multiple(0, 2 * (2 * half));
    crate::units::lemma_nearest_multiple(0, IQ_RATE as int);
    assert(0 * (2 * (2 * half)) == 0) by (nonlinear_arith);
}

/// What is drawn of a bin that is not hidden in the middle: its power, or how far it stands
/// above its noise; above the noise, and where a margin is set, nothing of what does not
/// exceed it.
pub proof fn bins_are_drawn_as_measured(
    s: Spectrum,
    normalized: bool,
    blank_dc: bool,
    margin: Option<int>,
    i: int,
)
    requires
        0 <= i < s.power_db@.len(),
        i < s.floor_db@.len(),
    ensures
        ({
            let n = if s.power_db@.len() <= s.floor_db@.len() {
                s.power_db@.len() as int
            } else {
                s.floor_db@.len() as int
            };
            let drawn = displayed(s, normalized, blank_dc, margin);
            let level = if normalized {
                s.power_db@[i] - s.floor_db@[i]
            } else {
                s.power_db@[i] as int
            };
            let hidden = blank_dc && n >= 7 && n / 2 - 2 <= i <= n / 2 + 2;
            let background = normalized && (margin matches Some(m) && level <= m);
            &&& drawn.len() == n
            &&& !hidden && !background ==> drawn[i] == level
            &&& !hidden && background ==> drawn[i] == 0
        }),
{
}

/// The five bins that are hidden in the middle are drawn on the line from the third bin on
/// the left of the middle to the third on its right, within half a unit; a margin is then
/// applied to them as to the others.
pub proof fn hidden_bins_are_drawn_on_a_line(s: Spectrum, normalized: bool, margin: int, i: int)
    requires
        s.power_db@.len() == s.floor_db@.len(),
        s.power_db@.len() >= 7,
        s.power_db@.len() as int / 2 - 2 <= i <= s.power_db@.len() as int / 2 + 2,
    ensures
        ({
            let c = s.power_db@.len() as int / 2;
            let row = displayed(s, normalized, true, None);
            let (left, right) = (row[c - 3] as int, row[c + 3] as int);
            let off = 6 * (row[i] - left) - (right - left) * (i - c + 3);
            let cut = displayed(s, true, true, Some(margin));
            let all = displayed(s, true, true, None);
            &&& -6 < 2 * off <= 6
            &&& all[i] > margin ==> cut[i] == all[i]
            &&& all[i] <= margin ==> cut[i] == 0
        }),
{
    let c = s.power_db@.len() as int / 2;
    let levels = bin_levels(s, normalized);
    let (left, right, k) = (levels[c - 3] as int, levels[c + 3] as int, i - c + 3);
    crate::units::lemma_nearest_bounds((right - left) * k, 6);
    crate::audio::interpolation_stays_between(left, right, k, 6);
}

/// The brightness rises evenly from nothing, five decibels below the noise or at -100 dBFS,
/// to all, 35 decibels above the noise or at -15 dBFS.
pub proof fn brightness_rises_evenly(db: int, brighter: int)
    requires
        db <= brighter,
    ensures
        ({
            let (a, b) = (spec_intensity(db, true), spec_intensity(db, false));
            &&& db <= -5_000_000 ==> a == 0
            &&& db >= 35_000_000 ==> a == 1_000_000
            &&& -5_000_000 <= db <= 35_000_000 ==> -40_000_000 < 2 * (40_000_000 * a - (db
                + 5_000_000) * 1_000_000) <= 40_000_000
            &&& db <= -100_000_000 ==> b == 0
            &&& db >= -15_000_000 ==> b == 1_000_000
            &&& -100_000_000 <= db <= -15_000_000 ==> -85_000_000 < 2 * (85_000_000 * b - (db
                + 100_000_000) * 1_000_000) <= 85_000_000
            &&& a <= spec_intensity(brighter, true)
            &&& b <= spec_intensity(brighter, false)
        }),
{
    let (x, y) = ((db + 5_000_000) * ONE, (db + 100_000_000) * ONE);
    crate::units::lemma_nearest_bounds(x, 40_000_000);
    crate::units::lemma_nearest_bounds(y, 85_000_000);
    crate::units::lemma_nearest_bounds((brighter + 5_000_000) * ONE, 40_000_000);
    crate::units::lemma_nearest_bounds((brighter + 100_000_000) * ONE, 85_000_000);
}

/// A value lies as far up the axis as it does between the ends, within half a millionth, and
/// outside them at the nearer end.
pub proof fn shares_are_in_proportion(value: int, min: int, max: int)
    requires
        min < max,
    ensures
        ({
            let r = share(value, min, max);
            let off = (max - min) * r - (value - min) * 1_000_000;
            &&& 0 <= r <= 1_000_000
            &&& value <= min ==> r == 0
            &&& value >= max ==> r == 1_000_000
            &&& min <= value <= max ==> -(max - min) < 2 * off <= max - min
        }),
{
    let (d, n) = (max - min, nearest((value - min) * ONE, max - min));
    crate::units::lemma_nearest_bounds((value - min) * 1_000_000, d);
    assert(2 * d * n == 2 * (d * n)) by (nonlinear_arith);
    if value <= min {
        assert(n <= 0) by (nonlinear_arith)
            requires
                2 * (d * n) <= 2 * ((value - min) * 1_000_000) + d,
                value <= min,
                d > 0,
        ;
    }
    if value >= max {
        assert(n >= 1_000_000) by (nonlinear_arith)
            requires
                2 * ((value - min) * 1_000_000) - d < 2 * (d * n),
                value - min >= d,
                d > 0,
        ;
    }
    if min <= value <= max {
        assert(0 <= n <= 1_000_000) by (nonlinear_arith)
            requires
                2 * ((value - min) * 1_000_000) - d < 2 * (d * n) <= 2 * ((value - min) * 1_000_000)
                    + d,
                0 <= value - min <= d,
                d > 0,
        ;
    }
}

/// A frequency is drawn as far from the middle as it lies from the centre, in proportion to
/// the band, within half a millionth of the width: the ends of the band at the edges.
pub proof fn frequencies_are_drawn_in_proportion(offset_hz: int)
    ensures
        -2_400_000 < 2 * (2_400_000 * (place(offset_hz) - 500_000) - offset_hz * 1_000_000)
            <= 2_400_000,
        offset_hz == -1_200_000 ==> place(offset_hz) == 0,
        offset_hz == 1_200_000 ==> place(offset_hz) == 1_000_000,
{
    crate::units::lemma_nearest_bounds(offset_hz * 1_000_000, 2_400_000);
}

/// A place on the plot points to the frequency that is drawn there, within half a hertz: the
/// edges point to the ends of the band.
pub proof fn places_point_to_their_frequencies(center_hz: int, x: int, width: int)
    requires
        width > 0,
    ensures
        ({
            let off = 2 * width * (pointed(center_hz, x, width) - center_hz) - (2 * x - width)
                * 2_400_000;
            -2 * width < 2 * off <= 2 * width
        }),
        pointed(center_hz, 0, width) == center_hz - 1_200_000,
        pointed(center_hz, width, width) == center_hz + 1_200_000,
{
    let a = (2 * x - width) * 2_400_000;
    let n = nearest(a, 2 * width);
    crate::units::lemma_nearest_bounds(a, 2 * width);
    assert(2 * (2 * width) * n == 2 * (2 * width * n)) by (nonlinear_arith);
    assert((2 * 0 - width) * IQ_RATE == -1_200_000 * (2 * width));
    crate::units::lemma_nearest_multiple(-1_200_000, 2 * width);
    assert((2 * width - width) * IQ_RATE == 1_200_000 * (2 * width));
    crate::units::lemma_nearest_multiple(1_200_000, 2 * width);
}

/// The plot reaches from ten decibels below the noise to forty above it, or over the 110
/// decibels below full scale.
pub proof fn plot_reaches_around_the_noise_or_below_full_scale(normalized: bool)
    ensures
        normalized ==> spec_axis(normalized).0 == -10_000_000 && spec_axis(normalized).1 == 40_000_000,
        !normalized ==> spec_axis(normalized).0 == -110_000_000 && spec_axis(normalized).1 == 0,
{
}

} // verus!
