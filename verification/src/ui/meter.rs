//! The meter of the selected channel: it rises within 35 milliseconds, falls within
//! 350, and holds its peak for a second. It is not calibrated.

use crate::units::{clamped, nearest, round_div, ONE};
use vstd::prelude::*;

verus! {

/// The bottom of the meter, in millionths of a dBFS.
pub const BOTTOM: i32 = -120_000_000;

/// How long a peak is held, in microseconds.
pub const PEAK_HOLD_US: u64 = 1_000_000;

/// How fast a peak falls, in millionths of a decibel per microsecond: twelve decibels
/// per second.
pub const PEAK_FALL: i64 = 12;

/// The segments of the bar.
pub const SEGMENTS: i64 = 36;

/// The meter between two frames.
#[derive(Clone, Copy, Debug, PartialEq, Eq, Structural)]
pub struct Meter {
    /// The level that is shown, in millionths of a dBFS.
    pub level: i32,
    /// The peak that is shown, in millionths of a dBFS.
    pub peak: i32,
    /// Until when the peak is held, in microseconds.
    pub hold_until_us: u64,
    /// The channel that is shown.
    pub vfo: u32,
}

/// The time since the last frame, in microseconds, between a thousandth and a tenth
/// of a second.
pub fn frame_time(us: u64) -> (r: u32)
    ensures
        r == clamped(us as int, 1_000, 100_000),
{
    if us < 1_000 {
        1_000
    } else if us > 100_000 {
        100_000
    } else {
        us as u32
    }
}

/// A level within the scale.
pub open spec fn target(level: int) -> int {
    clamped(level, BOTTOM as int, 0)
}

/// The level on its way to `target`: the share `factor` of the way, in millionths.
pub open spec fn approached(level: int, target: int, factor: int) -> int {
    level + nearest((target - level) * factor, ONE as int)
}

/// The peak and until when it is held.
pub open spec fn peaked(peak: int, hold: int, target: int, now: int, dt: int) -> (int, int) {
    if target >= peak {
        (target, now + PEAK_HOLD_US)
    } else if now > hold {
        (
            if peak - PEAK_FALL * dt > target {
                peak - PEAK_FALL * dt
            } else {
                target
            },
            hold,
        )
    } else {
        (peak, hold)
    }
}

impl Meter {
    pub open spec fn wf(self) -> bool {
        &&& BOTTOM <= self.level <= 0
        &&& BOTTOM <= self.peak <= 0
    }

    /// The meter on the channel: it starts at the level where it showed another one.
    pub open spec fn on(self, target: int, selected: u32, now: int) -> Meter {
        if self.vfo == selected {
            self
        } else {
            Meter {
                level: target as i32,
                peak: target as i32,
                hold_until_us: (now + PEAK_HOLD_US) as u64,
                vfo: selected,
            }
        }
    }

    /// Whether `after` is the meter after a measure was shown.
    pub open spec fn shows(
        self,
        after: Meter,
        level: int,
        selected: u32,
        now: int,
        dt: int,
        rise: int,
        fall: int,
    ) -> bool {
        let t = target(level);
        let m = self.on(t, selected, now);
        let factor = if t > m.level {
            rise
        } else {
            fall
        };
        &&& after.vfo == selected
        &&& after.level == approached(m.level as int, t, factor)
        &&& (after.peak as int, after.hold_until_us as int) == peaked(
            m.peak as int,
            m.hold_until_us as int,
            t,
            now,
            dt,
        )
    }

    /// A meter that shows nothing.
    pub fn new() -> (r: Self)
        ensures
            r == (Meter { level: BOTTOM, peak: BOTTOM, hold_until_us: 0, vfo: 0 }),
            r.wf(),
    {
        Meter { level: BOTTOM, peak: BOTTOM, hold_until_us: 0, vfo: 0 }
    }

    /// There is no measure: the meter shows nothing.
    pub fn rest(&mut self)
        ensures
            *final(self) == (Meter { level: BOTTOM, peak: BOTTOM, vfo: 0, ..*old(self) }),
            final(self).wf(),
    {
        self.vfo = 0;
        self.level = BOTTOM;
        self.peak = BOTTOM;
    }

    /// Shows a measure of the channel `selected`, `dt_us` after the last frame. `rise`
    /// and `fall` are the shares of the way that the level covers in that time upwards
    /// and downwards, in millionths.
    pub fn show(
        &mut self,
        level_dbfs: i32,
        selected: u32,
        now_us: u64,
        dt_us: u32,
        rise: u32,
        fall: u32,
    )
        requires
            old(self).wf(),
            rise <= ONE,
            fall <= ONE,
            now_us <= u64::MAX - PEAK_HOLD_US,
        ensures
            final(self).wf(),
            old(self).shows(
                *final(self),
                level_dbfs as int,
                selected,
                now_us as int,
                dt_us as int,
                rise as int,
                fall as int,
            ),
    {
        let goal: i32 = crate::units::clamp(level_dbfs as i128, BOTTOM as i128, 0) as i32;
        if self.vfo != selected {
            self.level = goal;
            self.peak = goal;
            self.hold_until_us = now_us + PEAK_HOLD_US;
            self.vfo = selected;
        }
        let factor: u32 = if goal > self.level {
            rise
        } else {
            fall
        };
        proof {
            level_never_overshoots(self.level as int, goal as int, factor as int);
            assert(-0x8000_0000_0000 <= (goal - self.level) * factor <= 0x8000_0000_0000)
                by (nonlinear_arith)
                requires
                    -120_000_000 <= goal - self.level <= 120_000_000,
                    0 <= factor <= 1_000_000,
            ;
        }
        let step: i128 = round_div(
            (goal as i128 - self.level as i128) * factor as i128,
            ONE as i128,
        );
        self.level = (self.level as i128 + step) as i32;
        if goal >= self.peak {
            self.peak = goal;
            self.hold_until_us = now_us + PEAK_HOLD_US;
        } else if now_us > self.hold_until_us {
            let lower: i64 = self.peak as i64 - PEAK_FALL * dt_us as i64;
            self.peak = if lower > goal as i64 {
                lower as i32
            } else {
                goal
            };
        }
    }
}

/// The level never overshoots the measure.
pub proof fn level_never_overshoots(level: int, goal: int, factor: int)
    requires
        0 <= factor <= ONE,
    ensures
        level <= goal ==> level <= approached(level, goal, factor) <= goal,
        goal <= level ==> goal <= approached(level, goal, factor) <= level,
{
    let gap = goal - level;
    let q = nearest(gap * factor, ONE as int);
    crate::units::lemma_nearest_bounds(gap * factor, ONE as int);
    let x = gap * factor;
    if gap >= 0 {
        assert(0 <= x <= gap * 1_000_000) by (nonlinear_arith)
            requires
                x == gap * factor,
                0 <= factor <= 1_000_000,
                gap >= 0,
        ;
    } else {
        assert(gap * 1_000_000 <= x <= 0) by (nonlinear_arith)
            requires
                x == gap * factor,
                0 <= factor <= 1_000_000,
                gap < 0,
        ;
    }
    assert(2 * x - 1_000_000 < 2_000_000 * q <= 2 * x + 1_000_000);
}

/// A peak is held for a second, then falls by twelve decibels per second, never below
/// the measure.
pub proof fn peaks_are_held_for_a_second(
    peak: int,
    hold: int,
    goal: int,
    now: int,
    dt: int,
)
    requires
        dt >= 0,
    ensures
        peaked(peak, hold, goal, now, dt).0 >= goal,
        now <= hold ==> peaked(peak, hold, goal, now, dt).0 >= peak,
        peaked(peak, hold, goal, now, dt).0 >= peak - 12 * dt,
        goal >= peak ==> peaked(peak, hold, goal, now, dt).1 == now + 1_000_000,
{
}

/// How a segment of the bar is lit.
#[derive(Clone, Copy, Debug, PartialEq, Eq, Structural)]
pub enum Light {
    Off,
    /// Up to -40 dBFS.
    Low,
    /// Up to -15 dBFS.
    Middle,
    High,
}

/// The level at which the segment `i` begins, times the number of segments, in
/// millionths of a dBFS.
pub open spec fn segment_start(i: int) -> int {
    SEGMENTS * BOTTOM + 120_000_000 * i
}

/// How the segment `i` is lit.
pub open spec fn spec_light(i: int, level: Option<i32>) -> Light {
    match level {
        None => Light::Off,
        Some(l) => if SEGMENTS * l <= segment_start(i) {
            Light::Off
        } else if segment_start(i) > SEGMENTS * -15_000_000 {
            Light::High
        } else if segment_start(i) > SEGMENTS * -40_000_000 {
            Light::Middle
        } else {
            Light::Low
        },
    }
}

/// How the segment `i` is lit, where the meter shows `level` or nothing.
pub fn segment_light(i: i64, level: Option<i32>) -> (r: Light)
    requires
        0 <= i < SEGMENTS,
    ensures
        r == spec_light(i as int, level),
{
    match level {
        None => Light::Off,
        Some(l) => {
            let start: i64 = -4_320_000_000 + 120_000_000 * i;
            if 36 * (l as i64) <= start {
                Light::Off
            } else if start > -540_000_000 {
                Light::High
            } else if start > -1_440_000_000 {
                Light::Middle
            } else {
                Light::Low
            }
        },
    }
}

/// The bar is lit from the left without a gap.
pub proof fn bar_has_no_gap(i: int, j: int, level: Option<i32>)
    requires
        0 <= i <= j,
        spec_light(j, level) != Light::Off,
    ensures
        spec_light(i, level) != Light::Off,
{
}

/// What the meter shows after a measure, which counts between -120 dBFS and nothing. On the
/// channel that it showed, the level goes the given share of the way, upwards or downwards,
/// within half a unit; a peak that is reached is held for a second from then on, and an
/// older one falls by twelve decibels per second once its time is over, not below the
/// measure. On another channel the meter shows the measure at once.
pub proof fn meter_follows_the_measure(
    before: Meter,
    after: Meter,
    level: int,
    selected: u32,
    now: int,
    dt: int,
    rise: int,
    fall: int,
)
    requires
        before.wf(),
        0 <= now <= u64::MAX - 1_000_000,
        before.shows(after, level, selected, now, dt, rise, fall),
    ensures
        after.vfo == selected,
        ({
            let goal = if level < -120_000_000 {
                -120_000_000
            } else if level > 0 {
                0
            } else {
                level
            };
            let (up, down) = (
                1_000_000 * (after.level - before.level) - (goal - before.level) * rise,
                1_000_000 * (after.level - before.level) - (goal - before.level) * fall,
            );
            &&& before.vfo == selected ==> {
                &&& goal > before.level ==> -1_000_000 < 2 * up <= 1_000_000
                &&& goal <= before.level ==> -1_000_000 < 2 * down <= 1_000_000
                &&& goal >= before.peak ==> after.peak == goal && after.hold_until_us == now
                    + 1_000_000
                &&& goal < before.peak && now <= before.hold_until_us ==> after.peak == before.peak
                &&& goal < before.peak && now > before.hold_until_us && before.peak - 12 * dt >= goal
                    ==> after.peak == before.peak - 12 * dt
                &&& goal < before.peak && now > before.hold_until_us && before.peak - 12 * dt <= goal
                    ==> after.peak == goal
                &&& goal < before.peak ==> after.hold_until_us == before.hold_until_us
            }
            &&& before.vfo != selected ==> {
                &&& after.level == goal
                &&& after.peak == goal
                &&& after.hold_until_us == now + 1_000_000
            }
        }),
{
    let t = target(level);
    let m = before.on(t, selected, now);
    crate::units::lemma_nearest_bounds((t - before.level) * rise, 1_000_000);
    crate::units::lemma_nearest_bounds((t - before.level) * fall, 1_000_000);
    if before.vfo != selected {
        assert((t - m.level) * fall == 0) by (nonlinear_arith)
            requires
                t == m.level,
        ;
        crate::units::lemma_nearest_multiple(0, 1_000_000);
    }
}

/// The bar of 36 segments covers 120 decibels: a segment is lit exactly where the level lies
/// above its beginning. The first 25 are of the low colour, up to -40 dBFS, the next seven
/// of the middle one, up to -15 dBFS, and the rest of the high one.
pub proof fn segments_cover_the_scale(i: int, level: i32)
    requires
        0 <= i < 36,
    ensures
        spec_light(i, None) == Light::Off,
        spec_light(i, Some(level)) == Light::Off <==> 36 * (level + 120_000_000) <= 120_000_000 * i,
        spec_light(i, Some(level)) == Light::Low ==> i <= 24,
        spec_light(i, Some(level)) == Light::Middle ==> 25 <= i <= 31,
        spec_light(i, Some(level)) == Light::High ==> 32 <= i,
{
}

} // verus!
