//! Colours and toggles.

use vstd::prelude::*;

verus! {

/// A colour: red, green and blue.
pub type Rgb = (u8, u8, u8);

pub const BG: Rgb = (8, 13, 22);

pub const PANEL: Rgb = (13, 21, 34);

pub const CARD: Rgb = (18, 29, 45);

pub const BORDER: Rgb = (35, 51, 70);

pub const MUTED: Rgb = (133, 154, 176);

pub const TEXT: Rgb = (225, 234, 244);

pub const CYAN: Rgb = (53, 219, 239);

pub const AMBER: Rgb = (255, 207, 123);

pub const GREEN: Rgb = (93, 224, 165);

pub const RED: Rgb = (255, 108, 126);

/// A toggle that was clicked, or not: turns the value over and says whether it did.
pub fn toggle(value: &mut bool, clicked: bool) -> (changed: bool)
    ensures
        changed == clicked,
        *final(value) == (*old(value) != clicked),
{
    if clicked {
        *value = !*value;
    }
    clicked
}

/// The brightness at which a colour of the waterfall stands, in millionths.
pub open spec fn stop(k: int) -> (int, Rgb) {
    if k <= 0 {
        (0, BG)
    } else if k == 1 {
        (220_000, (17, 29, 63))
    } else if k == 2 {
        (480_000, (30, 85, 149))
    } else if k == 3 {
        (740_000, (46, 204, 220))
    } else {
        (1_000_000, AMBER)
    }
}

/// The value at `t` between two stops, rounded downwards.
pub open spec fn blended(from: u8, to: u8, t: int, start: int, end: int) -> int {
    let way = crate::units::clamped(t - start, 0, end - start);
    (from * (end - start) + (to - from) * way) / (end - start)
}

/// The colour at `t` between two stops.
pub open spec fn between_stops(k: int, t: int) -> Rgb {
    let (start, a) = stop(k);
    let (end, b) = stop(k + 1);
    (
        blended(a.0, b.0, t, start, end) as u8,
        blended(a.1, b.1, t, start, end) as u8,
        blended(a.2, b.2, t, start, end) as u8,
    )
}

/// The colour of a brightness in the waterfall, in millionths.
pub open spec fn spec_waterfall_color(t: int) -> Rgb {
    if t <= stop(1).0 {
        between_stops(0, t)
    } else if t <= stop(2).0 {
        between_stops(1, t)
    } else if t <= stop(3).0 {
        between_stops(2, t)
    } else if t <= stop(4).0 {
        between_stops(3, t)
    } else {
        AMBER
    }
}

fn blend(from: u8, to: u8, t: i64, start: i64, end: i64) -> (r: u8)
    requires
        0 <= start < end <= 1_000_000,
        i32::MIN <= t <= i32::MAX,
    ensures
        r == blended(from, to, t as int, start as int, end as int),
{
    let span: i64 = end - start;
    let way: i64 = crate::units::clamp((t - start) as i128, 0, span as i128) as i64;
    let (a, b): (i64, i64) = (from as i64, to as i64);
    proof {
        assert(0 <= a * span <= 255_000_000) by (nonlinear_arith)
            requires
                0 <= a <= 255,
                0 < span <= 1_000_000,
        ;
        assert(-255_000_000 <= (b - a) * way <= 255_000_000) by (nonlinear_arith)
            requires
                -255 <= b - a <= 255,
                0 <= way <= 1_000_000,
        ;
        let n = a * span + (b - a) * way;
        assert(0 <= n <= 255 * span) by (nonlinear_arith)
            requires
                n == a * span + (b - a) * way,
                0 <= a <= 255,
                0 <= b <= 255,
                0 <= way <= span,
        ;
        assert(0 <= n / span as int <= 255) by (nonlinear_arith)
            requires
                0 <= n <= 255 * span,
                span > 0,
        ;
    }
    ((a * span + (b - a) * way) / span) as u8
}

fn blend_stops(k: u8, t: i32) -> (r: Rgb)
    requires
        k <= 3,
    ensures
        r == between_stops(k as int, t as int),
{
    let (start, a, end, b): (i64, Rgb, i64, Rgb) = match k {
        0 => (0, BG, 220_000, (17, 29, 63)),
        1 => (220_000, (17, 29, 63), 480_000, (30, 85, 149)),
        2 => (480_000, (30, 85, 149), 740_000, (46, 204, 220)),
        _ => (740_000, (46, 204, 220), 1_000_000, AMBER),
    };
    let at: i64 = t as i64;
    (
        blend(a.0, b.0, at, start, end),
        blend(a.1, b.1, at, start, end),
        blend(a.2, b.2, at, start, end),
    )
}

/// The colour of a brightness in the waterfall, in millionths: from the background
/// over blue to amber.
pub fn waterfall_color(t: i32) -> (r: Rgb)
    ensures
        r == spec_waterfall_color(t as int),
{
    if t <= 220_000 {
        blend_stops(0, t)
    } else if t <= 480_000 {
        blend_stops(1, t)
    } else if t <= 740_000 {
        blend_stops(2, t)
    } else if t <= 1_000_000 {
        blend_stops(3, t)
    } else {
        AMBER
    }
}

proof fn lemma_blended_edges(from: u8, to: u8, t: int, start: int, end: int)
    requires
        start < end,
    ensures
        t <= start ==> blended(from, to, t, start, end) == from,
        t >= end ==> blended(from, to, t, start, end) == to,
{
    let span = end - start;
    assert((to - from) * 0 == 0) by (nonlinear_arith);
    assert(from * span + (to - from) * span == to * span) by (nonlinear_arith);
    vstd::arithmetic::div_mod::lemma_div_by_multiple(from as int, span);
    vstd::arithmetic::div_mod::lemma_div_by_multiple(to as int, span);
}

proof fn lemma_stops_edges(k: int, t: int)
    requires
        0 <= k <= 3,
    ensures
        t <= stop(k).0 ==> between_stops(k, t) == stop(k).1,
        t >= stop(k + 1).0 ==> between_stops(k, t) == stop(k + 1).1,
{
    let (start, a) = stop(k);
    let (end, b) = stop(k + 1);
    lemma_blended_edges(a.0, b.0, t, start, end);
    lemma_blended_edges(a.1, b.1, t, start, end);
    lemma_blended_edges(a.2, b.2, t, start, end);
}

/// The colours run without a jump from the background to amber: each stop has its
/// colour, on either side, and what lies outside has the colour of the edge.
pub proof fn waterfall_runs_from_background_to_amber(t: int, k: int)
    requires
        0 <= k <= 3,
    ensures
        t <= 0 ==> spec_waterfall_color(t) == BG,
        t >= 1_000_000 ==> spec_waterfall_color(t) == AMBER,
        spec_waterfall_color(stop(k).0) == stop(k).1,
        between_stops(k, stop(k).0) == stop(k).1,
        between_stops(k, stop(k + 1).0) == stop(k + 1).1,
{
    lemma_stops_edges(0, t);
    lemma_stops_edges(3, t);
    lemma_stops_edges(k, stop(k).0);
    lemma_stops_edges(k, stop(k + 1).0);
    if k > 0 {
        lemma_stops_edges(k - 1, stop(k).0);
    }
}

/// Between two stops every part of the colour lies on the line from one to the other,
/// rounded downwards: from the dark background over two blues and a turquoise to amber.
pub proof fn colours_run_evenly_between_the_stops(t: int, k: int)
    requires
        0 <= t <= 1_000_000,
        k == (if t <= 220_000 {
            0int
        } else if t <= 480_000 {
            1
        } else if t <= 740_000 {
            2
        } else {
            3
        }),
    ensures
        ({
            let start = if k == 0 {
                0int
            } else {
                260_000 * k - 40_000
            };
            let span = if k == 0 {
                220_000int
            } else {
                260_000
            };
            let reds = seq![8int, 17, 30, 46, 255];
            let greens = seq![13int, 29, 85, 204, 207];
            let blues = seq![22int, 63, 149, 220, 123];
            let (r, g, b) = spec_waterfall_color(t);
            let red = (reds[k + 1] - reds[k]) * (t - start) - span * (r - reds[k]);
            let green = (greens[k + 1] - greens[k]) * (t - start) - span * (g - greens[k]);
            let blue = (blues[k + 1] - blues[k]) * (t - start) - span * (b - blues[k]);
            &&& 0 <= red < span
            &&& 0 <= green < span
            &&& 0 <= blue < span
        }),
{
    let (start, a) = stop(k);
    let (end, b) = stop(k + 1);
    lemma_blended(a.0, b.0, t, start, end);
    lemma_blended(a.1, b.1, t, start, end);
    lemma_blended(a.2, b.2, t, start, end);
    lemma_blended_line(a.0, b.0, t, start, end);
    lemma_blended_line(a.1, b.1, t, start, end);
    lemma_blended_line(a.2, b.2, t, start, end);
}

/// A blend lies between its ends.
proof fn lemma_blended(from: u8, to: u8, t: int, start: int, end: int)
    requires
        start < end,
        start <= t <= end,
    ensures
        0 <= blended(from, to, t, start, end) <= 255,
{
    let (span, way) = (end - start, t - start);
    let n = from * span + (to - from) * way;
    assert(0 <= n <= 255 * span) by (nonlinear_arith)
        requires
            n == from * span + (to - from) * way,
            0 <= from <= 255,
            0 <= to <= 255,
            0 <= way <= span,
    ;
    assert(0 <= n / span <= 255) by (nonlinear_arith)
        requires
            0 <= n <= 255 * span,
            span > 0,
    ;
}

proof fn lemma_blended_line(from: u8, to: u8, t: int, start: int, end: int)
    requires
        start < end,
        start <= t <= end,
    ensures
        0 <= (to - from) * (t - start) - (end - start) * (blended(from, to, t, start, end) - from)
            < end - start,
{
    let (span, way) = (end - start, t - start);
    let n = from * span + (to - from) * way;
    vstd::arithmetic::div_mod::lemma_fundamental_div_mod(n, span);
    vstd::arithmetic::div_mod::lemma_mod_bound(n, span);
    let q = n / span;
    assert(span * (q - from) == span * q - from * span) by (nonlinear_arith);
}

} // verus!
