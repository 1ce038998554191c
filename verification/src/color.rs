//! Colours as quantised hue, saturation and value, and the distance between two of them.

use vstd::prelude::*;

verus! {

/// A colour as hue, saturation and value, each quantised to `0..=255`.
/// Hue is circular: 0 and 255 are neighbours.
#[derive(Copy, Clone, Debug)]
pub struct HSV {
    pub h: i32,
    pub s: i32,
    pub v: i32,
}

/// The largest of three numbers.
pub open spec fn max3(a: int, b: int, c: int) -> int {
    if a >= b && a >= c {
        a
    } else if b >= c {
        b
    } else {
        c
    }
}

/// The smallest of three numbers.
pub open spec fn min3(a: int, b: int, c: int) -> int {
    if a <= b && a <= c {
        a
    } else if b <= c {
        b
    } else {
        c
    }
}

/// The smaller of `n` and 255.
pub open spec fn cap(n: int) -> int {
    if n < 255 {
        n
    } else {
        255
    }
}

/// Position on the colour wheel in sixths of a turn, times the channel spread:
/// the numerator of the hue before it is divided by six spreads.
pub open spec fn hue_numerator(r: int, g: int, b: int) -> int {
    let max = max3(r, g, b);
    let d = max - min3(r, g, b);
    if max == r {
        g - b + if g < b { 6 * d } else { 0 }
    } else if max == g {
        b - r + 2 * d
    } else {
        r - g + 4 * d
    }
}

/// Hue of a colour sample: 0 for a gray one, else the position on the colour
/// wheel scaled to `0..=255` and rounded down.
pub open spec fn hue_of(r: int, g: int, b: int) -> int {
    let d = max3(r, g, b) - min3(r, g, b);
    if d == 0 {
        0
    } else {
        cap((hue_numerator(r, g, b) * 255) / (6 * d))
    }
}

/// Saturation of a colour sample: the channel spread as a share of the largest
/// channel, scaled to `0..=255` and rounded down; 0 for black.
pub open spec fn saturation_of(r: int, g: int, b: int) -> int {
    let max = max3(r, g, b);
    if max == 0 {
        0
    } else {
        cap(((max - min3(r, g, b)) * 255) / max)
    }
}

/// Value of a colour sample: its largest channel.
pub open spec fn value_of(r: int, g: int, b: int) -> int {
    cap(max3(r, g, b))
}

/// Whether `c` is a channel value, `0..=255`.
pub open spec fn is_channel(c: int) -> bool {
    0 <= c <= 255
}

/// Distance between two hues round the circle whose ends 0 and 255 meet.
pub open spec fn hue_gap(a: int, b: int) -> int {
    let d = if a <= b { b - a } else { a - b };
    if d <= 255 - d {
        d
    } else {
        255 - d
    }
}

/// `n` times itself.
pub open spec fn square(n: int) -> int {
    n * n
}

impl HSV {
    /// Each component lies in `0..=255`.
    pub open spec fn wf(&self) -> bool {
        is_channel(self.h as int) && is_channel(self.s as int) && is_channel(self.v as int)
    }

    /// Squared distance between two colours, the circular hue gap counted twice.
    pub open spec fn distance2(&self, other: &HSV) -> int {
        square(2 * hue_gap(self.h as int, other.h as int)) + square(self.s - other.s) + square(
            self.v - other.v,
        )
    }

    /// Squared distance between `self` and `other`.
    pub fn distance(&self, other: &HSV) -> (d: i32)
        requires
            self.wf(),
            other.wf(),
        ensures
            d == self.distance2(other),
            0 <= d <= 194566,
    {
        let dh1: i32 = if other.h >= self.h { other.h - self.h } else { self.h - other.h };
        let dh: i32 = if dh1 <= 255 - dh1 { dh1 * 2 } else { (255 - dh1) * 2 };
        let ds: i32 = if self.s >= other.s { self.s - other.s } else { other.s - self.s };
        let dv: i32 = if self.v >= other.v { self.v - other.v } else { other.v - self.v };
        assert(0 <= dh <= 254 && 0 <= ds <= 255 && 0 <= dv <= 255);
        assert(0 <= dh * dh <= 64516) by (nonlinear_arith)
            requires
                0 <= dh <= 254,
        ;
        assert(0 <= ds * ds <= 65025) by (nonlinear_arith)
            requires
                0 <= ds <= 255,
        ;
        assert(0 <= dv * dv <= 65025) by (nonlinear_arith)
            requires
                0 <= dv <= 255,
        ;
        assert(ds * ds == square(self.s - other.s)) by (nonlinear_arith)
            requires
                ds == self.s - other.s || ds == other.s - self.s,
        ;
        assert(dv * dv == square(self.v - other.v)) by (nonlinear_arith)
            requires
                dv == self.v - other.v || dv == other.v - self.v,
        ;
        dh * dh + ds * ds + dv * dv
    }

    /// Whether the squared distance to `other` is at most `threshold2`.
    pub fn equals(&self, other: &HSV, threshold2: i32) -> (close: bool)
        requires
            self.wf(),
            other.wf(),
        ensures
            close == (self.distance2(other) <= threshold2),
    {
        self.distance(other) <= threshold2
    }

    /// Whether the distance to `other` is at most `threshold` in absolute value.
    pub open spec fn within_spec(&self, other: &HSV, threshold: i32) -> bool {
        self.distance2(other) <= threshold * threshold
    }

    /// Whether the squared distance to `other` is at most the square of `threshold`.
    pub fn within(&self, other: &HSV, threshold: i32) -> (close: bool)
        requires
            self.wf(),
            other.wf(),
        ensures
            close == self.within_spec(other, threshold),
    {
        let t: i64 = threshold as i64;
        assert(0 <= t * t <= 0x4000_0000_0000_0000) by (nonlinear_arith)
            requires
                -0x8000_0000 <= t <= 0x7fff_ffff,
        ;
        (self.distance(other) as i64) <= t * t
    }
}

/// The colour model's triple for the sample `(r, g, b)`.
pub open spec fn rgb2hsv_spec(r: int, g: int, b: int) -> HSV {
    HSV { h: hue_of(r, g, b) as i32, s: saturation_of(r, g, b) as i32, v: value_of(r, g, b) as i32 }
}

/// Converts a colour sample of three channels in `0..=255` to hue, saturation
/// and value. A gray sample (all channels equal) has hue 0 and saturation 0.
pub fn rgb2hsv(r: i32, g: i32, b: i32) -> (hsv: HSV)
    requires
        is_channel(r as int),
        is_channel(g as int),
        is_channel(b as int),
    ensures
        hsv == rgb2hsv_spec(r as int, g as int, b as int),
        hsv.wf(),
        hsv.v == max3(r as int, g as int, b as int),
        max3(r as int, g as int, b as int) == min3(r as int, g as int, b as int) ==> hsv.h == 0
            && hsv.s == 0,
{
    let max: i32 = if r >= g && r >= b { r } else if g >= b { g } else { b };
    let min: i32 = if r <= g && r <= b { r } else if g <= b { g } else { b };
    let d: i32 = max - min;
    let s: i32 = if max == 0 {
        0
    } else {
        let q: i32 = (d * 255) / max;
        assert(q >= 0) by (nonlinear_arith)
            requires
                q == (d * 255) / (max as int),
                d >= 0,
                max > 0,
        ;
        if q < 255 { q } else { 255 }
    };
    let h: i32 = if d == 0 {
        0
    } else {
        let n: i32 = if max == r {
            g - b + (if g < b { 6 * d } else { 0 })
        } else if max == g {
            b - r + 2 * d
        } else {
            r - g + 4 * d
        };
        assert(0 <= n <= 6 * d);
        let q: i32 = (n * 255) / (6 * d);
        assert(q >= 0) by (nonlinear_arith)
            requires
                q == (n * 255) / (6 * d),
                n >= 0,
                d > 0,
        ;
        if q < 255 { q } else { 255 }
    };
    HSV { h, s, v: max }
}

/// A colour is at distance zero from itself.
pub proof fn lemma_distance_reflexive(a: HSV)
    ensures
        a.distance2(&a) == 0,
{
}

/// The distance from `a` to `b` is the distance from `b` to `a`.
pub proof fn lemma_distance_symmetric(a: HSV, b: HSV)
    ensures
        a.distance2(&b) == b.distance2(&a),
{
    assert(square(a.s - b.s) == square(b.s - a.s)) by (nonlinear_arith);
    assert(square(a.v - b.v) == square(b.v - a.v)) by (nonlinear_arith);
}

/// Hue wraps round: the two ends of the hue range are at distance zero from
/// each other, and no two hues in range are more than 127 apart.
pub proof fn lemma_hue_wraps(a: int, b: int)
    requires
        is_channel(a),
        is_channel(b),
    ensures
        hue_gap(0, 255) == 0,
        0 <= hue_gap(a, b) <= 127,
        hue_gap(a, b) == hue_gap(b, a),
{
}

} // verus!
