//! Colours: the hue wheel in fixed point, and the elevation ramp built on it.
//!
//! All quantities are whole numbers. A hue is given in thousandths of a
//! degree, saturation and value in thousandths of their full range, so the
//! conversion is exact: a channel is the true value of the formula, rounded
//! once, to the nearest eight-bit level.

use vstd::prelude::*;

verus! {

/// The level that stands for a channel at full brightness, before scaling
/// to eight bits: a thousand thousandths of a thousand thousandths, in a
/// sector of 60 000 thousandths of a degree.
pub open spec fn level_one() -> int {
    60_000_000_000
}

/// The hue `h` within its pair of sectors: the remainder of `h` by 120°,
/// with the sign of `h`.
pub open spec fn hue_in_pair(h: int) -> int {
    if h >= 0 {
        h % 120_000
    } else {
        -((-h) % 120_000)
    }
}

/// The share `1 - |h' mod 2 - 1|` of the chroma that the second-strongest
/// channel gets, in thousandths of a degree: it rises from `0` at 0° to
/// `60 000` at 60° and falls back to `0` at 120°, and so on around the
/// wheel. Below 0° it is the hue within its pair of sectors, which is
/// negative.
pub open spec fn sector_ramp(h: int) -> int {
    let r = hue_in_pair(h);
    if r <= 60_000 {
        r
    } else {
        120_000 - r
    }
}

/// Chroma `v * s`, as a level.
pub open spec fn chroma_level(s: int, v: int) -> int {
    v * (s * 60_000)
}

/// The second-strongest channel `c * (1 - |h' mod 2 - 1|)`, as a level.
pub open spec fn secondary_level(h: int, s: int, v: int) -> int {
    v * (s * sector_ramp(h))
}

/// The offset `v - c` that is added to every channel, as a level.
pub open spec fn offset_level(s: int, v: int) -> int {
    v * ((1000 - s) * 60_000)
}

/// The levels of red, green and blue before the offset is added, picked by
/// the sector of the hue. The first sector that the hue lies under wins:
/// a hue below 0° is in the first, a hue of 300° or more, however large,
/// in the last.
pub open spec fn base_levels(h: int, s: int, v: int) -> (int, int, int) {
    let c = chroma_level(s, v);
    let x = secondary_level(h, s, v);
    if h < 60_000 {
        (c, x, 0)
    } else if h < 120_000 {
        (x, c, 0)
    } else if h < 180_000 {
        (0, c, x)
    } else if h < 240_000 {
        (0, x, c)
    } else if h < 300_000 {
        (x, 0, c)
    } else {
        (c, 0, x)
    }
}

/// A level scaled by 255 and rounded to the nearest whole number, halves
/// upwards, before it is cut to the range of a channel.
pub open spec fn scaled_level(level: int) -> int {
    (510 * level + 60_000_000_000) / 120_000_000_000
}

/// The eight-bit channel for a level: the scaled level, cut to `0..=255`.
pub open spec fn channel_of(level: int) -> int {
    if level <= 0 {
        0
    } else if scaled_level(level) > 255 {
        255
    } else {
        scaled_level(level)
    }
}

/// Red, green and blue of the colour with hue `h`, saturation `s` and
/// value `v`.
pub open spec fn rgb_of(h: int, s: int, v: int) -> (int, int, int) {
    let base = base_levels(h, s, v);
    let m = offset_level(s, v);
    (channel_of(base.0 + m), channel_of(base.1 + m), channel_of(base.2 + m))
}

fn channel(level: i64) -> (c: u8)
    requires
        -level_one() * 70_000 <= level <= level_one() * 70_000,
    ensures
        c == channel_of(level as int),
{
    if level <= 0 {
        0
    } else {
        let q: i64 = (510 * level + 60_000_000_000) / 120_000_000_000;
        if q > 255 {
            255
        } else {
            q as u8
        }
    }
}

/// The bounds within which every level of a colour lies, whatever the
/// hue, the saturation and the value.
proof fn lemma_level_bounds(w: int, s: int, v: int)
    requires
        -120_000 <= w <= 60_000,
        0 <= s <= 65_535,
        0 <= v <= 65_535,
    ensures
        -65_535 * 120_000 <= s * w <= 65_535 * 60_000,
        -65_535 * (65_535 * 120_000) <= v * (s * w) <= 65_535 * (65_535 * 60_000),
        -65_535 * (64_535 * 60_000) <= v * ((1000 - s) * 60_000) <= 65_535 * (1000 * 60_000),
{
    assert(-65_535 * 120_000 <= s * w <= 65_535 * 60_000) by (nonlinear_arith)
        requires
            0 <= s <= 65_535,
            -120_000 <= w <= 60_000,
    ;
    let p = s * w;
    assert(-65_535 * (65_535 * 120_000) <= v * p <= 65_535 * (65_535 * 60_000))
        by (nonlinear_arith)
        requires
            -65_535 * 120_000 <= p <= 65_535 * 60_000,
            0 <= v <= 65_535,
    ;
    let q = (1000 - s) * 60_000;
    assert(-65_535 * (64_535 * 60_000) <= v * q <= 65_535 * (1000 * 60_000)) by (nonlinear_arith)
        requires
            -64_535 * 60_000 <= q <= 1000 * 60_000,
            0 <= v <= 65_535,
    ;
}

/// Converts hue, saturation and value to red, green and blue.
///
/// `h` is the hue in thousandths of a degree, `s` and `v` are saturation
/// and value in thousandths, `1000` being full. Each channel is
/// `255 * (base + v - c)` rounded to the nearest whole number, halves
/// upwards, where `c` is the chroma `v * s` and `base` is `c`, `0` or the
/// secondary value `c * (1 - |h' mod 2 - 1|)`, `h' = h / 60°`, by the
/// sector of the hue.
///
/// The hue is meant to lie between 0° and 360°, saturation and value
/// between `0` and `1000`. Outside of that nothing fails: a hue below 0°
/// is read in the first sector and one of 360° or more in the last, and a
/// channel that would leave `0..=255` is cut to it.
pub fn hsv_to_rgb(h: i32, s: u16, v: u16) -> (rgb: [u8; 3])
    ensures
        rgb[0] == rgb_of(h as int, s as int, v as int).0,
        rgb[1] == rgb_of(h as int, s as int, v as int).1,
        rgb[2] == rgb_of(h as int, s as int, v as int).2,
{
    let r: i64 = if h >= 0 {
        (h as i64) % 120_000
    } else {
        -((-(h as i64)) % 120_000)
    };
    let w: i64 = if r <= 60_000 {
        r
    } else {
        120_000 - r
    };
    proof {
        lemma_level_bounds(w as int, s as int, v as int);
        lemma_level_bounds(60_000, s as int, v as int);
    }
    let c: i64 = (v as i64) * ((s as i64) * 60_000);
    let x: i64 = (v as i64) * ((s as i64) * w);
    let m: i64 = (v as i64) * ((1000 - (s as i64)) * 60_000);
    let (r1, g1, b1): (i64, i64, i64) = if h < 60_000 {
        (c, x, 0)
    } else if h < 120_000 {
        (x, c, 0)
    } else if h < 180_000 {
        (0, c, x)
    } else if h < 240_000 {
        (0, x, c)
    } else if h < 300_000 {
        (x, 0, c)
    } else {
        (c, 0, x)
    };
    [channel(r1 + m), channel(g1 + m), channel(b1 + m)]
}

/// Whether a level lies between black and full brightness, so that scaling
/// it to eight bits needs no cutting.
pub open spec fn level_in_range(level: int) -> bool {
    0 <= level <= level_one() && 0 <= scaled_level(level) <= 255
}

/// With saturation and value within their range, no channel is cut: for
/// every hue, each of red, green and blue lies between black and full
/// brightness before rounding, and in `0..=255` after it.
pub proof fn lemma_channels_in_range(h: int, s: int, v: int)
    requires
        0 <= h,
        0 <= s <= 1000,
        0 <= v <= 1000,
    ensures
        level_in_range(base_levels(h, s, v).0 + offset_level(s, v)),
        level_in_range(base_levels(h, s, v).1 + offset_level(s, v)),
        level_in_range(base_levels(h, s, v).2 + offset_level(s, v)),
        rgb_of(h, s, v).0 == scaled_level(base_levels(h, s, v).0 + offset_level(s, v)),
        rgb_of(h, s, v).1 == scaled_level(base_levels(h, s, v).1 + offset_level(s, v)),
        rgb_of(h, s, v).2 == scaled_level(base_levels(h, s, v).2 + offset_level(s, v)),
{
    let w = sector_ramp(h);
    let c = chroma_level(s, v);
    let x = secondary_level(h, s, v);
    let m = offset_level(s, v);
    assert(0 <= w <= 60_000);
    assert(0 <= s * w <= s * 60_000) by (nonlinear_arith)
        requires
            0 <= s,
            0 <= w <= 60_000,
    ;
    assert(0 <= x <= c) by (nonlinear_arith)
        requires
            0 <= v,
            0 <= s * w <= s * 60_000,
            x == v * (s * w),
            c == v * (s * 60_000),
    ;
    assert(c + m == v * 60_000_000 && 0 <= m) by (nonlinear_arith)
        requires
            0 <= v,
            0 <= s <= 1000,
            c == v * (s * 60_000),
            m == v * ((1000 - s) * 60_000),
    ;
}

/// The hue wheel closes: a hue of 360° gives the colour of 0°.
pub proof fn lemma_hue_wraps(s: int, v: int)
    ensures
        rgb_of(360_000, s, v) == rgb_of(0, s, v),
{
    assert(sector_ramp(0) == 0);
    assert(sector_ramp(360_000) == 0);
    assert(s * 0 == 0);
    assert(v * 0 == 0);
}

/// Saturation of the elevation ramp: nine tenths.
pub const RAMP_SATURATION: u16 = 900;

/// Value of the elevation ramp: full.
pub const RAMP_VALUE: u16 = 1000;

/// The least of the elevations `zs`; `0` where there is none.
pub open spec fn lowest(zs: Seq<i32>) -> int
    decreases zs.len(),
{
    if zs.len() == 0 {
        0
    } else if zs.len() == 1 {
        zs[0] as int
    } else if zs.last() < lowest(zs.drop_last()) {
        zs.last() as int
    } else {
        lowest(zs.drop_last())
    }
}

/// The greatest of the elevations `zs`; `0` where there is none.
pub open spec fn highest(zs: Seq<i32>) -> int
    decreases zs.len(),
{
    if zs.len() == 0 {
        0
    } else if zs.len() == 1 {
        zs[0] as int
    } else if zs.last() > highest(zs.drop_last()) {
        zs.last() as int
    } else {
        highest(zs.drop_last())
    }
}

/// The hue, in thousandths of a degree, of elevation `z` in a frame whose
/// elevations span `lo..=hi`: `360° * (z - lo) / (hi - lo)`, rounded down,
/// and `0°` throughout a flat frame.
pub open spec fn elevation_hue(z: int, lo: int, hi: int) -> int {
    if hi <= lo {
        0
    } else {
        (360_000 * (z - lo)) / (hi - lo)
    }
}

/// Red, green and blue of elevation `z` in a frame whose elevations span
/// `lo..=hi`.
pub open spec fn elevation_rgb(z: int, lo: int, hi: int) -> (int, int, int) {
    rgb_of(elevation_hue(z, lo, hi), 900, 1000)
}

/// Whether the colour `rgb` has the channels `(red, green, blue)`.
pub open spec fn has_channels(rgb: [u8; 3], channels: (int, int, int)) -> bool {
    rgb[0] == channels.0 && rgb[1] == channels.1 && rgb[2] == channels.2
}

/// `lowest` and `highest` bound every elevation of a frame, and each is
/// the elevation of one of its points.
pub proof fn lemma_span_is_tight(zs: Seq<i32>)
    requires
        zs.len() > 0,
    ensures
        forall|i: int| 0 <= i < zs.len() ==> lowest(zs) <= #[trigger] zs[i] <= highest(zs),
        exists|i: int| 0 <= i < zs.len() && zs[i] == lowest(zs),
        exists|i: int| 0 <= i < zs.len() && zs[i] == highest(zs),
    decreases zs.len(),
{
    if zs.len() == 1 {
        assert(zs[0] == lowest(zs));
        assert(zs[0] == highest(zs));
    } else {
        let head = zs.drop_last();
        lemma_span_is_tight(head);
        let at_low = choose|i: int| 0 <= i < head.len() && head[i] == lowest(head);
        let at_high = choose|i: int| 0 <= i < head.len() && head[i] == highest(head);
        assert(zs[at_low] == head[at_low]);
        assert(zs[at_high] == head[at_high]);
        let last = zs.len() - 1;
        assert(zs[last] == zs.last());
        assert forall|i: int| 0 <= i < zs.len() implies lowest(zs) <= #[trigger] zs[i] <= highest(
            zs,
        ) by {
            if i < last {
                assert(zs[i] == head[i]);
            }
        }
    }
}

/// The hue of an elevation within the span of its frame lies on the wheel,
/// between 0° and 360°.
pub proof fn lemma_hue_on_wheel(z: int, lo: int, hi: int)
    requires
        lo <= z <= hi,
    ensures
        0 <= elevation_hue(z, lo, hi) <= 360_000,
{
    if hi > lo {
        let n = z - lo;
        let d = hi - lo;
        assert(0 <= (360_000 * n) / d <= 360_000) by (nonlinear_arith)
            requires
                0 <= n <= d,
                0 < d,
        ;
    }
}

/// Colours the points of a frame by their elevation.
///
/// `zs` holds the elevation of each point, in any unit. The lowest point
/// of the frame gets the hue 0°, the highest 360°, the others the hue in
/// proportion to their height between the two; saturation is nine tenths
/// and value is full. The colours come in the order of the points, one for
/// each. A frame on one level is coloured with the hue 0° throughout.
pub fn elevation_colors(zs: &Vec<i32>) -> (colors: Vec<[u8; 3]>)
    ensures
        colors.len() == zs.len(),
        forall|i: int|
            0 <= i < zs.len() ==> has_channels(
                #[trigger] colors[i],
                elevation_rgb(zs[i] as int, lowest(zs@), highest(zs@)),
            ),
{
    let n: usize = zs.len();
    let mut colors: Vec<[u8; 3]> = Vec::new();
    if n == 0 {
        return colors;
    }
    let mut lo: i32 = zs[0];
    let mut hi: i32 = zs[0];
    let mut k: usize = 1;
    assert(zs@.take(1) =~= seq![zs[0]]);
    while k < n
        invariant
            1 <= k <= n,
            n == zs.len(),
            lo == lowest(zs@.take(k as int)),
            hi == highest(zs@.take(k as int)),
        decreases n - k,
    {
        let z: i32 = zs[k];
        proof {
            let grown = zs@.take(k + 1);
            assert(grown.drop_last() =~= zs@.take(k as int));
            assert(grown.last() == z);
        }
        if z < lo {
            lo = z;
        }
        if z > hi {
            hi = z;
        }
        k = k + 1;
    }
    proof {
        assert(zs@.take(n as int) =~= zs@);
        lemma_span_is_tight(zs@);
    }
    let span: i64 = (hi as i64) - (lo as i64);
    let mut i: usize = 0;
    while i < n
        invariant
            0 <= i <= n,
            n == zs.len(),
            colors.len() == i,
            lo == lowest(zs@),
            hi == highest(zs@),
            span == hi - lo,
            forall|j: int| 0 <= j < zs.len() ==> lo <= #[trigger] zs[j] <= hi,
            forall|j: int|
                0 <= j < i ==> has_channels(
                    #[trigger] colors[j],
                    elevation_rgb(zs[j] as int, lowest(zs@), highest(zs@)),
                ),
        decreases n - i,
    {
        let z: i32 = zs[i];
        proof {
            lemma_hue_on_wheel(z as int, lo as int, hi as int);
        }
        let hue: i32 = if span <= 0 {
            0
        } else {
            ((360_000 * ((z as i64) - (lo as i64))) / span) as i32
        };
        let rgb: [u8; 3] = hsv_to_rgb(hue, RAMP_SATURATION, RAMP_VALUE);
        colors.push(rgb);
        i = i + 1;
    }
    colors
}

/// How the points of a dataset are coloured.
#[derive(Clone, Copy, Debug)]
pub enum Coloring {
    /// Each point by its elevation within its frame.
    Elevation,
    /// Every point in this one colour.
    Uniform([u8; 3]),
}

/// The colours to send with a frame whose points have the elevations `zs`.
///
/// Under `Elevation` there is one colour for each point, as
/// `elevation_colors` gives them. Under `Uniform` there is the one colour,
/// once, which the viewer applies to every point.
pub fn frame_colors(coloring: &Coloring, zs: &Vec<i32>) -> (colors: Vec<[u8; 3]>)
    ensures
        match *coloring {
            Coloring::Elevation => {
                &&& colors.len() == zs.len()
                &&& forall|i: int|
                    0 <= i < zs.len() ==> has_channels(
                        #[trigger] colors[i],
                        elevation_rgb(zs[i] as int, lowest(zs@), highest(zs@)),
                    )
            },
            Coloring::Uniform(rgb) => colors@ == seq![rgb],
        },
{
    match *coloring {
        Coloring::Elevation => elevation_colors(zs),
        Coloring::Uniform(rgb) => {
            let mut colors: Vec<[u8; 3]> = Vec::new();
            colors.push(rgb);
            colors
        },
    }
}

/// A frame on one level has one colour, that of the hue 0°.
pub proof fn lemma_flat_frame_is_uniform(zs: Seq<i32>, i: int)
    requires
        0 <= i < zs.len(),
        forall|j: int, k: int| 0 <= j < zs.len() && 0 <= k < zs.len() ==> zs[j] == zs[k],
    ensures
        elevation_rgb(zs[i] as int, lowest(zs), highest(zs)) == rgb_of(0, 900, 1000),
{
    lemma_span_is_tight(zs);
    let at_low = choose|j: int| 0 <= j < zs.len() && zs[j] == lowest(zs);
    let at_high = choose|j: int| 0 <= j < zs.len() && zs[j] == highest(zs);
    assert(zs[at_low] == zs[at_high]);
}

} // verus!
