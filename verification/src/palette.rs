//! Palettes: from an iteration count to an opaque RGBA colour.
//!
//! Every formula here is evaluated in exact integer arithmetic, so a channel
//! is the floor of the rational number the formula denotes. Two palettes
//! rest on a logarithm and on sines, which have no such evaluation; for
//! those the caller hands in the evaluated quantities as a [`Tone`].

use vstd::prelude::*;

verus! {

/// The palettes.
#[derive(Clone, Copy, Debug, PartialEq, Eq, Structural)]
pub enum PaintMode {
    /// Shades of grey, lighter the sooner a point escapes.
    Grayscale,
    /// Hue proportional to the iteration count.
    HSL1,
    /// Hue falling with the logarithm of the iteration count.
    HSL2,
    /// Hue proportional to the iteration count plus one.
    HSL3,
    /// Three sine waves of different frequency, one per channel.
    RGB1,
    /// Black through red and yellow to white, by polynomials in the count.
    FIRE,
}

/// The transcendental part of a colour, evaluated by the caller for one
/// iteration count `n` under an iteration cap `max`.
#[derive(Clone, Copy, Debug, PartialEq, Eq, Structural)]
pub struct Tone {
    /// `(1 - log(n) / log(max)) * 240`, truncated. Read by `HSL2` only, and
    /// only for `n >= 1`.
    pub log_hue: u16,
    /// `|sin(9 n)| * 255`, truncated. Read by `RGB1` only.
    pub sine_red: u8,
    /// `|sin(3 n)| * 255`, truncated. Read by `RGB1` only.
    pub sine_green: u8,
    /// `|sin(5 n)| * 255`, truncated. Read by `RGB1` only.
    pub sine_blue: u8,
}

/// The hue that `HSL2` takes where the logarithm has no finite value: the top
/// of the 16-bit range, which is 15 degrees once reduced modulo 360.
pub const SATURATED_HUE: u16 = 65535;

/// The colour of `SATURATED_HUE`: an orange-red.
pub open spec fn saturated_color() -> Seq<u8> {
    seq![255u8, 63u8, 0u8, 255u8]
}

/// Absolute value.
pub open spec fn magnitude(v: int) -> int {
    if v < 0 {
        -v
    } else {
        v
    }
}

/// A number cut to the range of a colour channel.
pub open spec fn clamp_channel(v: int) -> u8 {
    if v < 0 {
        0u8
    } else if v > 255 {
        255u8
    } else {
        v as u8
    }
}

/// An opaque colour as its four bytes: red, green, blue, alpha.
pub open spec fn opaque(red: u8, green: u8, blue: u8) -> Seq<u8> {
    seq![red, green, blue, 255u8]
}

/// Opaque black, the colour of every point that never escaped.
pub open spec fn black() -> Seq<u8> {
    opaque(0, 0, 0)
}

/// Chroma `(1 - |2l - 1|) s` for saturation `s` and lightness `l` given in
/// percent, in units of 1/10000.
pub open spec fn chroma(s: int, l: int) -> int {
    (100 - magnitude(2 * l - 100)) * s
}

/// `1 - |((h / 60) mod 2) - 1|` for a hue `h` in degrees, in units of 1/60.
pub open spec fn hue_ramp(h: int) -> int {
    60 - magnitude(h % 120 - 60)
}

/// The three channels before the lightness offset is added, in units of
/// 1/600000, picked by the 60-degree sector the hue lies in.
pub open spec fn sector_triple(h: int, s: int, l: int) -> (int, int, int) {
    let c: int = 60 * chroma(s, l);
    let x: int = chroma(s, l) * hue_ramp(h);
    let sector: int = (h % 360) / 60;
    if sector == 0 {
        (c, x, 0)
    } else if sector == 1 {
        (x, c, 0)
    } else if sector == 2 {
        (0, c, x)
    } else if sector == 3 {
        (0, x, c)
    } else if sector == 4 {
        (x, 0, c)
    } else {
        (c, 0, x)
    }
}

/// The lightness offset `l - c / 2`, in units of 1/600000.
pub open spec fn lightness_offset(s: int, l: int) -> int {
    6000 * l - 30 * chroma(s, l)
}

/// One channel: the offset added, scaled to 0..=255 and cut to a byte.
pub open spec fn scale_channel(v: int, offset: int) -> u8 {
    clamp_channel(((v + offset) * 255) / 600000)
}

/// HSL to RGB by hue sector, for a hue in degrees, reduced modulo 360, and
/// saturation and lightness in percent.
pub open spec fn spec_hsl_to_rgb(h: int, s: int, l: int) -> Seq<u8> {
    let (r, g, b): (int, int, int) = sector_triple(h % 360, s, l);
    let m: int = lightness_offset(s, l);
    opaque(scale_channel(r, m), scale_channel(g, m), scale_channel(b, m))
}

/// Grey level: `255 - floor(n / max * 255)`.
pub open spec fn gray_level(iterations: int, max_iterations: int) -> int {
    255 - (255 * iterations) / max_iterations
}

/// Hue of `HSL1`: `floor(n / max * 360) mod 360`.
pub open spec fn linear_hue(iterations: int, max_iterations: int) -> int {
    ((360 * iterations) / max_iterations) % 360
}

/// Hue of `HSL3`: `floor((n + 1) / max * 360) mod 360`.
pub open spec fn smooth_hue(iterations: int, max_iterations: int) -> int {
    ((360 * (iterations + 1)) / max_iterations) % 360
}

/// Hue of `HSL2`: the caller's `log_hue`, and `SATURATED_HUE` at a count of
/// zero, whose logarithm is not finite. (Below the cap a count is zero
/// whenever the cap is one, so a cap of one always lands here too.)
pub open spec fn logarithmic_hue(iterations: int, tone: Tone) -> int {
    if iterations == 0 {
        SATURATED_HUE as int
    } else {
        tone.log_hue as int
    }
}

/// Red of `FIRE` before it is held to a channel: `9 (1 - t) t^3 * 255` with
/// `t = n / max`, rounded down.
pub open spec fn fire_red(n: int, max: int) -> int {
    (2295 * (max - n) * n * n * n) / (max * max * max * max)
}

/// Green of `FIRE` before it is held to a channel: `15 (1 - t)^2 t^2 * 255`
/// with `t = n / max`, rounded down.
pub open spec fn fire_green(n: int, max: int) -> int {
    (3825 * (max - n) * (max - n) * n * n) / (max * max * max * max)
}

/// Blue of `FIRE` before it is held to a channel: `8.5 (1 - t)^3 t * 255`
/// with `t = n / max`, rounded down.
pub open spec fn fire_blue(n: int, max: int) -> int {
    (4335 * (max - n) * (max - n) * (max - n) * n) / (2 * (max * max * max * max))
}

/// The colour of an iteration count under a palette.
pub open spec fn spec_map_color(
    iterations: u32,
    max_iterations: u32,
    paint_mode: PaintMode,
    tone: Tone,
) -> Seq<u8> {
    let n: int = iterations as int;
    let max: int = max_iterations as int;
    if iterations >= max_iterations {
        black()
    } else {
        match paint_mode {
            PaintMode::Grayscale => {
                let v: u8 = clamp_channel(gray_level(n, max));
                opaque(v, v, v)
            },
            PaintMode::HSL1 => spec_hsl_to_rgb(linear_hue(n, max), 100, 50),
            PaintMode::HSL2 => spec_hsl_to_rgb(logarithmic_hue(n, tone), 100, 50),
            PaintMode::HSL3 => spec_hsl_to_rgb(smooth_hue(n, max), 100, 50),
            PaintMode::RGB1 => opaque(tone.sine_red, tone.sine_green, tone.sine_blue),
            PaintMode::FIRE => opaque(
                clamp_channel(fire_red(n, max)),
                clamp_channel(fire_green(n, max)),
                clamp_channel(fire_blue(n, max)),
            ),
        }
    }
}

/// Cuts a non-negative number to a colour channel.
fn to_channel(v: u128) -> (byte: u8)
    ensures
        byte == clamp_channel(v as int),
{
    if v > 255 {
        255
    } else {
        v as u8
    }
}

/// One channel of an HSL conversion, from its value before the offset and
/// the offset, both in units of 1/600000.
fn hsl_channel(v: i64, offset: i64) -> (byte: u8)
    requires
        -10_000_000 <= v <= 10_000_000,
        -10_000_000 <= offset <= 10_000_000,
    ensures
        byte == scale_channel(v as int, offset as int),
{
    let scaled: i64 = (v + offset) * 255;
    if scaled < 0 {
        0
    } else {
        let level: u64 = (scaled as u64) / 600000;
        if level > 255 {
            255
        } else {
            level as u8
        }
    }
}

/// Converts a colour from hue, saturation and lightness to opaque RGBA.
///
/// The hue is in degrees and is reduced modulo 360; saturation and lightness
/// are in percent. With chroma `c = (1 - |2l - 1|) s`, secondary
/// `x = c (1 - |((h / 60) mod 2) - 1|)` and offset `m = l - c / 2`, the
/// sector `floor(h / 60)` picks which two channels get `c` and `x`; each
/// channel is then `floor((v + m) * 255)`. Saturation or lightness above 100
/// can push a channel out of range, where it is cut to 0 or 255.
pub fn hsl_to_rgb(h: u16, s: u8, l: u8) -> (rgba: [u8; 4])
    ensures
        rgba@ == spec_hsl_to_rgb(h as int, s as int, l as int),
{
    let hue: i64 = (h % 360) as i64;
    let spread: i64 = 2 * (l as i64) - 100;
    let depth: i64 = 100 - if spread < 0 { -spread } else { spread };
    let swing: i64 = hue % 120 - 60;
    let ramp: i64 = 60 - if swing < 0 { -swing } else { swing };
    assert(-79050 <= depth * s <= 25500) by (nonlinear_arith)
        requires
            -310 <= depth <= 100,
            0 <= s <= 255,
    ;
    let c10k: i64 = depth * (s as i64);
    assert(-4_743_000 <= c10k * ramp <= 1_530_000) by (nonlinear_arith)
        requires
            -79050 <= c10k <= 25500,
            0 <= ramp <= 60,
    ;
    let c: i64 = 60 * c10k;
    let x: i64 = c10k * ramp;
    let m: i64 = 6000 * (l as i64) - 30 * c10k;
    let sector: i64 = hue / 60;
    let (r, g, b): (i64, i64, i64) = if sector == 0 {
        (c, x, 0)
    } else if sector == 1 {
        (x, c, 0)
    } else if sector == 2 {
        (0, c, x)
    } else if sector == 3 {
        (0, x, c)
    } else if sector == 4 {
        (x, 0, c)
    } else {
        (c, 0, x)
    };
    proof {
        assert((h as int % 360) % 360 == h as int % 360);
        assert(c10k == chroma(s as int, l as int));
        assert(ramp == hue_ramp(hue as int));
        assert((r as int, g as int, b as int) == sector_triple(hue as int, s as int, l as int));
    }
    let rgba: [u8; 4] = [hsl_channel(r, m), hsl_channel(g, m), hsl_channel(b, m), 255];
    assert(rgba@ =~= spec_hsl_to_rgb(h as int, s as int, l as int));
    rgba
}

/// `floor(x * y / d^2)`, computed without ever forming `x * y`.
fn scaled_product(x: u128, y: u128, d: u128) -> (q: u128)
    requires
        0 < d < 0x1_0000_0000_0000_0000,
        y <= d,
        x < 0x1_0000_0000_0000_0000_0000,
    ensures
        q == (x * y) / (d * d),
{
    let whole: u128 = x / d;
    let rest: u128 = x % d;
    proof {
        let xi: int = x as int;
        let yi: int = y as int;
        let di: int = d as int;
        let wi: int = whole as int;
        let ri: int = rest as int;
        vstd::arithmetic::div_mod::lemma_fundamental_div_mod(xi, di);
        assert(wi * yi <= xi) by (nonlinear_arith)
            requires
                xi == di * wi + ri,
                0 <= ri,
                0 <= wi,
                0 <= yi <= di,
        ;
        assert(0 <= ri * yi < di * di && di * di <= 0x1_0000_0000_0000_0000
            * 0x1_0000_0000_0000_0000) by (nonlinear_arith)
            requires
                0 <= ri < di,
                0 <= yi <= di,
                di <= 0x1_0000_0000_0000_0000,
        ;
        assert(xi * yi == ri * yi + (wi * yi) * di && 0 <= xi * yi) by (nonlinear_arith)
            requires
                xi == di * wi + ri,
                0 <= xi,
                0 <= yi,
        ;
        vstd::arithmetic::div_mod::lemma_multiply_divide_lt(ri * yi, di, di);
        vstd::arithmetic::div_mod::lemma_hoist_over_denominator(ri * yi, wi * yi, d as nat);
        vstd::arithmetic::div_mod::lemma_div_denominator(xi * yi, di, di);
    }
    (whole * y + (rest * y) / d) / d
}

/// The three channels of `FIRE` for a count below the cap.
fn fire(iterations: u32, max_iterations: u32) -> (rgb: (u8, u8, u8))
    requires
        iterations < max_iterations,
    ensures
        rgb.0 == clamp_channel(fire_red(iterations as int, max_iterations as int)),
        rgb.1 == clamp_channel(fire_green(iterations as int, max_iterations as int)),
        rgb.2 == clamp_channel(fire_blue(iterations as int, max_iterations as int)),
{
    let n: u128 = iterations as u128;
    let max: u128 = max_iterations as u128;
    let left: u128 = max - n;
    proof {
        let ni: int = n as int;
        let mi: int = max as int;
        let li: int = left as int;
        assert(0 < mi * mi < 0x1_0000_0000_0000_0000 && ni * ni <= mi * mi && li * li <= mi * mi
            && 0 <= li * ni <= mi * mi) by (nonlinear_arith)
            requires
                0 <= ni < mi,
                li == mi - ni,
                mi < 0x1_0000_0000,
        ;
    }
    let square: u128 = max * max;
    let cross: u128 = left * n;
    let red: u128 = scaled_product(2295 * cross, n * n, square);
    let green: u128 = scaled_product(3825 * cross, cross, square);
    let twice_blue: u128 = scaled_product(4335 * cross, left * left, square);
    proof {
        let ni: int = n as int;
        let mi: int = max as int;
        let li: int = left as int;
        assert((mi * mi) * (mi * mi) == mi * mi * mi * mi && (2295 * (li * ni)) * (ni * ni) == 2295
            * li * ni * ni * ni && (3825 * (li * ni)) * (li * ni) == 3825 * li * li * ni * ni && (
        4335 * (li * ni)) * (li * li) == 4335 * li * li * li * ni && 0 <= 4335 * li * li * li * ni
            && 0 < mi * mi * mi * mi) by (nonlinear_arith)
            requires
                0 <= ni,
                0 < mi,
                0 <= li,
        ;
        vstd::arithmetic::div_mod::lemma_div_denominator(
            4335 * li * li * li * ni,
            mi * mi * mi * mi,
            2,
        );
        assert((mi * mi * mi * mi) * 2 == 2 * (mi * mi * mi * mi));
    }
    (to_channel(red), to_channel(green), to_channel(twice_blue / 2))
}

/// `SATURATED_HUE` at full saturation and half lightness is
/// `saturated_color`.
proof fn lemma_saturated_color()
    ensures
        spec_hsl_to_rgb(SATURATED_HUE as int, 100, 50) == saturated_color(),
{
    assert(chroma(100, 50) == 10000);
    assert(hue_ramp(15) == 15);
    assert(chroma(100, 50) * hue_ramp(15) == 150000);
    assert(sector_triple(15, 100, 50) == (600000int, 150000int, 0int));
    assert(spec_hsl_to_rgb(65535, 100, 50) =~= saturated_color());
}

/// Maps an iteration count to an opaque RGBA colour.
///
/// A count at or above the cap is black under every palette. Below the cap,
/// with `n` the count and `max` the cap:
/// - `Grayscale`: all three channels `255 - floor(n / max * 255)`;
/// - `HSL1`: hue `floor(n / max * 360) mod 360`, saturation 100, lightness 50;
/// - `HSL2`: hue `tone.log_hue`, saturation 100, lightness 50; at `n = 0`,
///   where the logarithm is not finite, the hue is `SATURATED_HUE` whatever
///   the tone says, which gives `saturated_color`; that covers every count
///   below a cap of one;
/// - `HSL3`: hue `floor((n + 1) / max * 360) mod 360`, saturation 100,
///   lightness 50;
/// - `RGB1`: the three sine channels of the tone;
/// - `FIRE`: with `t = n / max`, red `9 (1 - t) t^3 * 255`, green
///   `15 (1 - t)^2 t^2 * 255`, blue `8.5 (1 - t)^3 t * 255`, each floored and
///   held to at most 255.
pub fn map_color(iterations: u32, max_iterations: u32, paint_mode: PaintMode, tone: Tone) -> (rgba:
    [u8; 4])
    ensures
        rgba@ == spec_map_color(iterations, max_iterations, paint_mode, tone),
        iterations >= max_iterations ==> rgba@ == black(),
        paint_mode == PaintMode::HSL2 && iterations == 0 && max_iterations >= 1 ==> rgba@
            == saturated_color(),
        rgba[3] == 255,
{
    if iterations >= max_iterations {
        let rgba: [u8; 4] = [0, 0, 0, 255];
        assert(rgba@ =~= black());
        return rgba;
    }
    let n: u64 = iterations as u64;
    let max: u64 = max_iterations as u64;
    let rgba: [u8; 4] = match paint_mode {
        PaintMode::Grayscale => {
            proof {
                vstd::arithmetic::div_mod::lemma_multiply_divide_lt(255 * n, max as int, 255);
            }
            let fade: u64 = (255 * n) / max;
            let v: u8 = (255 - fade) as u8;
            [v, v, v, 255]
        },
        PaintMode::HSL1 => {
            proof {
                vstd::arithmetic::div_mod::lemma_multiply_divide_lt(360 * n, max as int, 360);
            }
            let hue: u64 = ((360 * n) / max) % 360;
            hsl_to_rgb(hue as u16, 100, 50)
        },
        PaintMode::HSL2 => {
            let hue: u16 = if iterations == 0 {
                SATURATED_HUE
            } else {
                tone.log_hue
            };
            proof {
                lemma_saturated_color();
            }
            hsl_to_rgb(hue, 100, 50)
        },
        PaintMode::HSL3 => {
            let hue: u64 = ((360 * (n + 1)) / max) % 360;
            hsl_to_rgb(hue as u16, 100, 50)
        },
        PaintMode::RGB1 => [tone.sine_red, tone.sine_green, tone.sine_blue, 255],
        PaintMode::FIRE => {
            let (red, green, blue): (u8, u8, u8) = fire(iterations, max_iterations);
            [red, green, blue, 255]
        },
    };
    assert(rgba@ =~= spec_map_color(iterations, max_iterations, paint_mode, tone));
    rgba
}

} // verus!
