//! Colors, and the overlays that are blended into the canvas.

use vstd::prelude::*;
use vstd::arithmetic::div_mod::lemma_mod_multiples_basic;
use vstd::arithmetic::power2::{
    lemma2_to64, lemma_pow2_adds, lemma_pow2_pos, lemma_pow2_unfold, pow2,
};

verus! {

/// A color with an alpha channel.
#[derive(Debug, Clone, Copy, PartialEq, Eq, Structural)]
pub struct RGBA {
    pub r: u8,
    pub g: u8,
    pub b: u8,
    pub a: u8,
}

/// The first number that has more bits than a single precision mantissa.
pub const MANTISSA: u128 = 0x100_0000;

/// The color of an empty canvas.
pub open spec fn transparent() -> RGBA {
    RGBA { r: 0, g: 0, b: 0, a: 0 }
}

/// A foreground channel over a background channel, in units of 1/255.
pub open spec fn mix(alpha: u8, foreground: u8, background: u8) -> nat {
    (alpha * foreground + (255 - alpha) * background) as nat
}

/// The integer nearest to `n / d`; the even one where two are equally near.
pub open spec fn nearest(n: nat, d: nat) -> nat {
    if 2 * (n % d) < d || (2 * (n % d) == d && (n / d) % 2 == 0) {
        n / d
    } else {
        n / d + 1
    }
}

/// The distance of neighboring single precision numbers around `n`; 1 where they are
/// closer than that.
pub open spec fn spacing(n: nat) -> nat
    decreases n,
{
    if n < MANTISSA {
        1
    } else {
        2 * spacing(n / 2)
    }
}

/// The single precision number nearest to the integer `n`.
pub open spec fn single(n: nat) -> nat {
    nearest(n, spacing(n)) * spacing(n)
}

/// How many single precision numbers share an integer part around `n / 100`.
pub open spec fn resolution(n: nat) -> nat
    decreases 100 * MANTISSA - n,
{
    if n == 0 || 2 * n >= 100 * MANTISSA {
        1
    } else {
        2 * resolution(2 * n)
    }
}

/// The integer part of the single precision number nearest to `n / 100`.
pub open spec fn single_percent(n: nat) -> nat {
    if n >= 100 * MANTISSA {
        nearest(n, 100 * spacing(n / 100)) * spacing(n / 100)
    } else {
        nearest(n * resolution(n), 100) / resolution(n)
    }
}

/// A mixed channel at a brightness in percent, reduced to 8 bits. All intermediate
/// results have single precision; the integer that is reduced has at most 32 bits.
pub open spec fn dimmed(mixed: nat, brightness: int) -> u8 {
    if brightness <= 0 {
        0
    } else {
        let level = single_percent(single(mixed * single(brightness as nat)));
        let level = if level > u32::MAX {
            u32::MAX as nat
        } else {
            level
        };
        ((level / 256) % 256) as u8
    }
}

/// A pixel of an overlay over a pixel of the canvas.
pub open spec fn blended(foreground: RGBA, background: RGBA, brightness: int) -> RGBA {
    RGBA {
        r: dimmed(mix(foreground.a, foreground.r, background.r), brightness),
        g: dimmed(mix(foreground.a, foreground.g, background.g), brightness),
        b: dimmed(mix(foreground.a, foreground.b, background.b), brightness),
        a: foreground.a,
    }
}

/// A canvas of the same size with nothing on it.
pub open spec fn cleared(canvas: Seq<RGBA>) -> Seq<RGBA> {
    Seq::new(canvas.len(), |i: int| transparent())
}

/// A canvas with an overlay blended into it, pixel by pixel.
pub open spec fn overlaid(canvas: Seq<RGBA>, overlay: Seq<RGBA>, brightness: int) -> Seq<RGBA> {
    Seq::new(canvas.len(), |i: int| blended(overlay[i], canvas[i], brightness))
}

proof fn lemma_mix_bound(alpha: u8, foreground: u8, background: u8)
    ensures
        mix(alpha, foreground, background) <= 65025,
        0 <= alpha * foreground,
        0 <= (255 - alpha) * background,
{
    assert(0 <= alpha * foreground <= alpha * 255) by (nonlinear_arith)
        requires
            0 <= alpha,
            0 <= foreground <= 255,
    ;
    assert(0 <= (255 - alpha) * background <= (255 - alpha) * 255) by (nonlinear_arith)
        requires
            alpha <= 255,
            0 <= background <= 255,
    ;
}

proof fn lemma_spacing(n: nat)
    ensures
        1 <= spacing(n),
        n >= MANTISSA ==> spacing(n) * 0x80_0000 <= n,
    decreases n,
{
    if n >= MANTISSA {
        lemma_spacing(n / 2);
        if n / 2 < MANTISSA {
            assert(spacing(n / 2) == 1);
        }
    }
}

/// Rounding to single precision at most doubles a number.
proof fn lemma_single_bound(n: nat)
    ensures
        single(n) <= 2 * n,
        n < MANTISSA ==> single(n) == n,
        n > 0 ==> single(n) > 0,
{
    lemma_spacing(n);
    let unit = spacing(n);
    let quotient = n / unit;
    assert(quotient * unit <= n && (quotient + 1) * unit <= n + unit) by (nonlinear_arith)
        requires
            unit >= 1,
            quotient == n / unit,
    ;
    if n < MANTISSA {
        assert(unit == 1);
        assert(n % 1 == 0);
        assert(n / 1 == n);
        assert(single(n) == n * 1);
    } else {
        assert(quotient >= 1) by (nonlinear_arith)
            requires
                quotient == n / unit,
                unit >= 1,
                unit * 0x80_0000 <= n,
        ;
        assert(nearest(n, unit) * unit >= 1) by (nonlinear_arith)
            requires
                nearest(n, unit) >= 1,
                unit >= 1,
        ;
        assert(nearest(n, unit) * unit <= (quotient + 1) * unit) by (nonlinear_arith)
            requires
                nearest(n, unit) <= quotient + 1,
                unit >= 1,
        ;
    }
}

proof fn lemma_resolution(n: nat)
    requires
        n < 100 * MANTISSA,
    ensures
        1 <= resolution(n),
        n * resolution(n) < 100 * MANTISSA,
    decreases 100 * MANTISSA - n,
{
    if n == 0 || 2 * n >= 100 * MANTISSA {
        assert(n * 1 == n);
    } else {
        lemma_resolution(2 * n);
        let finer = resolution(2 * n);
        assert(n * (2 * finer) == (2 * n) * finer) by (nonlinear_arith);
    }
}

/// Small numbers leave at least 64 steps between two integers.
proof fn lemma_resolution_small(n: nat)
    requires
        0 < n < MANTISSA,
    ensures
        resolution(n) >= 64,
{
    reveal_with_fuel(resolution, 7);
    assert(n * 32 < 100 * MANTISSA);
    lemma_resolution(64 * n);
    assert(resolution(n) == 64 * resolution(64 * n));
}

/// A product that fits in a mantissa is divided exactly: rounding the quotient never
/// reaches the next integer.
proof fn lemma_percent_exact(n: nat)
    requires
        n < MANTISSA,
    ensures
        single_percent(n) == n / 100,
{
    if n == 0 {
        assert(resolution(0) == 1);
    } else {
        lemma_resolution_small(n);
        let scale = resolution(n);
        let scaled = n * scale;
        let floor = scaled / 100;
        let rest = scaled % 100;
        let whole = n / 100;
        let part = n % 100;
        let rounded = nearest(scaled, 100);
        assert(n == 100 * whole + part);
        assert(scaled == 100 * (whole * scale) + part * scale) by (nonlinear_arith)
            requires
                n == 100 * whole + part,
                scaled == n * scale,
        ;
        assert(0 <= part * scale <= 99 * scale) by (nonlinear_arith)
            requires
                0 <= part <= 99,
                scale >= 64,
        ;
        assert(whole * scale <= rounded);
        assert(rounded < whole * scale + scale);
        assert(rounded / scale == whole) by (nonlinear_arith)
            requires
                scale >= 64,
                whole * scale <= rounded,
                rounded < whole * scale + scale,
        ;
    }
}

/// Up to a brightness of 258 percent every step of the computation is exact.
pub proof fn law_dimming_is_exact(mixed: nat, brightness: int)
    requires
        mixed <= 65025,
        0 <= brightness <= 258,
    ensures
        dimmed(mixed, brightness) == ((mixed * brightness / 100) / 256) % 256,
{
    let product = mixed * brightness;
    assert(0 <= product <= 65025 * 258) by (nonlinear_arith)
        requires
            product == mixed * brightness,
            0 <= mixed <= 65025,
            0 <= brightness <= 258,
    ;
    if brightness == 0 {
        assert(product == 0);
    } else {
        lemma_single_bound(brightness as nat);
        lemma_single_bound(product as nat);
        lemma_percent_exact(product as nat);
    }
}

/// At a brightness of at most 100 percent no channel gets brighter than the brighter one
/// of the two that are blended.
pub proof fn law_blending_never_brightens(
    alpha: u8,
    foreground: u8,
    background: u8,
    brightness: int,
)
    requires
        brightness <= 100,
    ensures
        dimmed(mix(alpha, foreground, background), brightness) <= foreground || dimmed(
            mix(alpha, foreground, background),
            brightness,
        ) <= background,
{
    let mixed = mix(alpha, foreground, background);
    lemma_mix_bound(alpha, foreground, background);
    if brightness > 0 {
        law_dimming_is_exact(mixed, brightness);
        let top: int = if foreground >= background {
            foreground as int
        } else {
            background as int
        };
        assert(mixed <= 255 * top) by (nonlinear_arith)
            requires
                mixed == alpha * foreground + (255 - alpha) * background,
                0 <= alpha <= 255,
                foreground <= top,
                background <= top,
        ;
        assert(mixed * brightness <= mixed * 100) by (nonlinear_arith)
            requires
                brightness <= 100,
                mixed >= 0,
        ;
        assert(0 <= mixed * brightness) by (nonlinear_arith)
            requires
                brightness > 0,
                mixed >= 0,
        ;
        assert(mixed * brightness / 100 <= mixed);
        assert(mixed * brightness / 100 / 256 <= top);
    }
}

/// An opaque pixel hides the canvas below it, and a fully transparent one shows nothing
/// of its own colors.
pub proof fn law_alpha_extremes(foreground: RGBA, one: RGBA, other: RGBA, brightness: int)
    ensures
        foreground.a == 255 ==> blended(foreground, one, brightness) == blended(
            foreground,
            other,
            brightness,
        ),
        one.a == 0 && other.a == 0 ==> blended(one, foreground, brightness) == blended(
            other,
            foreground,
            brightness,
        ),
{
}

/// Up to 100 percent neither a higher brightness nor a brighter channel makes the result
/// darker.
pub proof fn law_dimming_is_monotonic(dark: nat, bright: nat, low: int, high: int)
    requires
        dark <= bright <= 65025,
        low <= high <= 100,
    ensures
        dimmed(dark, low) <= dimmed(bright, high),
{
    if low > 0 {
        law_dimming_is_exact(dark, low);
        law_dimming_is_exact(bright, high);
        assert(0 <= dark * low <= bright * high <= 65025 * 100) by (nonlinear_arith)
            requires
                0 < low <= high <= 100,
                0 <= dark <= bright <= 65025,
        ;
    }
}

/// Is no channel of a color brighter than that of another one, at the same alpha?
pub open spec fn no_brighter(one: RGBA, other: RGBA) -> bool {
    one.r <= other.r && one.g <= other.g && one.b <= other.b && one.a == other.a
}

/// Is no pixel of a canvas brighter than that of another one?
pub open spec fn nowhere_brighter(one: Seq<RGBA>, other: Seq<RGBA>) -> bool {
    one.len() == other.len() && forall|i: int|
        0 <= i < one.len() ==> no_brighter(#[trigger] one[i], other[i])
}

/// A brighter background never makes a mix darker.
proof fn lemma_mix_monotonic(alpha: u8, foreground: u8, dark: u8, bright: u8)
    requires
        dark <= bright,
    ensures
        mix(alpha, foreground, dark) <= mix(alpha, foreground, bright) <= 65025,
{
    lemma_mix_bound(alpha, foreground, dark);
    lemma_mix_bound(alpha, foreground, bright);
    assert((255 - alpha) * dark <= (255 - alpha) * bright) by (nonlinear_arith)
        requires
            alpha <= 255,
            dark <= bright,
    ;
}

/// Up to 100 percent neither a higher brightness nor a brighter canvas makes a pixel darker
/// that an overlay is blended into.
pub proof fn law_overlay_is_monotonic(
    dark: Seq<RGBA>,
    bright: Seq<RGBA>,
    overlay: Seq<RGBA>,
    low: int,
    high: int,
)
    requires
        nowhere_brighter(dark, bright),
        low <= high <= 100,
    ensures
        nowhere_brighter(overlaid(dark, overlay, low), overlaid(bright, overlay, high)),
{
    let one = overlaid(dark, overlay, low);
    let other = overlaid(bright, overlay, high);
    assert forall|i: int| 0 <= i < one.len() implies no_brighter(#[trigger] one[i], other[i]) by {
        let top = overlay[i];
        assert(no_brighter(dark[i], bright[i]));
        lemma_mix_monotonic(top.a, top.r, dark[i].r, bright[i].r);
        lemma_mix_monotonic(top.a, top.g, dark[i].g, bright[i].g);
        lemma_mix_monotonic(top.a, top.b, dark[i].b, bright[i].b);
        law_dimming_is_monotonic(
            mix(top.a, top.r, dark[i].r),
            mix(top.a, top.r, bright[i].r),
            low,
            high,
        );
        law_dimming_is_monotonic(
            mix(top.a, top.g, dark[i].g),
            mix(top.a, top.g, bright[i].g),
            low,
            high,
        );
        law_dimming_is_monotonic(
            mix(top.a, top.b, dark[i].b),
            mix(top.a, top.b, bright[i].b),
            low,
            high,
        );
    }
}

fn nearest_quotient(n: u128, d: u128) -> (result: u128)
    requires
        0 < d <= u128::MAX / 4,
        n < u128::MAX,
    ensures
        result == nearest(n as nat, d as nat),
{
    let quotient = n / d;
    let rest = n % d;
    assert(quotient <= n) by (nonlinear_arith)
        requires
            quotient == n as int / d as int,
            d >= 1,
            n >= 0,
    ;
    if 2 * rest < d || (2 * rest == d && quotient % 2 == 0) {
        quotient
    } else {
        quotient + 1
    }
}

fn find_spacing(n: u128) -> (result: u128)
    ensures
        result == spacing(n as nat),
        result <= n || result == 1,
{
    let mut rest: u128 = n;
    let mut result: u128 = 1;
    while rest >= MANTISSA
        invariant
            result >= 1,
            result * spacing(rest as nat) == spacing(n as nat),
            result * rest <= n,
            result <= n || result == 1,
        decreases rest,
    {
        let ghost before = spacing((rest / 2) as nat);
        assert(result * (2 * before) == (2 * result) * before) by (nonlinear_arith);
        assert(2 * result <= n && (2 * result) * (rest / 2) <= n) by (nonlinear_arith)
            requires
                result * rest <= n,
                result >= 1,
                rest >= 2,
        ;
        result = 2 * result;
        rest = rest / 2;
    }
    assert(result * 1 == result);
    result
}

fn find_resolution(n: u128) -> (result: u128)
    requires
        n < 100 * MANTISSA,
    ensures
        result == resolution(n as nat),
        1 <= result,
        n * result < 100 * MANTISSA,
{
    proof {
        lemma_resolution(n as nat);
    }
    let mut scaled: u128 = n;
    let mut result: u128 = 1;
    while scaled != 0 && 2 * scaled < 100 * MANTISSA
        invariant
            n < 100 * MANTISSA,
            result >= 1,
            scaled == n * result,
            scaled < 100 * MANTISSA,
            n == 0 ==> result == 1,
            result * resolution(scaled as nat) == resolution(n as nat),
        decreases 100 * MANTISSA - scaled,
    {
        let ghost finer = resolution((2 * scaled) as nat);
        assert(result * (2 * finer) == (2 * result) * finer) by (nonlinear_arith);
        assert(n * (2 * result) == 2 * scaled) by (nonlinear_arith)
            requires
                scaled == n * result,
        ;
        assert(result <= scaled) by (nonlinear_arith)
            requires
                scaled == n * result,
                scaled != 0,
                n >= 0,
                result >= 1,
        ;
        result = 2 * result;
        scaled = 2 * scaled;
    }
    assert(result * 1 == result);
    result
}

fn to_single(n: u128) -> (result: u128)
    requires
        n < u128::MAX / 4,
    ensures
        result == single(n as nat),
{
    let unit = find_spacing(n);
    proof {
        lemma_spacing(n as nat);
        lemma_single_bound(n as nat);
    }
    nearest_quotient(n, unit) * unit
}

fn to_single_percent(n: u128) -> (result: u128)
    requires
        n < u128::MAX / 1024,
    ensures
        result == single_percent(n as nat),
{
    if n >= 100 * MANTISSA {
        let unit = find_spacing(n / 100);
        proof {
            lemma_spacing((n / 100) as nat);
            let d = 100 * unit;
            let q = nearest(n as nat, d as nat);
            assert(q * unit <= n + d) by (nonlinear_arith)
                requires
                    d == 100 * unit,
                    unit >= 1,
                    q <= n as int / d as int + 1,
            ;
        }
        nearest_quotient(n, 100 * unit) * unit
    } else {
        let scale = find_resolution(n);
        nearest_quotient(n * scale, 100) / scale
    }
}

/// Dims a mixed channel to a brightness in percent.
pub fn dim(mixed: u32, brightness: i64) -> (result: u8)
    requires
        mixed <= 65025,
    ensures
        result == dimmed(mixed as nat, brightness as int),
{
    if brightness <= 0 {
        return 0;
    }
    if brightness <= 258 {
        proof {
            law_dimming_is_exact(mixed as nat, brightness as int);
            assert(0 <= mixed * brightness <= 65025 * 258) by (nonlinear_arith)
                requires
                    0 <= mixed <= 65025,
                    0 <= brightness <= 258,
            ;
        }
        return (((mixed * brightness as u32) / 100 / 256) % 256) as u8;
    }
    proof {
        lemma_single_bound(brightness as nat);
    }
    let factor = to_single(brightness as u128);
    proof {
        assert(0 <= mixed * factor <= 65025 * 0x1_0000_0000_0000_0000) by (nonlinear_arith)
            requires
                0 <= mixed <= 65025,
                0 <= factor <= 0x1_0000_0000_0000_0000,
        ;
        lemma_single_bound((mixed * factor) as nat);
    }
    let level = to_single_percent(to_single(mixed as u128 * factor));
    let level: u128 = if level > u32::MAX as u128 {
        u32::MAX as u128
    } else {
        level
    };
    ((level / 256) % 256) as u8
}

/// Mixes two channels.
pub fn mix_channels(alpha: u8, foreground: u8, background: u8) -> (mixed: u32)
    ensures
        mixed == mix(alpha, foreground, background),
        mixed <= 65025,
{
    proof {
        lemma_mix_bound(alpha, foreground, background);
    }
    alpha as u32 * foreground as u32 + (255 - alpha) as u32 * background as u32
}

/// Blends a pixel of an overlay with the pixel of the canvas below it.
pub fn blend_pixel(foreground: RGBA, background: RGBA, brightness: i64) -> (pixel: RGBA)
    ensures
        pixel == blended(foreground, background, brightness as int),
{
    RGBA {
        r: dim(mix_channels(foreground.a, foreground.r, background.r), brightness),
        g: dim(mix_channels(foreground.a, foreground.g, background.g), brightness),
        b: dim(mix_channels(foreground.a, foreground.b, background.b), brightness),
        a: foreground.a,
    }
}

/// Blends an overlay into the canvas, pixel by pixel. The overlay covers the canvas.
pub fn blend_overlay(canvas: &mut Vec<RGBA>, overlay: &Vec<RGBA>, brightness: i64)
    requires
        old(canvas)@.len() <= overlay@.len(),
    ensures
        final(canvas)@ == overlaid(old(canvas)@, overlay@, brightness as int),
{
    let mut i: usize = 0;
    while i < canvas.len()
        invariant
            i <= canvas@.len() == old(canvas)@.len() <= overlay@.len(),
            forall|j: int|
                0 <= j < i ==> canvas@[j] == blended(
                    overlay@[j],
                    old(canvas)@[j],
                    brightness as int,
                ),
            forall|j: int| i <= j < canvas@.len() ==> canvas@[j] == old(canvas)@[j],
        decreases canvas@.len() - i,
    {
        let pixel = blend_pixel(overlay[i], canvas[i], brightness);
        canvas.set(i, pixel);
        i += 1;
    }
}

/// Clears the canvas.
pub fn clear_canvas(canvas: &mut Vec<RGBA>)
    ensures
        final(canvas)@ == cleared(old(canvas)@),
{
    let mut i: usize = 0;
    while i < canvas.len()
        invariant
            i <= canvas@.len() == old(canvas)@.len(),
            forall|j: int| 0 <= j < i ==> canvas@[j] == transparent(),
        decreases canvas@.len() - i,
    {
        canvas.set(i, RGBA { r: 0, g: 0, b: 0, a: 0 });
        i += 1;
    }
}

/// Copies the canvas into the map of the frame that was rendered last.
pub fn copy_canvas(target: &mut Vec<RGBA>, canvas: &Vec<RGBA>)
    requires
        old(target)@.len() == canvas@.len(),
    ensures
        final(target)@ == canvas@,
{
    let mut i: usize = 0;
    while i < canvas.len()
        invariant
            i <= canvas@.len() == target@.len(),
            forall|j: int| 0 <= j < i ==> target@[j] == canvas@[j],
        decreases canvas@.len() - i,
    {
        target.set(i, canvas[i]);
        i += 1;
    }
    assert(target@ =~= canvas@);
}

/// Up to a brightness of 258 percent each channel is the mean of the two channels, weighted by
/// the alpha of the foreground, at that brightness and without its fraction. At no brightness or
/// less it is black. The foreground keeps its alpha.
pub proof fn law_blending_weighs_by_alpha(foreground: RGBA, background: RGBA, brightness: int)
    requires
        brightness <= 258,
    ensures
        ({
            let pixel = blended(foreground, background, brightness);
            let level = if brightness < 0 {
                0
            } else {
                brightness
            };
            let below = 255 - foreground.a;
            &&& pixel.r == (foreground.a * foreground.r + below * background.r) * level / 100 / 256
                % 256
            &&& pixel.g == (foreground.a * foreground.g + below * background.g) * level / 100 / 256
                % 256
            &&& pixel.b == (foreground.a * foreground.b + below * background.b) * level / 100 / 256
                % 256
            &&& pixel.a == foreground.a
        }),
{
    lemma_mix_bound(foreground.a, foreground.r, background.r);
    lemma_mix_bound(foreground.a, foreground.g, background.g);
    lemma_mix_bound(foreground.a, foreground.b, background.b);
    if brightness >= 0 {
        law_dimming_is_exact(mix(foreground.a, foreground.r, background.r), brightness);
        law_dimming_is_exact(mix(foreground.a, foreground.g, background.g), brightness);
        law_dimming_is_exact(mix(foreground.a, foreground.b, background.b), brightness);
    }
}

/// At any brightness each channel is dimmed on its own, and depends on nothing but the alpha of
/// the foreground and that channel of the two pixels.
pub proof fn law_channels_are_dimmed_alone(
    foreground: RGBA,
    background: RGBA,
    brightness: i64,
    pixel: RGBA,
)
    requires
        call_ensures(blend_pixel, (foreground, background, brightness), pixel),
    ensures
        ({
            let over = foreground.a as nat;
            let below = (255 - foreground.a) as nat;
            let level = brightness as int;
            &&& pixel.r == dimmed(over * foreground.r as nat + below * background.r as nat, level)
            &&& pixel.g == dimmed(over * foreground.g as nat + below * background.g as nat, level)
            &&& pixel.b == dimmed(over * foreground.b as nat + below * background.b as nat, level)
            &&& pixel.a == foreground.a
        }),
{
    lemma_mix_bound(foreground.a, foreground.r, background.r);
    lemma_mix_bound(foreground.a, foreground.g, background.g);
    lemma_mix_bound(foreground.a, foreground.b, background.b);
}

/// An overlay changes each pixel of the canvas by the pixel at the same place, and no other
/// one. Clearing leaves nothing in any channel.
pub proof fn law_canvas_changes_pixel_by_pixel(
    canvas: Seq<RGBA>,
    overlay: Seq<RGBA>,
    brightness: int,
    i: int,
)
    requires
        0 <= i < canvas.len(),
    ensures
        overlaid(canvas, overlay, brightness).len() == canvas.len(),
        overlaid(canvas, overlay, brightness)[i] == blended(overlay[i], canvas[i], brightness),
        cleared(canvas).len() == canvas.len(),
        cleared(canvas)[i].r == 0 && cleared(canvas)[i].g == 0 && cleared(canvas)[i].b == 0
            && cleared(canvas)[i].a == 0,
{
}

/// The difference of two numbers.
pub open spec fn gap(a: int, b: int) -> int {
    if a >= b {
        a - b
    } else {
        b - a
    }
}

/// A whole multiple of a power of two.
pub open spec fn scaled(q: nat, e: nat) -> nat {
    q * pow2(e)
}

/// Is `num / den` nearer to `target_num / target_den` than `a / b` is, or as near and, in units
/// of the distance between the two, even?
pub open spec fn preferred(
    num: nat,
    den: nat,
    a: nat,
    b: nat,
    target_num: nat,
    target_den: nat,
) -> bool {
    let here = gap((num * target_den) as int, (target_num * den) as int) * b;
    let there = gap((a * target_den) as int, (target_num * b) as int) * den;
    here < there || (here == there && (num * b == a * den || (num * b) as int % (2 * gap(
        (num * b) as int,
        (a * den) as int,
    )) == 0))
}

/// Is `num / den` the single precision number nearest to `target_num / target_den`? Single
/// precision numbers have 24 significant bits: they are the multiples of powers of two, and of
/// their inverses, by at most the 24th power of two.
pub open spec fn is_nearest_single(num: nat, den: nat, target_num: nat, target_den: nat) -> bool {
    &&& den > 0
    &&& exists|q: nat, e: nat, k: nat|
        #![trigger scaled(q, e), pow2(k)]
        q <= 0x100_0000 && num * pow2(k) == scaled(q, e) * den
    &&& forall|q: nat, e: nat, k: nat|
        #![trigger scaled(q, e), pow2(k)]
        q <= 0x100_0000 ==> preferred(num, den, scaled(q, e), pow2(k), target_num, target_den)
}

/// No other multiple is nearer, and one that is as near is a neighbor of an even one.
proof fn lemma_nearest(a: nat, b: nat, m: nat)
    requires
        b > 0,
    ensures
        ({
            let s = nearest(a, b);
            &&& gap((s * b) as int, a as int) <= gap((m * b) as int, a as int)
            &&& gap((s * b) as int, a as int) == gap((m * b) as int, a as int) && m != s ==> s % 2
                == 0 && (m == s + 1 || m + 1 == s)
        }),
{
    let quotient = a / b;
    let rest = a % b;
    assert(a == quotient * b + rest && rest < b) by (nonlinear_arith)
        requires
            b > 0,
            quotient == a / b,
            rest == a % b,
    ;
    assert((quotient + 1) * b == quotient * b + b) by (nonlinear_arith);
    if m < quotient {
        assert(m * b <= quotient * b - b) by (nonlinear_arith)
            requires
                m + 1 <= quotient,
        ;
    } else if m > quotient + 1 {
        assert(m * b >= quotient * b + 2 * b) by (nonlinear_arith)
            requires
                m >= quotient + 2,
        ;
    } else {
        assert(m == quotient || m == quotient + 1);
    }
}

proof fn lemma_gap_scales(a: int, b: int, c: int)
    requires
        c >= 0,
    ensures
        gap(a, b) * c == gap(a * c, b * c),
{
    if a >= b {
        assert(a * c >= b * c && (a - b) * c == a * c - b * c) by (nonlinear_arith)
            requires
                a >= b,
                c >= 0,
        ;
    } else {
        assert(a * c <= b * c && (b - a) * c == b * c - a * c) by (nonlinear_arith)
            requires
                a < b,
                c >= 0,
        ;
    }
}

/// The nearest multiple of `unit / scale` is preferred to every other multiple of it.
proof fn lemma_preferred_multiple(
    t: nat,
    d: nat,
    unit: nat,
    scale: nat,
    a: nat,
    b: nat,
    m: nat,
)
    requires
        d > 0,
        unit > 0,
        scale > 0,
        b > 0,
        a * scale == m * (unit * b),
    ensures
        preferred(nearest(t * scale, d * unit) * unit, scale, a, b, t, d),
{
    let s = nearest(t * scale, d * unit);
    let step = d * unit;
    let target = t * scale;
    assert(step > 0) by (nonlinear_arith)
        requires
            step == d * unit,
            d > 0,
            unit > 0,
    ;
    lemma_nearest(target, step, m);
    let g_s = gap((s * step) as int, target as int);
    let g_m = gap((m * step) as int, target as int);
    assert((s * unit) * d == s * step) by (nonlinear_arith)
        requires
            step == d * unit,
    ;
    assert((a * d) * scale == (m * step) * b) by (nonlinear_arith)
        requires
            step == d * unit,
            a * scale == m * (unit * b),
    ;
    assert((t * b) * scale == target * b) by (nonlinear_arith)
        requires
            target == t * scale,
    ;
    lemma_gap_scales((a * d) as int, (t * b) as int, scale as int);
    lemma_gap_scales((m * step) as int, target as int, b as int);
    let here = gap(((s * unit) * d) as int, (t * scale) as int) * b;
    let there = gap((a * d) as int, (t * b) as int) * scale;
    assert(here == g_s * b);
    assert(there == g_m * b);
    if g_s < g_m {
        assert(g_s * b < g_m * b) by (nonlinear_arith)
            requires
                g_s < g_m,
                b > 0,
        ;
    } else if s == m {
        assert((s * unit) * b == a * scale) by (nonlinear_arith)
            requires
                a * scale == m * (unit * b),
                s == m,
        ;
    } else {
        let cell = unit * b;
        assert((s * unit) * b == s * cell) by (nonlinear_arith)
            requires
                cell == unit * b,
        ;
        assert(cell > 0) by (nonlinear_arith)
            requires
                cell == unit * b,
                unit > 0,
                b > 0,
        ;
        assert((s + 1) * cell == s * cell + cell && (s - 1) * cell == s * cell - cell)
            by (nonlinear_arith);
        assert(gap((s * cell) as int, (m * cell) as int) == cell);
        let half = s / 2;
        assert(s == 2 * half);
        assert(s * cell == half * (2 * cell)) by (nonlinear_arith)
            requires
                s == 2 * half,
        ;
        lemma_mod_multiples_basic(half as int, 2 * cell as int);
    }
}

/// The nearest multiple of `unit / scale` is preferred to every number that is below one of the
/// multiples which do not exceed the target.
proof fn lemma_preferred_small(
    t: nat,
    d: nat,
    unit: nat,
    scale: nat,
    a: nat,
    b: nat,
    m: nat,
)
    requires
        d > 0,
        unit > 0,
        scale > 0,
        b > 0,
        a * scale < m * (unit * b),
        m * (d * unit) <= t * scale,
    ensures
        preferred(nearest(t * scale, d * unit) * unit, scale, a, b, t, d),
{
    let s = nearest(t * scale, d * unit);
    let step = d * unit;
    let target = t * scale;
    assert(step > 0) by (nonlinear_arith)
        requires
            step == d * unit,
            d > 0,
            unit > 0,
    ;
    lemma_nearest(target, step, m);
    let g_s = gap((s * step) as int, target as int);
    let g_m = gap((m * step) as int, target as int);
    assert((s * unit) * d == s * step) by (nonlinear_arith)
        requires
            step == d * unit,
    ;
    assert((a * d) * scale < (m * step) * b) by (nonlinear_arith)
        requires
            step == d * unit,
            a * scale < m * (unit * b),
            d > 0,
    ;
    assert((m * step) * b <= target * b) by (nonlinear_arith)
        requires
            m * step <= target,
            b > 0,
    ;
    assert((t * b) * scale == target * b) by (nonlinear_arith)
        requires
            target == t * scale,
    ;
    lemma_gap_scales((a * d) as int, (t * b) as int, scale as int);
    lemma_gap_scales((m * step) as int, target as int, b as int);
    assert(g_s * b <= g_m * b) by (nonlinear_arith)
        requires
            g_s <= g_m,
            b > 0,
    ;
}

/// Powers of two compare as their exponents do: every single precision number is a multiple of
/// `unit / scale` or small.
proof fn lemma_preferred_single(
    t: nat,
    d: nat,
    unit_exp: nat,
    scale_exp: nat,
    q: nat,
    e: nat,
    k: nat,
)
    requires
        d > 0,
        q <= 0x100_0000,
        0x80_0000 * (d * pow2(unit_exp)) <= t * pow2(scale_exp),
    ensures
        preferred(
            nearest(t * pow2(scale_exp), d * pow2(unit_exp)) * pow2(unit_exp),
            pow2(scale_exp),
            scaled(q, e),
            pow2(k),
            t,
            d,
        ),
{
    let unit = pow2(unit_exp);
    let scale = pow2(scale_exp);
    let a = scaled(q, e);
    let b = pow2(k);
    lemma_pow2_pos(unit_exp);
    lemma_pow2_pos(scale_exp);
    lemma_pow2_pos(k);
    lemma_pow2_adds(e, scale_exp);
    lemma_pow2_adds(unit_exp, k);
    assert(a * scale == q * pow2(e + scale_exp)) by (nonlinear_arith)
        requires
            a == q * pow2(e),
            pow2(e) * scale == pow2(e + scale_exp),
    ;
    let cell = unit * b;
    if e + scale_exp >= unit_exp + k {
        let more = (e + scale_exp - unit_exp - k) as nat;
        lemma_pow2_adds(more, unit_exp + k);
        let m = q * pow2(more);
        assert(a * scale == m * cell) by (nonlinear_arith)
            requires
                a * scale == q * pow2(e + scale_exp),
                pow2(more) * cell == pow2(e + scale_exp),
                m == q * pow2(more),
        ;
        lemma_preferred_multiple(t, d, unit, scale, a, b, m);
    } else {
        let less = (unit_exp + k - e - scale_exp - 1) as nat;
        lemma_pow2_adds(less + 1, e + scale_exp);
        lemma_pow2_unfold(less + 1);
        lemma_pow2_pos(less);
        let fine = pow2(e + scale_exp);
        assert(q * fine <= 0x80_0000 * cell) by (nonlinear_arith)
            requires
                q <= 0x100_0000,
                cell == (2 * pow2(less)) * fine,
                pow2(less) >= 1,
        ;
        if a * scale == 0x80_0000 * cell {
            lemma_preferred_multiple(t, d, unit, scale, a, b, 0x80_0000);
        } else {
            lemma_preferred_small(t, d, unit, scale, a, b, 0x80_0000);
        }
    }
}

/// A number that is hit exactly is preferred to every other one.
proof fn lemma_preferred_exact(num: nat, den: nat, a: nat, b: nat, t: nat, d: nat)
    requires
        d > 0,
        den > 0,
        num * d == t * den,
    ensures
        preferred(num, den, a, b, t, d),
{
    let there = gap((a * d) as int, (t * b) as int);
    assert(there * den >= 0) by (nonlinear_arith)
        requires
            there >= 0,
    ;
    assert(0 * b == 0);
    if there * den == 0 {
        assert(there == 0) by (nonlinear_arith)
            requires
                there * den == 0,
                den > 0,
        ;
        assert((num * b) * d == (a * den) * d) by (nonlinear_arith)
            requires
                num * d == t * den,
                a * d == t * b,
        ;
        assert(num * b == a * den) by (nonlinear_arith)
            requires
                (num * b) * d == (a * den) * d,
                d > 0,
        ;
    }
}

/// The spacing is a power of two, and a number has just 24 bits above it.
proof fn lemma_spacing_power(n: nat) -> (e: nat)
    ensures
        spacing(n) == pow2(e),
        n < 0x100_0000 * spacing(n),
    decreases n,
{
    lemma2_to64();
    if n < MANTISSA {
        0
    } else {
        let e = lemma_spacing_power(n / 2);
        lemma_pow2_unfold(e + 1);
        e + 1
    }
}

/// The resolution is a power of two that leaves 24 bits.
proof fn lemma_resolution_power(n: nat) -> (k: nat)
    requires
        n < 100 * MANTISSA,
    ensures
        resolution(n) == pow2(k),
        n > 0 ==> 100 * 0x80_0000 <= n * resolution(n),
    decreases 100 * MANTISSA - n,
{
    lemma2_to64();
    if n == 0 || 2 * n >= 100 * MANTISSA {
        assert(n * 1 == n);
        0
    } else {
        let k = lemma_resolution_power(2 * n);
        lemma_pow2_unfold(k + 1);
        let finer = resolution(2 * n);
        assert(n * (2 * finer) == (2 * n) * finer) by (nonlinear_arith);
        k + 1
    }
}

/// A quotient below a bound is rounded to the bound at most.
proof fn lemma_nearest_bound(a: nat, b: nat, bound: nat)
    requires
        b > 0,
        a < bound * b,
    ensures
        nearest(a, b) <= bound,
{
    assert(a / b < bound) by (nonlinear_arith)
        requires
            a < bound * b,
            b > 0,
    ;
}

/// Rounding an integer to single precision gives the nearest single precision number.
pub proof fn law_single_is_nearest(n: nat)
    ensures
        is_nearest_single(single(n), 1, n, 1),
{
    let e0 = lemma_spacing_power(n);
    let unit = spacing(n);
    let s = nearest(n, unit);
    lemma2_to64();
    lemma_spacing(n);
    lemma_nearest_bound(n, unit, 0x100_0000);
    assert(single(n) == scaled(s, e0));
    assert(single(n) * pow2(0) == scaled(s, e0) * 1);
    assert forall|q: nat, e: nat, k: nat|
        #![trigger scaled(q, e), pow2(k)]
        q <= 0x100_0000 implies preferred(single(n), 1, scaled(q, e), pow2(k), n, 1) by {
        if n < MANTISSA {
            lemma_single_bound(n);
            assert(n * 1 == n);
            lemma_preferred_exact(single(n), 1, scaled(q, e), pow2(k), n, 1);
        } else {
            assert(1 * pow2(e0) == pow2(e0));
            assert(n * pow2(0) == n);
            lemma_preferred_single(n, 1, e0, 0, q, e, k);
        }
    }
}

/// A percentage is the integer part of the single precision number that is nearest to the
/// quotient.
pub proof fn law_percentage_is_nearest(n: nat)
    ensures
        exists|num: nat, den: nat|
            #[trigger] is_nearest_single(num, den, n, 100) && single_percent(n) == num / den,
{
    lemma2_to64();
    if n >= 100 * MANTISSA {
        let part = n / 100;
        let e0 = lemma_spacing_power(part);
        let unit = spacing(part);
        let s = nearest(n, 100 * unit);
        let num = s * unit;
        lemma_spacing(part);
        assert(n < 0x100_0000 * (100 * unit)) by (nonlinear_arith)
            requires
                part < 0x100_0000 * unit,
                part == n / 100,
        ;
        lemma_nearest_bound(n, 100 * unit, 0x100_0000);
        assert(0x80_0000 * (100 * unit) <= n) by (nonlinear_arith)
            requires
                unit * 0x80_0000 <= part,
                part == n / 100,
        ;
        assert(n * pow2(0) == n);
        assert(num * pow2(0) == scaled(s, e0) * 1);
        assert forall|q: nat, e: nat, k: nat|
            #![trigger scaled(q, e), pow2(k)]
            q <= 0x100_0000 implies preferred(num, 1, scaled(q, e), pow2(k), n, 100) by {
            lemma_preferred_single(n, 100, e0, 0, q, e, k);
        }
        assert(is_nearest_single(num, 1, n, 100));
        assert(num / 1 == num);
    } else {
        let k0 = lemma_resolution_power(n);
        lemma_resolution(n);
        let scale = resolution(n);
        let num = nearest(n * scale, 100);
        lemma_nearest_bound(n * scale, 100, 0x100_0000);
        assert(scaled(num, 0) == num * 1);
        assert(num * pow2(k0) == scaled(num, 0) * scale);
        assert forall|q: nat, e: nat, k: nat|
            #![trigger scaled(q, e), pow2(k)]
            q <= 0x100_0000 implies preferred(num, scale, scaled(q, e), pow2(k), n, 100) by {
            if n == 0 {
                assert(0 * scale == 0);
                assert(num == 0);
                lemma_preferred_exact(num, scale, scaled(q, e), pow2(k), n, 100);
            } else {
                assert(num * pow2(0) == num);
                lemma_preferred_single(n, 100, 0, k0, q, e, k);
            }
        }
        assert(is_nearest_single(num, scale, n, 100));
    }
}

/// At any positive brightness a mixed channel is dimmed as in single precision: the brightness,
/// its product with the channel and the percentage of that are each rounded to the nearest
/// single precision number, and the integer part, or the largest number of 32 bits if that is
/// less, is reduced to 8 bits.
pub proof fn law_dimming_rounds_to_single(mixed: nat, brightness: int)
    requires
        brightness > 0,
    ensures
        exists|factor: nat, product: nat, num: nat, den: nat|
            #![trigger is_nearest_single(factor, 1, brightness as nat, 1),
                is_nearest_single(product, 1, mixed * factor, 1),
                is_nearest_single(num, den, product, 100)]
            {
                let level = if num / den > 0xffff_ffff {
                    0xffff_ffff
                } else {
                    (num / den) as int
                };
                &&& is_nearest_single(factor, 1, brightness as nat, 1)
                &&& is_nearest_single(product, 1, mixed * factor, 1)
                &&& is_nearest_single(num, den, product, 100)
                &&& dimmed(mixed, brightness) == level / 256 % 256
            },
{
    let factor = single(brightness as nat);
    let product = single(mixed * factor);
    law_single_is_nearest(brightness as nat);
    law_single_is_nearest(mixed * factor);
    law_percentage_is_nearest(product);
    let (num, den) = choose|num: nat, den: nat|
        #[trigger] is_nearest_single(num, den, product, 100) && single_percent(product) == num
            / den;
    assert(is_nearest_single(num, den, product, 100));
}

/// A call that clears the canvas leaves nothing in any channel, one that blends an overlay blends
/// each pixel with the one at the same place, and one that copies the canvas copies each pixel.
pub proof fn law_calls_change_each_pixel(overlay: Vec<RGBA>, brightness: i64)
    ensures
        forall|canvas: &mut Vec<RGBA>| #[trigger]
            call_ensures(clear_canvas, (canvas,), ()) ==> {
                &&& final(canvas)@.len() == canvas@.len()
                &&& forall|i: int|
                    0 <= i < canvas@.len() ==> #[trigger] final(canvas)@[i] == (RGBA {
                        r: 0,
                        g: 0,
                        b: 0,
                        a: 0,
                    })
            },
        forall|canvas: &mut Vec<RGBA>| #[trigger]
            call_ensures(blend_overlay, (canvas, &overlay, brightness), ()) ==> {
                &&& final(canvas)@.len() == canvas@.len()
                &&& forall|i: int|
                    0 <= i < canvas@.len() ==> #[trigger] final(canvas)@[i] == blended(
                        overlay@[i],
                        canvas@[i],
                        brightness as int,
                    )
            },
        forall|target: &mut Vec<RGBA>| #[trigger]
            call_ensures(copy_canvas, (target, &overlay), ()) ==> final(target)@ == overlay@,
{
}

} // verus!
