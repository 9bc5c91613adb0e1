//! Palette generation: twelve hue-rotated variants of a texture.
//!
//! Variant `i` gives every pixel the hue `30 * i` degrees at full saturation
//! and keeps its alpha. A pixel's lightness is kept when it is at most one
//! half and halved when it is more, so the result never exceeds one half.
//! All of it is exact arithmetic on the pixel's bytes: with lightness
//! `t / 1020`, full saturation and lightness at most one half, the strongest
//! channel of the result is `t / 510`, the weakest is zero, and the third is
//! zero, half or all of the strongest, as the hue asks. A channel `v` in
//! `[0, 1]` becomes the byte `255 * v` rounded down.

use vstd::prelude::*;

verus! {

/// The number of variants in a palette.
pub const PALETTE_SIZE: usize = 12;

/// The largest of three channel values.
pub open spec fn max3(r: int, g: int, b: int) -> int {
    if r >= g && r >= b {
        r
    } else if g >= b {
        g
    } else {
        b
    }
}

/// The smallest of three channel values.
pub open spec fn min3(r: int, g: int, b: int) -> int {
    if r <= g && r <= b {
        r
    } else if g <= b {
        g
    } else {
        b
    }
}

/// The lightness of the recoloured pixel, in units of `1 / 1020`. The
/// lightness of the source is `(max + min) / 510`; above one half it is
/// halved.
pub open spec fn dimmed_lightness(r: u8, g: u8, b: u8) -> int {
    let sum = max3(r as int, g as int, b as int) + min3(r as int, g as int, b as int);
    if sum > 255 {
        sum
    } else {
        2 * sum
    }
}

/// How much of the chroma each of red, green and blue carries at hue
/// `30 * step` degrees, in halves: 2 for all of it, 1 for half, 0 for none.
pub open spec fn hue_weights(step: int) -> (int, int, int) {
    let s = step % 12;
    if s == 0 {
        (2, 0, 0)
    } else if s == 1 {
        (2, 1, 0)
    } else if s == 2 {
        (2, 2, 0)
    } else if s == 3 {
        (1, 2, 0)
    } else if s == 4 {
        (0, 2, 0)
    } else if s == 5 {
        (0, 2, 1)
    } else if s == 6 {
        (0, 2, 2)
    } else if s == 7 {
        (0, 1, 2)
    } else if s == 8 {
        (0, 0, 2)
    } else if s == 9 {
        (1, 0, 2)
    } else if s == 10 {
        (2, 0, 2)
    } else {
        (2, 0, 1)
    }
}

/// The byte of a channel that carries `weight` halves of the chroma
/// `t / 510`: `255 * (t / 510) * (weight / 2)` rounded down.
pub open spec fn channel_byte(t: int, weight: int) -> int {
    (255 * t * weight) / 1020
}

/// The red, green and blue bytes of a pixel recoloured to hue `30 * step`
/// degrees.
pub open spec fn recolored_pixel(r: u8, g: u8, b: u8, step: int) -> (u8, u8, u8) {
    let t = dimmed_lightness(r, g, b);
    let w = hue_weights(step);
    (channel_byte(t, w.0) as u8, channel_byte(t, w.1) as u8, channel_byte(t, w.2) as u8)
}

/// The byte at `i` of a recoloured buffer of four-byte pixels. The three
/// colour bytes of each whole pixel are recoloured; its alpha byte, and the
/// bytes of a broken last pixel, are kept.
pub open spec fn recolored_byte(data: Seq<u8>, step: int, i: int) -> u8 {
    let p = i - i % 4;
    if p + 4 > data.len() || i % 4 == 3 {
        data[i]
    } else {
        let px = recolored_pixel(data[p], data[p + 1], data[p + 2], step);
        if i % 4 == 0 {
            px.0
        } else if i % 4 == 1 {
            px.1
        } else {
            px.2
        }
    }
}

/// A buffer of four-byte pixels recoloured to hue `30 * step` degrees.
pub open spec fn recolored(data: Seq<u8>, step: int) -> Seq<u8> {
    Seq::new(data.len(), |i: int| recolored_byte(data, step, i))
}

/// A channel byte is a quarter of `t * weight`, rounded down, and fits a
/// byte.
pub proof fn lemma_channel_byte(t: int, weight: int)
    requires
        0 <= t <= 510,
        0 <= weight <= 2,
    ensures
        channel_byte(t, weight) == (t * weight) / 4,
        0 <= channel_byte(t, weight) <= 255,
{
    if weight == 0 {
        assert(255 * t * weight == 0) by (nonlinear_arith)
            requires
                weight == 0,
        ;
        assert(t * weight == 0) by (nonlinear_arith)
            requires
                weight == 0,
        ;
    } else if weight == 1 {
        assert(255 * t * weight == 255 * t) by (nonlinear_arith)
            requires
                weight == 1,
        ;
        assert(t * weight == t) by (nonlinear_arith)
            requires
                weight == 1,
        ;
    } else {
        assert(255 * t * weight == 510 * t) by (nonlinear_arith)
            requires
                weight == 2,
        ;
        assert(t * weight == 2 * t) by (nonlinear_arith)
            requires
                weight == 2,
        ;
    }
}

/// Recolours one pixel to hue `30 * step` degrees.
pub fn recolor_pixel(r: u8, g: u8, b: u8, step: usize) -> (px: (u8, u8, u8))
    ensures
        px == recolored_pixel(r, g, b, step as int),
{
    let hi: u8 = if r >= g && r >= b {
        r
    } else if g >= b {
        g
    } else {
        b
    };
    let lo: u8 = if r <= g && r <= b {
        r
    } else if g <= b {
        g
    } else {
        b
    };
    let sum: u16 = hi as u16 + lo as u16;
    let t: u16 = if sum > 255 {
        sum
    } else {
        2 * sum
    };
    proof {
        lemma_channel_byte(t as int, 0);
        lemma_channel_byte(t as int, 1);
        lemma_channel_byte(t as int, 2);
    }
    let none: u8 = 0;
    let half: u8 = (t / 4) as u8;
    let full: u8 = (t / 2) as u8;
    let s = step % 12;
    if s == 0 {
        (full, none, none)
    } else if s == 1 {
        (full, half, none)
    } else if s == 2 {
        (full, full, none)
    } else if s == 3 {
        (half, full, none)
    } else if s == 4 {
        (none, full, none)
    } else if s == 5 {
        (none, full, half)
    } else if s == 6 {
        (none, full, full)
    } else if s == 7 {
        (none, half, full)
    } else if s == 8 {
        (none, none, full)
    } else if s == 9 {
        (half, none, full)
    } else if s == 10 {
        (full, none, full)
    } else {
        (full, none, half)
    }
}

/// Recolours a buffer of four-byte pixels to hue `30 * step` degrees.
pub fn recolor(data: &Vec<u8>, step: usize) -> (out: Vec<u8>)
    ensures
        out@ == recolored(data@, step as int),
{
    let mut out: Vec<u8> = Vec::new();
    let n = data.len();
    let mut i: usize = 0;
    while n - i >= 4
        invariant
            i <= n,
            n == data@.len(),
            i % 4 == 0,
            out@.len() == i,
            forall|j: int| 0 <= j < i ==> out@[j] == recolored_byte(data@, step as int, j),
        decreases n - i,
    {
        let px = recolor_pixel(data[i], data[i + 1], data[i + 2], step);
        out.push(px.0);
        out.push(px.1);
        out.push(px.2);
        out.push(data[i + 3]);
        i = i + 4;
    }
    while i < n
        invariant
            i <= n,
            n == data@.len(),
            n - (i - i % 4) < 4,
            out@.len() == i,
            forall|j: int| 0 <= j < i ==> out@[j] == recolored_byte(data@, step as int, j),
        decreases n - i,
    {
        out.push(data[i]);
        i = i + 1;
    }
    assert(out@ =~= recolored(data@, step as int));
    out
}

/// The pixel is fully saturated: the spread of its channels is all that its
/// lightness allows.
pub open spec fn fully_saturated(r: u8, g: u8, b: u8) -> bool {
    let hi = max3(r as int, g as int, b as int);
    let lo = min3(r as int, g as int, b as int);
    hi > lo && hi - lo == if hi + lo <= 255 {
        hi + lo
    } else {
        510 - (hi + lo)
    }
}

/// The pixel's hue is `30 * step` degrees. With `c` the spread of the
/// channels, the hue in units of 30 degrees is `2 * (g - b) / c` where red is
/// strongest, counted round the circle, `4 + 2 * (b - r) / c` where green is,
/// and `8 + 2 * (r - g) / c` where blue is.
pub open spec fn has_hue(r: u8, g: u8, b: u8, step: int) -> bool {
    let hi = max3(r as int, g as int, b as int);
    let c = hi - min3(r as int, g as int, b as int);
    let s = step % 12;
    c > 0 && ({
        ||| hi == r && g >= b && 2 * (g - b) == s * c
        ||| hi == r && g < b && 12 * c + 2 * (g - b) == s * c
        ||| hi == g && 4 * c + 2 * (b - r) == s * c
        ||| hi == b && 8 * c + 2 * (r - g) == s * c
    })
}

/// A recoloured pixel is fully saturated, unless it is black.
pub proof fn lemma_recolored_pixel_saturation(r: u8, g: u8, b: u8, step: int)
    requires
        step >= 0,
        dimmed_lightness(r, g, b) >= 2,
    ensures
        ({
            let px = recolored_pixel(r, g, b, step);
            fully_saturated(px.0, px.1, px.2)
        }),
{
    let t = dimmed_lightness(r, g, b);
    lemma_channel_byte(t, 0);
    lemma_channel_byte(t, 1);
    lemma_channel_byte(t, 2);
}

/// A recoloured pixel reports the hue it was given. This holds of every
/// pixel whose result is not black and, where the hue asks for a
/// half-strength channel, whose strongest byte is even, so that its half is a
/// whole byte.
pub proof fn lemma_recolored_pixel_hue(r: u8, g: u8, b: u8, step: int)
    requires
        step >= 0,
        dimmed_lightness(r, g, b) >= 2,
        step % 2 == 0 || (dimmed_lightness(r, g, b) / 2) % 2 == 0,
    ensures
        ({
            let px = recolored_pixel(r, g, b, step);
            has_hue(px.0, px.1, px.2, step)
        }),
{
    let t = dimmed_lightness(r, g, b);
    lemma_channel_byte(t, 0);
    lemma_channel_byte(t, 1);
    lemma_channel_byte(t, 2);
    let s = step % 12;
    let full = channel_byte(t, 2);
    let half = channel_byte(t, 1);
    assert(s % 2 == 1 ==> full == 2 * half);
    let px = recolored_pixel(r, g, b, step);
    let hi = max3(px.0 as int, px.1 as int, px.2 as int);
    let c = hi - min3(px.0 as int, px.1 as int, px.2 as int);
    assert(hi == full && c == full);
    assert(s * c == if s == 0 {
        0
    } else if s == 1 {
        c
    } else if s == 2 {
        2 * c
    } else if s == 3 {
        3 * c
    } else if s == 4 {
        4 * c
    } else if s == 5 {
        5 * c
    } else if s == 6 {
        6 * c
    } else if s == 7 {
        7 * c
    } else if s == 8 {
        8 * c
    } else if s == 9 {
        9 * c
    } else if s == 10 {
        10 * c
    } else {
        11 * c
    }) by (nonlinear_arith)
        requires
            0 <= s < 12,
    ;
}

/// A channel byte `v` is none, half or all of the strongest byte `hi`, the
/// half within the rounding of one byte.
pub open spec fn is_share(v: int, hi: int) -> bool {
    v == 0 || v == hi || 2 * v <= hi <= 2 * v + 1
}

/// A recoloured pixel has no weakest channel left, its strongest byte is
/// half of `dimmed_lightness`, and every channel is none, half or all of it.
pub proof fn lemma_recolored_pixel_shape(r: u8, g: u8, b: u8, step: int)
    requires
        step >= 0,
    ensures
        ({
            let px = recolored_pixel(r, g, b, step);
            let hi = max3(px.0 as int, px.1 as int, px.2 as int);
            &&& min3(px.0 as int, px.1 as int, px.2 as int) == 0
            &&& hi == dimmed_lightness(r, g, b) / 2
            &&& is_share(px.0 as int, hi)
            &&& is_share(px.1 as int, hi)
            &&& is_share(px.2 as int, hi)
        }),
{
    let t = dimmed_lightness(r, g, b);
    lemma_channel_byte(t, 0);
    lemma_channel_byte(t, 1);
    lemma_channel_byte(t, 2);
}

/// Recolouring keeps the length of a buffer and every alpha byte.
pub proof fn lemma_recolored_keeps_alpha(data: Seq<u8>, step: int, i: int)
    requires
        0 <= i < data.len(),
        i % 4 == 3,
    ensures
        recolored(data, step).len() == data.len(),
        recolored(data, step)[i] == data[i],
{
}

/// How the bytes of a texture are laid out.
#[derive(Clone, Copy, Debug, PartialEq, Eq, Structural)]
pub enum PixelFormat {
    /// Four bytes for each pixel: red, green, blue, then alpha.
    Rgba8,
    /// Any other layout.
    Other,
}

/// Why a palette could not be generated.
#[derive(Clone, Copy, Debug, PartialEq, Eq, Structural)]
pub enum PaletteError {
    /// The source is not laid out as four bytes for each pixel with alpha
    /// last.
    UnsupportedFormat,
}

/// A pixel buffer with its layout.
#[derive(Clone, Debug)]
pub struct Texture {
    pub format: PixelFormat,
    pub data: Vec<u8>,
}

/// A texture as contracts see it.
pub struct TextureView {
    pub format: PixelFormat,
    pub data: Seq<u8>,
}

impl View for Texture {
    type V = TextureView;

    open spec fn view(&self) -> TextureView {
        TextureView { format: self.format, data: self.data@ }
    }
}

/// Variant `step` of a texture.
pub open spec fn variant_of(source: TextureView, step: int) -> TextureView {
    TextureView { format: source.format, data: recolored(source.data, step) }
}

/// The number of bytes for each pixel, for a layout that palettes can be
/// generated from.
pub fn pixel_size(format: PixelFormat) -> (size: Result<usize, PaletteError>)
    ensures
        format == PixelFormat::Rgba8 ==> size == Ok::<usize, PaletteError>(4),
        format != PixelFormat::Rgba8 ==> size == Err::<usize, PaletteError>(
            PaletteError::UnsupportedFormat,
        ),
{
    match format {
        PixelFormat::Rgba8 => Ok(4),
        PixelFormat::Other => Err(PaletteError::UnsupportedFormat),
    }
}

/// Generates the twelve variants of a texture, in the order of their hues.
/// A source in another layout than `Rgba8` is refused.
pub fn generate_variants(source: &Texture) -> (out: Result<Vec<Texture>, PaletteError>)
    ensures
        source.format == PixelFormat::Rgba8 ==> out.is_ok() && out.unwrap()@.len() == PALETTE_SIZE
            && forall|i: int|
            0 <= i < PALETTE_SIZE ==> (#[trigger] out.unwrap()@[i])@ == variant_of(source@, i),
        source.format != PixelFormat::Rgba8 ==> out == Err::<Vec<Texture>, PaletteError>(
            PaletteError::UnsupportedFormat,
        ),
{
    match pixel_size(source.format) {
        Err(e) => Err(e),
        Ok(_) => {
            let mut variants: Vec<Texture> = Vec::new();
            let mut step: usize = 0;
            while step < PALETTE_SIZE
                invariant
                    step <= PALETTE_SIZE,
                    variants@.len() == step,
                    forall|i: int|
                        0 <= i < step ==> (#[trigger] variants@[i])@ == variant_of(source@, i),
                decreases PALETTE_SIZE - step,
            {
                let data = recolor(&source.data, step);
                variants.push(Texture { format: source.format, data });
                step = step + 1;
            }
            Ok(variants)
        },
    }
}

} // verus!
