//! The integer side of quantization: what happens to each pixel's alpha,
//! how a chosen palette color becomes an output pixel, where dithering error
//! is sent, and the ordered-dither threshold matrix.
//!
//! Choosing the nearest palette color, and the dithering arithmetic itself,
//! work in floating point and are not part of this library; they hand it the
//! index of the chosen palette color for each pixel.

use vstd::prelude::*;

use crate::palette::Palette;

verus! {

/// How the alpha channel is treated.
#[derive(Clone, Copy, Debug, PartialEq, Eq, Structural)]
pub enum AlphaMode {
    /// Snap alpha to 0 or 255 at the given threshold (`< t` → transparent).
    Binarize(u8),
    /// Pass the input alpha through untouched; only RGB is quantized.
    Keep,
}

/// Dithering strategy.
#[derive(Clone, Copy, Debug, PartialEq, Eq, Structural)]
pub enum Dither {
    /// Flat nearest-neighbor, no dithering.
    Flat,
    /// Floyd–Steinberg error diffusion.
    FloydSteinberg,
    /// Atkinson error diffusion (lighter, common for pixel art).
    Atkinson,
    /// Ordered (Bayer 8×8) dithering.
    Ordered,
}

/// The fate of a pixel's alpha: `Some(out_alpha)` when the pixel is opaque
/// enough to quantize, `None` when it is written fully transparent.
pub open spec fn classify_spec(a: u8, alpha: AlphaMode) -> Option<u8> {
    match alpha {
        AlphaMode::Binarize(t) => if a >= t {
            Some(255u8)
        } else {
            None
        },
        AlphaMode::Keep => if a > 0 {
            Some(a)
        } else {
            None
        },
    }
}

/// Decides the fate of a pixel's alpha (see [`classify_spec`]).
pub fn classify(a: u8, alpha: AlphaMode) -> (r: Option<u8>)
    ensures
        r == classify_spec(a, alpha),
{
    match alpha {
        AlphaMode::Binarize(t) => if a >= t {
            Some(255)
        } else {
            None
        },
        AlphaMode::Keep => if a > 0 {
            Some(a)
        } else {
            None
        },
    }
}

/// The output pixel for input pixel `px` when `color` is the palette color
/// chosen for it: fully transparent black when its alpha drops it, else the
/// palette color with the resolved alpha.
pub open spec fn output_pixel_spec(px: [u8; 4], alpha: AlphaMode, color: [u8; 3]) -> [u8; 4] {
    match classify_spec(px[3], alpha) {
        None => [0u8, 0u8, 0u8, 0u8],
        Some(oa) => [color[0], color[1], color[2], oa],
    }
}

pub fn output_pixel(px: [u8; 4], alpha: AlphaMode, color: [u8; 3]) -> (r: [u8; 4])
    ensures
        r == output_pixel_spec(px, alpha, color),
{
    match classify(px[3], alpha) {
        None => [0, 0, 0, 0],
        Some(oa) => [color[0], color[1], color[2], oa],
    }
}

/// The color channels of a pixel.
pub open spec fn rgb_of(px: [u8; 4]) -> [u8; 3] {
    [px[0], px[1], px[2]]
}

/// Builds the quantized image: pixel `i` of the output is the palette color
/// `choices[i]` with the alpha that [`classify`] resolves, or transparent
/// black. `choices[i]` is read only for pixels that stay visible.
pub fn assemble(
    pixels: &Vec<[u8; 4]>,
    alpha: AlphaMode,
    palette: &Palette,
    choices: &Vec<usize>,
) -> (out: Vec<[u8; 4]>)
    requires
        choices.len() == pixels.len(),
        forall|i: int|
            0 <= i < pixels.len() && (#[trigger] classify_spec(pixels@[i][3], alpha)) is Some
                ==> choices@[i] < palette@.len(),
    ensures
        out.len() == pixels.len(),
        forall|i: int|
            0 <= i < pixels.len() ==> #[trigger] out@[i] == output_pixel_spec(
                pixels@[i],
                alpha,
                palette@[choices@[i] as int],
            ),
        forall|i: int|
            0 <= i < pixels.len() ==> #[trigger] out@[i] == [0u8, 0u8, 0u8, 0u8]
                || palette@.contains(rgb_of(out@[i])),
{
    let n = pixels.len();
    let colors = palette.colors();
    let mut out: Vec<[u8; 4]> = Vec::with_capacity(n);
    let mut i: usize = 0;
    while i < n
        invariant
            n == pixels.len(),
            n == choices.len(),
            colors@ == palette@,
            forall|j: int|
                0 <= j < pixels.len() && (#[trigger] classify_spec(pixels@[j][3], alpha)) is Some
                    ==> choices@[j] < palette@.len(),
            i <= n,
            out.len() == i,
            forall|j: int|
                0 <= j < i ==> #[trigger] out@[j] == output_pixel_spec(
                    pixels@[j],
                    alpha,
                    palette@[choices@[j] as int],
                ),
            forall|j: int|
                0 <= j < i ==> #[trigger] out@[j] == [0u8, 0u8, 0u8, 0u8]
                    || palette@.contains(rgb_of(out@[j])),
        decreases n - i,
    {
        let px = pixels[i];
        let o = match classify(px[3], alpha) {
            None => [0, 0, 0, 0],
            Some(oa) => {
                let c = colors[choices[i]];
                let o = [c[0], c[1], c[2], oa];
                assert(rgb_of(o) =~= c);
                assert(palette@[choices@[i as int] as int] == c);
                o
            },
        };
        assert(o == output_pixel_spec(px, alpha, palette@[choices@[i as int] as int]));
        out.push(o);
        i += 1;
    }
    out
}

// ---------------------------------------------------------------------------
// Error diffusion
// ---------------------------------------------------------------------------

/// The error-diffusion kernels.
#[derive(Clone, Copy, Debug, PartialEq, Eq, Structural)]
pub enum Kernel {
    FloydSteinberg,
    Atkinson,
}

/// The kernel that a dithering strategy diffuses error with, if any.
pub open spec fn kernel_of_spec(d: Dither) -> Option<Kernel> {
    match d {
        Dither::FloydSteinberg => Some(Kernel::FloydSteinberg),
        Dither::Atkinson => Some(Kernel::Atkinson),
        _ => None,
    }
}

pub fn kernel_of(d: Dither) -> (r: Option<Kernel>)
    ensures
        r == kernel_of_spec(d),
{
    match d {
        Dither::FloydSteinberg => Some(Kernel::FloydSteinberg),
        Dither::Atkinson => Some(Kernel::Atkinson),
        _ => None,
    }
}

/// Neighbor offsets `(dx, dy)` and weights of a kernel; each weight is a
/// fraction of [`kernel_divisor_spec`].
pub open spec fn kernel_taps_spec(k: Kernel) -> Seq<(i64, i64, u32)> {
    match k {
        Kernel::FloydSteinberg => seq![(1i64, 0i64, 7u32), (-1i64, 1i64, 3u32), (0i64, 1i64, 5u32), (1i64, 1i64, 1u32)],
        Kernel::Atkinson => seq![
            (1i64, 0i64, 1u32),
            (2i64, 0i64, 1u32),
            (-1i64, 1i64, 1u32),
            (0i64, 1i64, 1u32),
            (1i64, 1i64, 1u32),
            (0i64, 2i64, 1u32),
        ],
    }
}

pub open spec fn kernel_divisor_spec(k: Kernel) -> u32 {
    match k {
        Kernel::FloydSteinberg => 16,
        Kernel::Atkinson => 8,
    }
}

pub fn kernel_taps(k: Kernel) -> (r: Vec<(i64, i64, u32)>)
    ensures
        r@ == kernel_taps_spec(k),
{
    match k {
        Kernel::FloydSteinberg => vec![(1, 0, 7), (-1, 1, 3), (0, 1, 5), (1, 1, 1)],
        Kernel::Atkinson => vec![(1, 0, 1), (2, 0, 1), (-1, 1, 1), (0, 1, 1), (1, 1, 1), (0, 2, 1)],
    }
}

pub fn kernel_divisor(k: Kernel) -> (d: u32)
    ensures
        d == kernel_divisor_spec(k),
{
    match k {
        Kernel::FloydSteinberg => 16,
        Kernel::Atkinson => 8,
    }
}

/// Sum of the weights of some taps.
pub open spec fn weight_sum(taps: Seq<(i64, i64, u32)>) -> nat
    decreases taps.len(),
{
    if taps.len() == 0 {
        0
    } else {
        weight_sum(taps.drop_last()) + taps.last().2 as nat
    }
}

/// Where a tap at pixel `(x, y)` of a `w`×`h` image lands, as a row-major
/// pixel index, when it lands inside the image.
pub open spec fn tap_target(tap: (i64, i64, u32), x: int, y: int, w: int, h: int) -> Option<int> {
    let nx = x + tap.0;
    let ny = y + tap.1;
    if 0 <= nx < w && 0 <= ny < h {
        Some(ny * w + nx)
    } else {
        None
    }
}

/// The neighbors that receive a share of pixel `(x, y)`'s error, with their
/// weights, in tap order: each tap that lands inside the image on an opaque
/// pixel. Error never leaves the image and never reaches a pixel that is
/// written transparent.
pub open spec fn diffusion_targets_spec(
    taps: Seq<(i64, i64, u32)>,
    x: int,
    y: int,
    w: int,
    h: int,
    opaque: Seq<bool>,
) -> Seq<(usize, u32)>
    decreases taps.len(),
{
    if taps.len() == 0 {
        seq![]
    } else {
        let rest = diffusion_targets_spec(taps.drop_first(), x, y, w, h, opaque);
        match tap_target(taps[0], x, y, w, h) {
            Some(n) => if opaque[n] {
                seq![(n as usize, taps[0].2)] + rest
            } else {
                rest
            },
            None => rest,
        }
    }
}

proof fn lemma_row_major_in_bounds(nx: int, ny: int, w: int, h: int)
    requires
        0 <= nx < w,
        0 <= ny < h,
    ensures
        0 <= ny * w + nx < w * h,
{
    assert(ny * w + nx < w * h) by (nonlinear_arith)
        requires
            0 <= nx < w,
            0 <= ny < h,
    ;
    assert(0 <= ny * w) by (nonlinear_arith)
        requires
            0 <= ny,
            0 <= w,
    ;
}

/// The neighbors of pixel `(x, y)` that receive a share of its dithering
/// error under kernel `k` (see [`diffusion_targets_spec`]); `opaque[i]`
/// tells whether pixel `i` (row-major) is quantized rather than dropped.
pub fn diffusion_targets(k: Kernel, x: u32, y: u32, w: u32, h: u32, opaque: &Vec<bool>) -> (r: Vec<
    (usize, u32),
>)
    requires
        x < w,
        y < h,
        opaque.len() == w * h,
    ensures
        r@ == diffusion_targets_spec(kernel_taps_spec(k), x as int, y as int, w as int, h as int, opaque@),
        forall|j: int| 0 <= j < r.len() ==> (#[trigger] r@[j]).0 < opaque.len() && opaque@[r@[j].0 as int],
{
    let taps = kernel_taps(k);
    let ghost ts = taps@;
    let ghost spec_all = diffusion_targets_spec(ts, x as int, y as int, w as int, h as int, opaque@);
    let mut out: Vec<(usize, u32)> = Vec::new();
    let mut t: usize = 0;
    assert(ts.skip(0) =~= ts);
    while t < taps.len()
        invariant
            ts == taps@,
            ts == kernel_taps_spec(k),
            x < w,
            y < h,
            opaque.len() == w * h,
            t <= taps.len(),
            spec_all == diffusion_targets_spec(ts, x as int, y as int, w as int, h as int, opaque@),
            spec_all == out@ + diffusion_targets_spec(ts.skip(t as int), x as int, y as int, w as int, h as int, opaque@),
            forall|j: int| 0 <= j < out.len() ==> (#[trigger] out@[j]).0 < opaque.len() && opaque@[out@[j].0 as int],
        decreases taps.len() - t,
    {
        let ghost s = ts.skip(t as int);
        assert(s.drop_first() =~= ts.skip(t + 1));
        let (dx, dy, weight) = taps[t];
        assert(-1 <= dx <= 2 && 0 <= dy <= 2);
        let nx: i64 = x as i64 + dx;
        let ny: i64 = y as i64 + dy;
        if 0 <= nx && 0 <= ny && nx < w as i64 && ny < h as i64 {
            proof {
                lemma_row_major_in_bounds(nx as int, ny as int, w as int, h as int);
            }
            let n: usize = ny as usize * w as usize + nx as usize;
            if opaque[n] {
                assert(out@ + (seq![(n, weight)] + diffusion_targets_spec(ts.skip(t + 1), x as int, y as int, w as int, h as int, opaque@)) =~= out@.push((n, weight)) + diffusion_targets_spec(ts.skip(t + 1), x as int, y as int, w as int, h as int, opaque@));
                out.push((n, weight));
            }
        }
        t += 1;
    }
    assert(ts.skip(t as int) =~= Seq::<(i64, i64, u32)>::empty());
    assert(out@ + Seq::<(usize, u32)>::empty() =~= out@);
    out
}

// ---------------------------------------------------------------------------
// Ordered dithering
// ---------------------------------------------------------------------------

/// Bayer 8×8 threshold matrix.
pub open spec fn bayer8() -> Seq<Seq<u8>> {
    seq![
        seq![0u8, 32, 8, 40, 2, 34, 10, 42],
        seq![48u8, 16, 56, 24, 50, 18, 58, 26],
        seq![12u8, 44, 4, 36, 14, 46, 6, 38],
        seq![60u8, 28, 52, 20, 62, 30, 54, 22],
        seq![3u8, 35, 11, 43, 1, 33, 9, 41],
        seq![51u8, 19, 59, 27, 49, 17, 57, 25],
        seq![15u8, 47, 7, 39, 13, 45, 5, 37],
        seq![63u8, 31, 55, 23, 61, 29, 53, 21],
    ]
}

/// The ordered-dither threshold of pixel `(x, y)`: the Bayer matrix entry
/// at row `y mod 8`, column `x mod 8`.
pub fn bayer_threshold(x: u32, y: u32) -> (t: u8)
    ensures
        t == bayer8()[(y % 8) as int][(x % 8) as int],
        t as int == crate::laws::bayer_recursive(x as int, y as int),
        t < 64,
{
    proof {
        crate::laws::law_bayer_threshold_is_recursive_bayer(x, y);
    }
    let m: Vec<Vec<u8>> = vec![
        vec![0, 32, 8, 40, 2, 34, 10, 42],
        vec![48, 16, 56, 24, 50, 18, 58, 26],
        vec![12, 44, 4, 36, 14, 46, 6, 38],
        vec![60, 28, 52, 20, 62, 30, 54, 22],
        vec![3, 35, 11, 43, 1, 33, 9, 41],
        vec![51, 19, 59, 27, 49, 17, 57, 25],
        vec![15, 47, 7, 39, 13, 45, 5, 37],
        vec![63, 31, 55, 23, 61, 29, 53, 21],
    ];
    let r = (y % 8) as usize;
    let c = (x % 8) as usize;
    assert(forall|i: int| 0 <= i < 8 ==> #[trigger] m@[i]@ == bayer8()[i]);
    m[r][c]
}

} // verus!
