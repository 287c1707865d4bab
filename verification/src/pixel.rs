//! Compositing of single pixels and clip masks on byte buffers.
//!
//! A pixel buffer holds four bytes per pixel, red, green, blue and alpha,
//! with the colors premultiplied by alpha. A mask holds one byte of coverage
//! per pixel.

use vstd::prelude::*;

verus! {

/// `value` scaled by `alpha / 255`, rounded to the nearest integer.
pub open spec fn scaled(value: int, alpha: int) -> int {
    (value * alpha + 127) / 255
}

/// One channel of source-over compositing: the premultiplied source `src`
/// over the destination `dst`, for a source of alpha `alpha`, capped at 255.
pub open spec fn over(src: int, dst: int, alpha: int) -> int {
    let sum = src + scaled(dst, 255 - alpha);
    if sum > 255 {
        255
    } else {
        sum
    }
}

/// The alpha a pixel is drawn with under a mask: the pixel's own alpha
/// scaled by the mask's coverage at the pixel. No pixel is drawn where the
/// mask does not reach.
pub open spec fn effective_alpha(a: u8, mask: Option<Seq<u8>>, pixel: int) -> int {
    match mask {
        Some(m) => if 0 <= pixel < m.len() {
            scaled(a as int, m[pixel] as int)
        } else {
            0
        },
        None => a as int,
    }
}

/// The buffer after the color `(r, g, b, a)` was blended onto the pixel at
/// `(x, y)` of a buffer `width` pixels wide.
///
/// Nothing changes when the effective alpha is 0 or the pixel lies outside
/// the buffer. Otherwise the four bytes of the pixel are composited with the
/// color, premultiplied by the effective alpha.
pub open spec fn blended(
    data: Seq<u8>,
    width: u32,
    x: u32,
    y: u32,
    r: u8,
    g: u8,
    b: u8,
    a: u8,
    mask: Option<Seq<u8>>,
) -> Seq<u8> {
    let pixel = y * width + x;
    let idx = pixel * 4;
    let sa = effective_alpha(a, mask, pixel);
    if sa == 0 || idx + 3 >= data.len() {
        data
    } else {
        data.update(idx, over(scaled(r as int, sa), data[idx] as int, sa) as u8).update(
            idx + 1,
            over(scaled(g as int, sa), data[idx + 1] as int, sa) as u8,
        ).update(idx + 2, over(scaled(b as int, sa), data[idx + 2] as int, sa) as u8).update(
            idx + 3,
            over(sa, data[idx + 3] as int, sa) as u8,
        )
    }
}

/// Computes [`scaled`] for bytes.
fn scale(value: u8, alpha: u8) -> (r: u8)
    ensures
        r == scaled(value as int, alpha as int),
        r <= alpha,
        r <= value,
{
    let v: u32 = value as u32;
    let a: u32 = alpha as u32;
    assert(v * a <= 255 * 255) by (nonlinear_arith)
        requires
            v <= 255,
            a <= 255,
    ;
    assert((v * a + 127) / 255 <= a && (v * a + 127) / 255 <= v) by (nonlinear_arith)
        requires
            v <= 255,
            a <= 255,
    ;
    ((v * a + 127) / 255) as u8
}

/// Computes [`over`] for bytes.
fn composite(src: u8, dst: u8, alpha: u8) -> (r: u8)
    ensures
        r == over(src as int, dst as int, alpha as int),
{
    let rest: u32 = scale(dst, 255 - alpha) as u32;
    let sum: u32 = src as u32 + rest;
    if sum > 255 {
        255
    } else {
        sum as u8
    }
}

/// Blends a single pixel onto the buffer using source-over compositing.
///
/// `mask`, where given, holds the clip coverage of every pixel.
pub fn blend_pixel(
    data: &mut [u8],
    width: u32,
    x: u32,
    y: u32,
    r: u8,
    g: u8,
    b: u8,
    a: u8,
    mask: Option<&[u8]>,
)
    ensures
        final(data)@ == blended(
            old(data)@,
            width,
            x,
            y,
            r,
            g,
            b,
            a,
            match mask {
                Some(m) => Some(m@),
                None => None,
            },
        ),
{
    if a == 0 {
        assert(scaled(0, 0) == 0);
        assert(forall|c: int| scaled(0, c) == 0) by (nonlinear_arith);
        return ;
    }
    assert(y * width + x <= 0xFFFF_FFFF * 0xFFFF_FFFF + 0xFFFF_FFFF) by (nonlinear_arith)
        requires
            y <= 0xFFFF_FFFF,
            width <= 0xFFFF_FFFF,
            x <= 0xFFFF_FFFF,
    ;
    let pixel: u128 = (y as u128) * (width as u128) + (x as u128);
    let effective_a: u8 = match mask {
        Some(m) => {
            if pixel >= m.len() as u128 {
                return ;
            }
            let mask_val = m[pixel as usize];
            if mask_val == 0 {
                assert(forall|c: int| scaled(c, 0) == 0) by (nonlinear_arith);
                return ;
            }
            scale(a, mask_val)
        },
        None => a,
    };
    if effective_a == 0 {
        return ;
    }
    let idx: u128 = pixel * 4;
    if idx + 3 >= data.len() as u128 {
        return ;
    }
    let idx: usize = idx as usize;
    let sr = scale(r, effective_a);
    let sg = scale(g, effective_a);
    let sb = scale(b, effective_a);
    let dr = data[idx];
    let dg = data[idx + 1];
    let db = data[idx + 2];
    let da = data[idx + 3];
    data[idx] = composite(sr, dr, effective_a);
    data[idx + 1] = composite(sg, dg, effective_a);
    data[idx + 2] = composite(sb, db, effective_a);
    data[idx + 3] = composite(effective_a, da, effective_a);
}

/// The pointwise minimum of two masks, as far as both reach; beyond that
/// the first mask is kept.
pub open spec fn intersected(dst: Seq<u8>, src: Seq<u8>) -> Seq<u8> {
    Seq::new(
        dst.len(),
        |i: int|
            if i < src.len() && src[i] < dst[i] {
                src[i]
            } else {
                dst[i]
            },
    )
}

/// Intersects two masks by taking the minimum coverage of each pixel.
pub fn intersect_masks(dst: &mut [u8], src: &[u8])
    ensures
        final(dst)@ == intersected(old(dst)@, src@),
{
    let len: usize = if dst.len() < src.len() {
        dst.len()
    } else {
        src.len()
    };
    let mut i: usize = 0;
    while i < len
        invariant
            i <= len,
            len <= src.len(),
            len <= dst.len(),
            dst.len() == old(dst).len(),
            forall|j: int| 0 <= j < i ==> dst@[j] == intersected(old(dst)@, src@)[j],
            forall|j: int| i <= j < dst.len() ==> dst@[j] == old(dst)@[j],
        decreases len - i,
    {
        if src[i] < dst[i] {
            dst[i] = src[i];
        }
        i += 1;
    }
    assert(dst@ =~= intersected(old(dst)@, src@));
}

/// The buffer with the colors of every whole pixel multiplied by the pixel's
/// alpha; bytes after the last whole pixel are kept.
pub open spec fn premultiplied(data: Seq<u8>) -> Seq<u8> {
    Seq::new(
        data.len(),
        |i: int|
            if i % 4 == 3 || i - i % 4 + 3 >= data.len() {
                data[i]
            } else {
                scaled(data[i] as int, data[i - i % 4 + 3] as int) as u8
            },
    )
}

/// Converts straight RGBA pixels to premultiplied alpha, in place.
pub fn premultiply_alpha(data: &mut [u8])
    ensures
        final(data)@ == premultiplied(old(data)@),
{
    let n: usize = data.len();
    let mut i: usize = 0;
    while n - i >= 4
        invariant
            n == data.len(),
            n == old(data).len(),
            i <= n,
            i % 4 == 0,
            forall|j: int| 0 <= j < i ==> data@[j] == premultiplied(old(data)@)[j],
            forall|j: int| i <= j < n ==> data@[j] == old(data)@[j],
        decreases n - i,
    {
        let a = data[i + 3];
        data[i] = scale(data[i], a);
        data[i + 1] = scale(data[i + 1], a);
        data[i + 2] = scale(data[i + 2], a);
        i += 4;
    }
    assert(data@ =~= premultiplied(old(data)@));
}

/// In every whole pixel no color exceeds the alpha.
pub open spec fn is_premultiplied(data: Seq<u8>) -> bool {
    forall|i: int|
        0 <= i < data.len() && i - i % 4 + 3 < data.len() ==> #[trigger] data[i] <= data[i - i % 4
            + 3]
}

/// Premultiplying never leaves a color greater than its alpha.
pub proof fn lemma_premultiplied_is_premultiplied(data: Seq<u8>)
    ensures
        is_premultiplied(premultiplied(data)),
{
    let out = premultiplied(data);
    assert forall|i: int| 0 <= i < out.len() && i - i % 4 + 3 < out.len() implies #[trigger] out[i]
        <= out[i - i % 4 + 3] by {
        let a = i - i % 4 + 3;
        assert(a % 4 == 3);
        assert(out[a] == data[a]);
        if i % 4 != 3 {
            let v = data[i] as int;
            let alpha = data[a] as int;
            assert(0 <= (v * alpha + 127) / 255 <= alpha) by (nonlinear_arith)
                requires
                    0 <= v <= 255,
                    0 <= alpha <= 255,
            ;
        }
    }
}

} // verus!
