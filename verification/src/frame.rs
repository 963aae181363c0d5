//! The CPU side of a captured frame: packing a padded pixel buffer into
//! tightly packed BGRA, a sampled brightness measure, and the channel swap
//! for writing an RGB image.
//!
//! A capture buffer's rows are padded to a hardware-friendly stride, which
//! is not `width * 4`. Code that assumes it is produces a picture that
//! shears further sideways down the image, so rows are copied one at a time.

use crate::image::{channels, png_encode, png_of};
use vstd::prelude::*;

verus! {

/// Byte `i` of row `row` of a packed copy: the same byte of that row in the
/// padded source.
pub open spec fn packed_byte(base: Seq<u8>, width: int, stride: int, row: int, i: int) -> u8 {
    base[row * stride + i]
}

proof fn lemma_row_offset(row: int, height: int, stride: int, i: int, width4: int, len: int)
    requires
        0 <= row < height,
        0 <= i < width4,
        width4 <= stride,
        (height - 1) * stride + width4 <= len,
    ensures
        0 <= row * stride,
        row * stride + i < len,
{
    assert(row * stride <= (height - 1) * stride && 0 <= row * stride) by (nonlinear_arith)
        requires
            0 <= row <= height - 1,
            0 <= stride,
    ;
}

proof fn lemma_index_below(r: int, row: int, j: int, w4: int)
    requires
        0 <= r < row,
        0 <= j < w4,
    ensures
        0 <= r * w4 + j < row * w4,
{
    assert(0 <= r * w4 + j < row * w4) by (nonlinear_arith)
        requires
            0 <= r < row,
            0 <= j < w4,
    ;
}

/// Copies `height` rows of `width` BGRA pixels out of a buffer whose rows
/// are `stride` bytes apart, packing them to `width * 4` bytes per row.
pub fn pack_rows(base: &[u8], width: usize, height: usize, stride: usize) -> (out: Vec<u8>)
    requires
        width * 4 <= stride,
        height == 0 || (height - 1) * stride + width * 4 <= base@.len(),
        width * height * 4 <= usize::MAX,
    ensures
        out@.len() == width * height * 4,
        forall|row: int, i: int|
            0 <= row < height && 0 <= i < width * 4 ==> #[trigger] out@[row * (width * 4) + i] == packed_byte(
                base@,
                width as int,
                stride as int,
                row,
                i,
            ),
{
    let w4 = width * 4;
    let blen = base.len();
    let mut out: Vec<u8> = Vec::new();
    let mut row: usize = 0;
    while row < height
        invariant
            w4 == width * 4,
            blen == base@.len(),
            w4 <= stride,
            height == 0 || (height - 1) * stride + w4 <= base@.len(),
            width * height * 4 <= usize::MAX,
            row <= height,
            out@.len() == row * w4,
            forall|r: int, i: int|
                0 <= r < row && 0 <= i < w4 ==> #[trigger] out@[r * w4 + i] == packed_byte(base@, width as int, stride as int, r, i),
        decreases height - row,
    {
        let mut i: usize = 0;
        while i < w4
            invariant
                w4 == width * 4,
                blen == base@.len(),
                w4 <= stride,
                (height - 1) * stride + w4 <= base@.len(),
                row < height,
                i <= w4,
                out@.len() == row * w4 + i,
                forall|r: int, j: int|
                    0 <= r < row && 0 <= j < w4 ==> #[trigger] out@[r * w4 + j] == packed_byte(base@, width as int, stride as int, r, j),
                forall|j: int| 0 <= j < i ==> #[trigger] out@[row * w4 + j] == packed_byte(base@, width as int, stride as int, row as int, j),
            decreases w4 - i,
        {
            proof {
                lemma_row_offset(row as int, height as int, stride as int, i as int, w4 as int, blen as int);
            }
            let ghost before = out@;
            out.push(base[row * stride + i]);
            proof {
                assert forall|r: int, j: int| 0 <= r < row && 0 <= j < w4 implies #[trigger] out@[r * w4 + j]
                    == packed_byte(base@, width as int, stride as int, r, j) by {
                    lemma_index_below(r, row as int, j, w4 as int);
                    assert(out@[r * w4 + j] == before[r * w4 + j]);
                }
            }
            i += 1;
        }
        proof {
            assert((row + 1) * w4 == row * w4 + w4) by (nonlinear_arith);
            assert forall|r: int, j: int| 0 <= r < row + 1 && 0 <= j < w4 implies #[trigger] out@[r * w4 + j]
                == packed_byte(base@, width as int, stride as int, r, j) by {
                if r < row {
                } else {
                    assert(r == row);
                }
            }
        }
        row += 1;
    }
    assert(height * w4 == width * height * 4) by (nonlinear_arith)
        requires
            w4 == width * 4,
    ;
    out
}

/// Rec. 601 luma of one BGRA pixel, with integer weights out of 1000.
pub open spec fn luma_of(b: u8, g: u8, r: u8) -> nat {
    ((299 * r + 587 * g + 114 * b) / 1000) as nat
}

/// The sum of the luma of the first pixel of each of the first `k` whole
/// 64-pixel chunks.
pub open spec fn luma_sum(px: Seq<u8>, k: int) -> nat
    decreases k,
{
    if k <= 0 {
        0
    } else {
        luma_sum(px, k - 1) + luma_of(px[256 * (k - 1)], px[256 * (k - 1) + 1], px[256 * (k - 1) + 2])
    }
}

proof fn lemma_luma_sum_bound(px: Seq<u8>, k: int)
    requires
        0 <= k,
    ensures
        luma_sum(px, k) <= 255 * k,
    decreases k,
{
    if k > 0 {
        lemma_luma_sum_bound(px, k - 1);
        let (b, g, r) = (px[256 * (k - 1)], px[256 * (k - 1) + 1], px[256 * (k - 1) + 2]);
        assert(luma_of(b, g, r) <= 255) by (nonlinear_arith)
            requires
                b <= 255,
                g <= 255,
                r <= 255,
        ;
    }
}

/// Brightness sampled from every 64th pixel of packed BGRA: the sum of the
/// samples' luma and how many samples there were. The mean, scaled to 0 to
/// 1, tells a captured desktop from a black rectangle.
pub fn sampled_luma(px: &[u8]) -> (r: (u64, u64))
    ensures
        r.1 == px@.len() / 256,
        r.0 == luma_sum(px@, (px@.len() / 256) as int),
{
    let plen = px.len();
    let chunks = px.len() / 256;
    let mut sum: u64 = 0;
    let mut k: usize = 0;
    while k < chunks
        invariant
            plen == px@.len(),
            chunks == px@.len() / 256,
            k <= chunks,
            sum == luma_sum(px@, k as int),
        decreases chunks - k,
    {
        proof {
            lemma_luma_sum_bound(px@, k as int);
            assert(256 * k + 2 < px@.len());
            assert(255 * (k as int) + 255 <= u64::MAX);
            let (b, g, r) = (px@[256 * k as int], px@[256 * k + 1], px@[256 * k + 2]);
            assert(luma_of(b, g, r) <= 255) by (nonlinear_arith)
                requires
                    b <= 255,
                    g <= 255,
                    r <= 255,
            ;
        }
        let b = px[256 * k] as u64;
        let g = px[256 * k + 1] as u64;
        let r = px[256 * k + 2] as u64;
        sum = sum + (299 * r + 587 * g + 114 * b) / 1000;
        k += 1;
    }
    (sum, chunks as u64)
}

/// Byte `q` of the RGB image of a BGRA buffer: red, green and blue taken
/// from blue-green-red-alpha, alpha dropped, and zero where the source runs
/// out.
pub open spec fn rgb_byte(bgra: Seq<u8>, q: int) -> u8 {
    let p = q / 3;
    let c = q % 3;
    if p < bgra.len() / 4 {
        bgra[4 * p + (2 - c)]
    } else {
        0
    }
}

/// Converts packed BGRA to packed RGB for an image of `width` by `height`
/// pixels. Screen captures are opaque, so alpha is dropped.
pub fn bgra_to_rgb(bgra: &[u8], width: usize, height: usize) -> (rgb: Vec<u8>)
    requires
        width * height * 3 <= usize::MAX,
    ensures
        rgb@ == Seq::new((width * height * 3) as nat, |q: int| rgb_byte(bgra@, q)),
{
    let total = width * height * 3;
    let plen = bgra.len();
    let pixels = bgra.len() / 4;
    let mut rgb: Vec<u8> = Vec::new();
    let mut q: usize = 0;
    while q < total
        invariant
            plen == bgra@.len(),
            total == width * height * 3,
            pixels == bgra@.len() / 4,
            q <= total,
            rgb@ =~= Seq::new(q as nat, |j: int| rgb_byte(bgra@, j)),
        decreases total - q,
    {
        let p = q / 3;
        let c = q % 3;
        let b = if p < pixels {
            bgra[4 * p + (2 - c)]
        } else {
            0
        };
        rgb.push(b);
        q += 1;
    }
    rgb
}

/// The RGB image of a BGRA buffer for a `width` by `height` image.
pub open spec fn rgb_of(bgra: Seq<u8>, width: int, height: int) -> Seq<u8> {
    Seq::new((width * height * 3) as nat, |q: int| rgb_byte(bgra, q))
}

/// A captured BGRA frame as an RGB PNG file, alpha dropped: `None` exactly
/// when a side is zero.
pub fn bgra_png(bgra: &[u8], width: usize, height: usize) -> (r: Option<Vec<u8>>)
    requires
        width <= u32::MAX,
        height <= u32::MAX,
        width * height * 3 < usize::MAX,
    ensures
        match r {
            Some(v) => png_of(rgb_of(bgra@, width as int, height as int), width as u32, height as u32, true)
                == Some(v@),
            None => png_of(rgb_of(bgra@, width as int, height as int), width as u32, height as u32, true) is None,
        },
        r is Some <==> (width > 0 && height > 0),
{
    let rgb = bgra_to_rgb(bgra, width, height);
    let w = width as u32;
    let h = height as u32;
    proof {
        assert(rgb@ =~= rgb_of(bgra@, width as int, height as int));
        assert(w as int == width && h as int == height);
        assert(channels(true) == 3);
    }
    png_encode(rgb.as_slice(), w, h, true)
}

/// Presentation time in microseconds from a media timestamp: `value` ticks
/// of a clock running at `timescale` ticks per second, or zero for a
/// timestamp with no valid timescale.
pub open spec fn micros_of(value: i64, timescale: i32) -> int {
    if timescale > 0 {
        let num = value * 1_000_000;
        if num >= 0 {
            num / (timescale as int)
        } else {
            -((-num) / (timescale as int))
        }
    } else {
        0
    }
}

/// Converts a media timestamp to microseconds, rounding toward zero and
/// keeping the low 64 bits of the result, as a cast from 128 bits does.
pub fn timestamp_micros(value: i64, timescale: i32) -> (us: i64)
    ensures
        us == micros_of(value, timescale) as i64,
{
    if timescale <= 0 {
        return 0;
    }
    let v = value as i128;
    proof {
        assert(-9223372036854775808 * 1_000_000 <= v * 1_000_000 <= 9223372036854775807 * 1_000_000)
            by (nonlinear_arith)
            requires
                -9223372036854775808 <= v <= 9223372036854775807,
        ;
    }
    let num: i128 = v * 1_000_000;
    let den = timescale as i128;
    let q: i128 = if num >= 0 {
        num / den
    } else {
        -((-num) / den)
    };
    q as i64
}

} // verus!
