//! Images drawn in code: the menu bar glyph, the QR code that carries the
//! connect URL, and the box filter the application icon is supersampled
//! with.
//!
//! The menu bar glyph is a template image: macOS recolours it to suit a
//! light or dark menu bar, so only the alpha channel carries the shape and
//! the colour channels are black throughout.

use crate::text::{decimal, decimal_chars, push_char, push_chars, push_str};
use qrcode::{Color, EcLevel, QrCode};
use vstd::prelude::*;

verus! {

/// Side of the menu bar glyph in pixels (18 points at 2x).
pub const SIZE: usize = 36;

/// Whether pixel `(x, y)` of the menu bar glyph is part of the shape: the
/// outline of a screen with its corners knocked off, a neck, and a foot.
pub open spec fn in_glyph(x: int, y: int) -> bool {
    let edge = x < 7 || x > 28 || y < 10 || y > 22;
    let corner = (x < 7 && y < 10) || (x > 28 && y < 10) || (x < 7 && y > 22) || (x > 28 && y > 22);
    ||| (7 <= y <= 25 && 4 <= x <= 31 && edge && !corner)
    ||| (26 <= y <= 28 && 15 <= x <= 20)
    ||| (29 <= y <= 31 && 10 <= x <= 25)
}

/// Byte `k` of the glyph's RGBA buffer: black, opaque where the shape is.
pub open spec fn tray_byte(k: int) -> u8 {
    if k % 4 == 3 && in_glyph((k / 4) % 36, (k / 4) / 36) {
        255
    } else {
        0
    }
}

fn glyph_at(x: usize, y: usize) -> (r: bool)
    ensures
        r == in_glyph(x as int, y as int),
{
    let edge = x < 7 || x > 28 || y < 10 || y > 22;
    let corner = (x < 7 && y < 10) || (x > 28 && y < 10) || (x < 7 && y > 22) || (x > 28 && y > 22);
    (7 <= y && y <= 25 && 4 <= x && x <= 31 && edge && !corner) || (26 <= y && y <= 28 && 15 <= x && x
        <= 20) || (29 <= y && y <= 31 && 10 <= x && x <= 25)
}

/// The menu bar glyph as RGBA, with its width and height.
pub fn tray_rgba() -> (r: (Vec<u8>, u32, u32))
    ensures
        r.1 == 36,
        r.2 == 36,
        r.0@ == Seq::new(36 * 36 * 4, |k: int| tray_byte(k)),
        forall|k: int| 0 <= k < r.0@.len() && k % 4 != 3 ==> #[trigger] r.0@[k] == 0,
{
    let mut px: Vec<u8> = Vec::new();
    let mut k: usize = 0;
    while k < SIZE * SIZE * 4
        invariant
            k <= SIZE * SIZE * 4,
            px@ =~= Seq::new(k as nat, |j: int| tray_byte(j)),
        decreases SIZE * SIZE * 4 - k,
    {
        let b: u8 = if k % 4 == 3 && glyph_at((k / 4) % 36, (k / 4) / 36) {
            255
        } else {
            0
        };
        px.push(b);
        k += 1;
    }
    (px, 36, 36)
}

/// The sum over `sx < k` of channel `c` of source pixel
/// `(x * f + sx, y * f + sy)` in a `w`-wide RGBA image.
pub open spec fn row_sum(src: Seq<u8>, w: int, f: int, x: int, y: int, c: int, sy: int, k: int) -> int
    decreases k,
{
    if k <= 0 {
        0
    } else {
        row_sum(src, w, f, x, y, c, sy, k - 1) + src[((y * f + sy) * w + (x * f + k - 1)) * 4 + c]
    }
}

/// The sum of channel `c` over the first `rows` rows of the `f` by `f`
/// block of source pixels behind destination pixel `(x, y)`.
pub open spec fn block_sum(src: Seq<u8>, w: int, f: int, x: int, y: int, c: int, rows: int) -> int
    decreases rows,
{
    if rows <= 0 {
        0
    } else {
        block_sum(src, w, f, x, y, c, rows - 1) + row_sum(src, w, f, x, y, c, rows - 1, f)
    }
}

/// Byte `k` of the box-filtered image: the average of its block.
pub open spec fn downsampled_byte(src: Seq<u8>, w: int, f: int, k: int) -> u8 {
    let d = w / f;
    let p = k / 4;
    (block_sum(src, w, f, p % d, p / d, k % 4, f) / (f * f)) as u8
}

proof fn lemma_row_sum_bound(src: Seq<u8>, w: int, f: int, x: int, y: int, c: int, sy: int, k: int)
    requires
        0 <= k,
    ensures
        0 <= row_sum(src, w, f, x, y, c, sy, k) <= 255 * k,
    decreases k,
{
    if k > 0 {
        lemma_row_sum_bound(src, w, f, x, y, c, sy, k - 1);
    }
}

proof fn lemma_block_sum_bound(src: Seq<u8>, w: int, f: int, x: int, y: int, c: int, rows: int)
    requires
        0 <= rows,
        0 <= f,
    ensures
        0 <= block_sum(src, w, f, x, y, c, rows) <= 255 * f * rows,
    decreases rows,
{
    if rows > 0 {
        lemma_block_sum_bound(src, w, f, x, y, c, rows - 1);
        lemma_row_sum_bound(src, w, f, x, y, c, rows - 1, f);
        assert(255 * f * (rows - 1) + 255 * f == 255 * f * rows) by (nonlinear_arith);
    }
}

proof fn lemma_source_index(w: int, f: int, x: int, y: int, sx: int, sy: int, c: int)
    requires
        f > 0,
        0 <= x < w / f,
        0 <= y < w / f,
        0 <= sx < f,
        0 <= sy < f,
        0 <= c < 4,
    ensures
        0 <= y * f + sy < w,
        0 <= x * f + sx < w,
        0 <= y * f <= y * f + sy,
        0 <= x * f <= x * f + sx,
        0 <= (y * f + sy) * w <= (y * f + sy) * w + (x * f + sx),
        (y * f + sy) * w + (x * f + sx) < w * w,
        0 <= ((y * f + sy) * w + (x * f + sx)) * 4 + c < w * w * 4,
{
    let d = w / f;
    assert(d * f <= w) by (nonlinear_arith)
        requires
            f > 0,
            d == w / f,
    ;
    assert(y * f + sy < d * f) by (nonlinear_arith)
        requires
            y < d,
            sy < f,
            0 <= sy,
    ;
    assert(x * f + sx < d * f) by (nonlinear_arith)
        requires
            x < d,
            sx < f,
            0 <= sx,
    ;
    let a = y * f + sy;
    let b = x * f + sx;
    assert(0 <= a && 0 <= b) by (nonlinear_arith)
        requires
            0 <= y,
            0 <= x,
            f > 0,
            0 <= sy,
            0 <= sx,
            a == y * f + sy,
            b == x * f + sx,
    ;
    assert(0 <= (a * w + b) * 4 + c < w * w * 4 && 0 <= a * w && a * w + b < w * w) by (nonlinear_arith)
        requires
            0 <= a < w,
            0 <= b < w,
            0 <= c < 4,
    ;
    assert(0 <= y * f && 0 <= x * f) by (nonlinear_arith)
        requires
            0 <= y,
            0 <= x,
            f > 0,
    ;
}

/// Box filter by an integer factor, averaging each channel over the
/// `factor` by `factor` block of source pixels behind each destination
/// pixel. The destination is `src_dim / factor` pixels square.
pub fn downsample(src: &[u8], src_dim: usize, factor: usize) -> (out: Vec<u8>)
    requires
        factor > 0,
        factor * factor * 255 <= u32::MAX,
        src@.len() >= src_dim * src_dim * 4,
    ensures
        out@.len() == (src_dim / factor) * (src_dim / factor) * 4,
        forall|k: int|
            0 <= k < out@.len() ==> #[trigger] out@[k] == downsampled_byte(
                src@,
                src_dim as int,
                factor as int,
                k,
            ),
{
    let src_len = src.len();
    let dst_dim = src_dim / factor;
    let n: u32 = (factor * factor) as u32;
    let ghost w = src_dim as int;
    let ghost f = factor as int;
    proof {
        assert(dst_dim * factor <= src_dim) by (nonlinear_arith)
            requires
                factor > 0,
                dst_dim == src_dim / factor,
        ;
        assert(dst_dim * dst_dim <= src_dim * src_dim) by (nonlinear_arith)
            requires
                dst_dim * factor <= src_dim,
                factor > 0,
        ;
    }
    let mut out: Vec<u8> = Vec::new();
    let mut y: usize = 0;
    while y < dst_dim
        invariant
            w == src_dim,
            f == factor,
            factor > 0,
            n == factor * factor,
            factor * factor * 255 <= u32::MAX,
            dst_dim == src_dim / factor,
            src@.len() >= src_dim * src_dim * 4,
            src_len == src@.len(),
            dst_dim * dst_dim <= src_dim * src_dim,
            y <= dst_dim,
            out@.len() == y * dst_dim * 4,
            forall|k: int| 0 <= k < out@.len() ==> #[trigger] out@[k] == downsampled_byte(src@, w, f, k),
        decreases dst_dim - y,
    {
        let mut x: usize = 0;
        while x < dst_dim
            invariant
                w == src_dim,
                f == factor,
                factor > 0,
                n == factor * factor,
                factor * factor * 255 <= u32::MAX,
                dst_dim == src_dim / factor,
                src@.len() >= src_dim * src_dim * 4,
                src_len == src@.len(),
                dst_dim * dst_dim <= src_dim * src_dim,
                y < dst_dim,
                x <= dst_dim,
                out@.len() == (y * dst_dim + x) * 4,
                forall|k: int| 0 <= k < out@.len() ==> #[trigger] out@[k] == downsampled_byte(src@, w, f, k),
            decreases dst_dim - x,
        {
            let mut c: usize = 0;
            while c < 4
                invariant
                    w == src_dim,
                    f == factor,
                    factor > 0,
                    n == factor * factor,
                    factor * factor * 255 <= u32::MAX,
                    dst_dim == src_dim / factor,
                    src@.len() >= src_dim * src_dim * 4,
                    src_len == src@.len(),
                    dst_dim * dst_dim <= src_dim * src_dim,
                    y < dst_dim,
                    x < dst_dim,
                    c <= 4,
                    out@.len() == (y * dst_dim + x) * 4 + c,
                    forall|k: int| 0 <= k < out@.len() ==> #[trigger] out@[k] == downsampled_byte(src@, w, f, k),
                decreases 4 - c,
            {
                let mut acc: u32 = 0;
                let mut sy: usize = 0;
                while sy < factor
                    invariant
                        w == src_dim,
                        f == factor,
                        factor > 0,
                        factor * factor * 255 <= u32::MAX,
                        dst_dim == src_dim / factor,
                        src@.len() >= src_dim * src_dim * 4,
                        src_len == src@.len(),
                        y < dst_dim,
                        x < dst_dim,
                        c < 4,
                        sy <= factor,
                        acc == block_sum(src@, w, f, x as int, y as int, c as int, sy as int),
                    decreases factor - sy,
                {
                    let mut row: u32 = 0;
                    let mut sx: usize = 0;
                    while sx < factor
                        invariant
                            w == src_dim,
                            f == factor,
                            factor > 0,
                            factor * factor * 255 <= u32::MAX,
                            dst_dim == src_dim / factor,
                            src@.len() >= src_dim * src_dim * 4,
                            src_len == src@.len(),
                            y < dst_dim,
                            x < dst_dim,
                            c < 4,
                            sy < factor,
                            sx <= factor,
                            acc == block_sum(src@, w, f, x as int, y as int, c as int, sy as int),
                            row == row_sum(src@, w, f, x as int, y as int, c as int, sy as int, sx as int),
                        decreases factor - sx,
                    {
                        proof {
                            lemma_source_index(w, f, x as int, y as int, sx as int, sy as int, c as int);
                            lemma_row_sum_bound(src@, w, f, x as int, y as int, c as int, sy as int, sx as int);
                            lemma_block_sum_bound(src@, w, f, x as int, y as int, c as int, sy as int);
                            assert(255 * f * (sy as int) + 255 * (sx as int) + 255 <= 255 * f * f) by (nonlinear_arith)
                                requires
                                    sy < f,
                                    sx < f,
                                    0 <= sy,
                                    0 <= sx,
                            ;
                            assert(w * w * 4 <= src@.len());
                            assert(255 * f * f == factor * factor * 255) by (nonlinear_arith)
                                requires
                                    f == factor,
                            ;
                        }
                        assert(y * factor + sy < src_dim);
                        assert(x * factor + sx < src_dim);
                        assert((y * factor + sy) * src_dim + (x * factor + sx) < src_dim * src_dim);
                        assert(((y * factor + sy) * src_dim + (x * factor + sx)) * 4 + c < src@.len());
                        let i = ((y * factor + sy) * src_dim + (x * factor + sx)) * 4 + c;
                        row = row + src[i] as u32;
                        sx += 1;
                    }
                    proof {
                        lemma_row_sum_bound(src@, w, f, x as int, y as int, c as int, sy as int, f);
                        lemma_block_sum_bound(src@, w, f, x as int, y as int, c as int, sy as int);
                        assert(255 * f * (sy as int) + 255 * f <= 255 * f * f) by (nonlinear_arith)
                            requires
                                sy < f,
                                0 <= sy,
                                f > 0,
                        ;
                        assert(255 * f * f == factor * factor * 255) by (nonlinear_arith)
                            requires
                                f == factor,
                        ;
                    }
                    acc = acc + row;
                    sy += 1;
                }
                proof {
                    lemma_block_sum_bound(src@, w, f, x as int, y as int, c as int, f);
                    assert(255 * f * f / (f * f) == 255) by (nonlinear_arith)
                        requires
                            f > 0,
                    ;
                    assert(acc / n <= 255) by (nonlinear_arith)
                        requires
                            acc <= 255 * f * f,
                            n == f * f,
                            f > 0,
                    ;
                    assert(n > 0) by (nonlinear_arith)
                        requires
                            n == f * f,
                            f > 0,
                    ;
                    let k = out@.len() as int;
                    assert(k / 4 == y * dst_dim + x && k % 4 == c as int) by (nonlinear_arith)
                        requires
                            k == (y * dst_dim + x) * 4 + c,
                            c < 4,
                    ;
                    assert((y * dst_dim + x) % (dst_dim as int) == x && (y * dst_dim + x) / (dst_dim as int) == y)
                        by (nonlinear_arith)
                        requires
                            x < dst_dim,
                    ;
                }
                out.push((acc / n) as u8);
                c += 1;
            }
            x += 1;
        }
        assert((y * dst_dim + dst_dim) * 4 == (y + 1) * dst_dim * 4) by (nonlinear_arith);
        y += 1;
    }
    out
}

/// The modules of the QR code for `text` at error-correction level M, row
/// by row, `true` for dark; `None` when the text does not fit in a code.
pub uninterp spec fn qr_dark_modules(text: Seq<char>) -> Option<Seq<bool>>;

/// Encodes `text` as a QR code and lists its modules.
///
/// Trusted: calls `qrcode::QrCode::with_error_correction_level` with level
/// M and `to_colors`, mapping each `Color::Dark` to `true`. The result is a
/// function of the text alone and is named, not described; `None` stands
/// for the encoder's error (data too long).
#[verifier::external_body]
fn qr_modules(text: &str) -> (r: Option<Vec<bool>>)
    ensures
        match r {
            Some(v) => qr_dark_modules(text@) == Some(v@),
            None => qr_dark_modules(text@) is None,
        },
{
    match QrCode::with_error_correction_level(text, EcLevel::M) {
        Ok(code) => Some(code.to_colors().iter().map(|c| *c == Color::Dark).collect()),
        Err(_) => None,
    }
}

/// `n` squared.
pub open spec fn sq(n: nat) -> nat {
    n * n
}

/// The side of a square grid of `len` modules, if `len` is a perfect square.
pub open spec fn square_side(len: nat) -> Option<nat> {
    if exists|n: nat| #[trigger] sq(n) == len {
        Some(choose|n: nat| #[trigger] sq(n) == len)
    } else {
        None
    }
}

proof fn lemma_square_unique(a: nat, b: nat)
    requires
        a * a == b * b,
    ensures
        a == b,
{
    if a < b {
        assert(a * a < b * b) by (nonlinear_arith)
            requires
                a < b,
        ;
    } else if b < a {
        assert(b * b < a * a) by (nonlinear_arith)
            requires
                b < a,
        ;
    }
}

/// The side of a square grid of `len` modules, if it is one.
fn grid_side(len: usize) -> (r: Option<usize>)
    ensures
        match r {
            Some(n) => square_side(len as nat) == Some(n as nat),
            None => square_side(len as nat) is None,
        },
{
    let mut n: usize = 0;
    while n < len && n + 1 <= len / (n + 1)
        invariant
            n * n <= len,
            n <= len,
        decreases len - n,
    {
        proof {
            let d = (n + 1) as int;
            let q = len as int / d;
            assert(q * d <= len) by (nonlinear_arith)
                requires
                    d > 0,
                    q == len as int / d,
                    len >= 0,
            ;
            assert(d * d <= q * d) by (nonlinear_arith)
                requires
                    d <= q,
                    d > 0,
            ;
        }
        n += 1;
    }
    proof {
        let d = (n + 1) as int;
        if n < len {
            let q = len as int / d;
            assert(len < (q + 1) * d) by (nonlinear_arith)
                requires
                    d > 0,
                    q == len as int / d,
                    len >= 0,
            ;
            assert((q + 1) * d <= d * d) by (nonlinear_arith)
                requires
                    q + 1 <= d,
                    d > 0,
            ;
        } else {
            assert(len < d * d) by (nonlinear_arith)
                requires
                    n == len,
                    d == n + 1,
            ;
        }
    }
    if n * n == len {
        proof {
            assert(exists|m: nat| #[trigger] sq(m) == len as nat) by {
                assert(sq(n as nat) == len as nat);
            }
            let m = choose|m: nat| #[trigger] sq(m) == len as nat;
            lemma_square_unique(m, n as nat);
        }
        Some(n)
    } else {
        proof {
            assert forall|m: nat| #[trigger] sq(m) != len as nat by {
                if sq(m) == len as nat {
                    if m <= n {
                        assert(m * m <= n * n) by (nonlinear_arith)
                            requires
                                m <= n,
                        ;
                        assert(m * m < n * n);
                        assert(m < n) by (nonlinear_arith)
                            requires
                                m * m < n * n,
                        ;
                    } else {
                        assert(m * m >= (n + 1) * (n + 1)) by (nonlinear_arith)
                            requires
                                m >= n + 1,
                        ;
                    }
                }
            }
        }
        None
    }
}

proof fn lemma_side_small(n: nat)
    requires
        n * n <= usize::MAX,
    ensures
        n + 8 <= usize::MAX,
{
    if n >= 16 {
        assert(n * n >= 16 * n) by (nonlinear_arith)
            requires
                n >= 16,
        ;
    }
}

/// Modules of background around a QR code in the image; without this quiet
/// zone many scanners will not lock on.
pub const IMAGE_QUIET: usize = 4;

/// Whether module `(mx, my)` of an `n` by `n` grid is dark; positions
/// outside the grid are light.
pub open spec fn module_dark(m: Seq<bool>, n: int, mx: int, my: int) -> bool {
    0 <= mx < n && 0 <= my < n && m[my * n + mx]
}

/// Byte `k` of the QR image: white, or black for pixels of dark modules,
/// and always opaque. Each module is `scale` pixels square and the code sits
/// inside a quiet zone of four modules.
pub open spec fn qr_image_byte(m: Seq<bool>, n: int, scale: int, k: int) -> u8 {
    let dim = (n + 8) * scale;
    let p = k / 4;
    let px = p % dim;
    let py = p / dim;
    if k % 4 != 3 && module_dark(m, n, px / scale - 4, py / scale - 4) {
        0
    } else {
        255
    }
}

/// Whether an image of an `n`-module code at `scale` pixels per module fits
/// in memory and its side in a `u32`.
pub open spec fn qr_image_fits(n: nat, scale: nat) -> bool {
    &&& (n + 8) * scale <= u32::MAX
    &&& (n + 8) * scale * ((n + 8) * scale) * 4 <= usize::MAX
}

/// The RGBA image of a square grid of QR modules, with its side in pixels
/// twice; `None` when the modules do not form a square.
pub open spec fn qr_image(m: Seq<bool>, scale: nat) -> Option<(Seq<u8>, u32, u32)> {
    match square_side(m.len()) {
        Some(n) => {
            let dim = (n + 8) * scale;
            Some((Seq::new(dim * dim * 4, |k: int| qr_image_byte(m, n as int, scale as int, k)), dim as u32, dim as u32))
        },
        None => None,
    }
}

/// Renders a square grid of QR modules as an RGBA image, `scale` pixels per
/// module, inside a four-module quiet zone.
pub fn qr_image_from_modules(modules: &[bool], scale: usize) -> (r: Option<(Vec<u8>, u32, u32)>)
    requires
        forall|n: nat| #[trigger] sq(n) == modules@.len() ==> qr_image_fits(n, scale as nat),
    ensures
        match r {
            Some(img) => qr_image(modules@, scale as nat) == Some((img.0@, img.1, img.2)),
            None => qr_image(modules@, scale as nat) is None,
        },
{
    let n = match grid_side(modules.len()) {
        Some(n) => n,
        None => return None,
    };
    proof {
        assert((n as nat) * (n as nat) == modules@.len()) by {
            let m = choose|m: nat| #[trigger] sq(m) == modules@.len();
            assert(m == n as nat);
        }
        assert(qr_image_fits(n as nat, scale as nat));
        lemma_side_small(n as nat);
    }
    let dim = (n + 2 * IMAGE_QUIET) * scale;
    let total = dim * dim * 4;
    let ghost m = modules@;
    let mlen = modules.len();
    let mut px: Vec<u8> = Vec::new();
    let mut k: usize = 0;
    while k < total
        invariant
            n * n == m.len(),
            mlen == m.len(),
            m == modules@,
            dim == (n + 8) * scale,
            total == dim * dim * 4,
            k <= total,
            px@ =~= Seq::new(k as nat, |j: int| qr_image_byte(m, n as int, scale as int, j)),
        decreases total - k,
    {
        proof {
            assert(dim > 0) by (nonlinear_arith)
                requires
                    k < total,
                    total == dim * dim * 4,
            ;
            assert(scale > 0) by (nonlinear_arith)
                requires
                    dim > 0,
                    dim == (n + 8) * scale,
            ;
        }
        let p = k / 4;
        let pxx = p % dim;
        let pyy = p / dim;
        let mx = pxx / scale;
        let my = pyy / scale;
        let dark = if k % 4 != 3 && mx >= 4 && my >= 4 && mx - 4 < n && my - 4 < n {
            proof {
                assert((my - 4) * n + (mx - 4) < n * n && 0 <= (my - 4) * n) by (nonlinear_arith)
                    requires
                        my - 4 < n,
                        mx - 4 < n,
                        my >= 4,
                        mx >= 4,
                ;
            }
            assert((my - 4) * n + (mx - 4) < modules@.len());
            modules[(my - 4) * n + (mx - 4)]
        } else {
            false
        };
        px.push(if dark { 0 } else { 255 });
        k += 1;
    }
    proof {
        assert(square_side(modules@.len()) == Some(n as nat));
    }
    Some((px, dim as u32, dim as u32))
}

/// Renders a QR code for `text` as an RGBA image, `scale` pixels per module,
/// with a four-module quiet zone. `None` when the text does not fit in a QR
/// code, and also when the image would not fit in memory.
pub fn qr_rgba(text: &str, scale: usize) -> (r: Option<(Vec<u8>, u32, u32)>)
    ensures
        match qr_dark_modules(text@) {
            None => r is None,
            Some(m) => match square_side(m.len()) {
                Some(n) => if qr_image_fits(n, scale as nat) {
                    r matches Some(img) && qr_image(m, scale as nat) == Some((img.0@, img.1, img.2))
                } else {
                    r is None
                },
                None => r is None,
            },
        },
{
    let modules = match qr_modules(text) {
        Some(m) => m,
        None => return None,
    };
    let n = match grid_side(modules.len()) {
        Some(n) => n,
        None => return None,
    };
    proof {
        let c = choose|c: nat| #[trigger] sq(c) == modules@.len();
        assert(c == n as nat);
        lemma_side_small(n as nat);
    }
    // The image side, and its area in bytes, must be representable.
    let side = match n.checked_add(2 * IMAGE_QUIET) {
        Some(s) => s,
        None => return None,
    };
    let dim = match side.checked_mul(scale) {
        Some(d) => d,
        None => return None,
    };
    if dim > u32::MAX as usize {
        return None;
    }
    let area = match dim.checked_mul(dim) {
        Some(a) => a,
        None => return None,
    };
    if area > usize::MAX / 4 {
        return None;
    }
    proof {
        assert(qr_image_fits(n as nat, scale as nat));
        assert forall|c: nat| #[trigger] sq(c) == modules@.len() implies qr_image_fits(c, scale as nat) by {
            lemma_square_unique(c, n as nat);
        }
    }
    qr_image_from_modules(modules.as_slice(), scale)
}


/// The character cell for two stacked modules. Inverted on purpose:
/// terminals are usually dark, and a scanner needs dark modules on a light
/// field, so a dark module prints as blank.
pub open spec fn cell_char(top: bool, bottom: bool) -> char {
    match (top, bottom) {
        (true, true) => ' ',
        (true, false) => '▄',
        (false, true) => '▀',
        (false, false) => '█',
    }
}

/// Whether terminal module `(tx, ty)` is dark, where the code sits inside a
/// two-module quiet zone.
pub open spec fn text_dark(m: Seq<bool>, n: int, tx: int, ty: int) -> bool {
    module_dark(m, n, tx - 2, ty - 2)
}

/// One line of the terminal QR: indentation, then a cell for each column
/// covering rows `ty` and `ty + 1`.
pub open spec fn text_row(m: Seq<bool>, n: int, ty: int) -> Seq<char> {
    "    "@ + Seq::new((n + 4) as nat, |tx: int| cell_char(text_dark(m, n, tx, ty), text_dark(m, n, tx, ty + 1)))
        + "\n"@
}

/// The first `r` lines of the terminal QR.
pub open spec fn text_rows(m: Seq<bool>, n: int, r: int) -> Seq<char>
    decreases r,
{
    if r <= 0 {
        Seq::empty()
    } else {
        text_rows(m, n, r - 1) + text_row(m, n, 2 * (r - 1))
    }
}

/// The terminal QR for a square grid of modules: two module rows per line,
/// so the code comes out roughly square; `None` when the modules do not
/// form a square.
pub open spec fn qr_text_of(m: Seq<bool>) -> Option<Seq<char>> {
    match square_side(m.len()) {
        Some(n) => Some(text_rows(m, n as int, (n as int + 5) / 2)),
        None => None,
    }
}

fn dark_at(modules: &[bool], n: usize, tx: usize, ty: usize) -> (r: bool)
    requires
        n * n == modules@.len(),
    ensures
        r == text_dark(modules@, n as int, tx as int, ty as int),
{
    if tx >= 2 && ty >= 2 && tx - 2 < n && ty - 2 < n {
        let len = modules.len();
        proof {
            assert((ty - 2) * n + (tx - 2) < n * n && 0 <= (ty - 2) * n) by (nonlinear_arith)
                requires
                    ty - 2 < n,
                    tx - 2 < n,
                    ty >= 2,
                    tx >= 2,
            ;
        }
        modules[(ty - 2) * n + (tx - 2)]
    } else {
        false
    }
}

/// Renders a square grid of QR modules as monospaced text for a terminal.
pub fn qr_text_from_modules(modules: &[bool]) -> (r: Option<String>)
    ensures
        match r {
            Some(t) => qr_text_of(modules@) == Some(t@),
            None => qr_text_of(modules@) is None,
        },
{
    let n = match grid_side(modules.len()) {
        Some(n) => n,
        None => return None,
    };
    let ghost m = modules@;
    let mlen = modules.len();
    proof {
        let c = choose|c: nat| #[trigger] sq(c) == modules@.len();
        assert(c == n as nat);
        lemma_side_small(n as nat);
    }
    let width = n + 4;
    let mut out = String::new();
    let mut ty: usize = 0;
    while ty < width
        invariant
            n * n == m.len(),
            m == modules@,
            width == n + 4,
            width + 4 <= usize::MAX,
            ty <= width + 1,
            ty % 2 == 0,
            out@ == text_rows(m, n as int, (ty / 2) as int),
        decreases width + 1 - ty,
    {
        let ghost before = out@;
        push_char(&mut out, ' ');
        push_char(&mut out, ' ');
        push_char(&mut out, ' ');
        push_char(&mut out, ' ');
        proof {
            reveal_strlit("    ");
            assert(out@ =~= before + "    "@ + Seq::new(0nat, |x: int| cell_char(text_dark(m, n as int, x, ty as int), text_dark(m, n as int, x, ty + 1))));
        }
        let mut tx: usize = 0;
        while tx < width
            invariant
                n * n == m.len(),
                m == modules@,
                width == n + 4,
                ty < width,
                tx <= width,
                out@ == before + "    "@ + Seq::new(tx as nat, |x: int| cell_char(text_dark(m, n as int, x, ty as int), text_dark(m, n as int, x, ty + 1))),
            decreases width - tx,
        {
            let top = dark_at(modules, n, tx, ty);
            let bottom = dark_at(modules, n, tx, ty + 1);
            let c = if top && bottom {
                ' '
            } else if top {
                '▄'
            } else if bottom {
                '▀'
            } else {
                '█'
            };
            push_char(&mut out, c);
            proof {
                let f = |x: int| cell_char(text_dark(m, n as int, x, ty as int), text_dark(m, n as int, x, ty + 1));
                assert(Seq::new((tx + 1) as nat, f) =~= Seq::new(tx as nat, f).push(f(tx as int)));
            }
            tx += 1;
        }
        push_char(&mut out, '\n');
        proof {
            reveal_strlit("    ");
            reveal_strlit("\n");
            assert(out@ =~= before + text_row(m, n as int, ty as int));
            assert((ty + 2) / 2 == ty / 2 + 1);
        }
        ty += 2;
    }
    proof {
        assert(ty / 2 == (n + 5) / 2);
        assert(square_side(modules@.len()) == Some(n as nat));
    }
    Some(out)
}

/// Whether a terminal cell shows its top module as dark: a dark module
/// prints blank, so the top half of the cell is blank.
pub open spec fn cell_top_dark(c: char) -> bool {
    c == ' ' || c == '▄'
}

/// Whether a terminal cell shows its bottom module as dark.
pub open spec fn cell_bottom_dark(c: char) -> bool {
    c == ' ' || c == '▀'
}

proof fn lemma_text_rows_at(m: Seq<bool>, n: int, r: int, line: int, j: int)
    requires
        n >= 0,
        0 <= line < r,
        0 <= j < n + 9,
    ensures
        text_rows(m, n, r).len() == r * (n + 9),
        text_rows(m, n, r)[line * (n + 9) + j] == text_row(m, n, 2 * line)[j],
    decreases r,
{
    reveal_strlit("    ");
    reveal_strlit("\n");
    let row = text_row(m, n, 2 * (r - 1));
    assert(row.len() == n + 9);
    if r == 1 {
        assert(text_rows(m, n, 0) == Seq::<char>::empty());
        assert(line == 0);
        assert(text_rows(m, n, 1) =~= row);
    } else {
        lemma_text_rows_len(m, n, r - 1);
        let prefix = text_rows(m, n, r - 1);
        assert(prefix.len() == (r - 1) * (n + 9));
        assert(r * (n + 9) == (r - 1) * (n + 9) + (n + 9)) by (nonlinear_arith);
        if line < r - 1 {
            lemma_text_rows_at(m, n, r - 1, line, j);
            assert(line * (n + 9) + j < (r - 1) * (n + 9)) by (nonlinear_arith)
                requires
                    line < r - 1,
                    0 <= j < n + 9,
            ;
        } else {
            assert(line * (n + 9) + j == (r - 1) * (n + 9) + j);
        }
    }
}

proof fn lemma_text_rows_len(m: Seq<bool>, n: int, r: int)
    requires
        n >= 0,
        r >= 0,
    ensures
        text_rows(m, n, r).len() == r * (n + 9),
    decreases r,
{
    reveal_strlit("    ");
    reveal_strlit("\n");
    if r > 0 {
        lemma_text_rows_len(m, n, r - 1);
        assert(text_row(m, n, 2 * (r - 1)).len() == n + 9);
        assert(r * (n + 9) == (r - 1) * (n + 9) + (n + 9)) by (nonlinear_arith);
    } else {
        assert(text_rows(m, n, r) == Seq::<char>::empty());
    }
}

/// The terminal QR can be read back: every cell of every line shows its two
/// modules, top and bottom, dark exactly where the code is dark (blank
/// characters and half blocks standing for dark), so distinct module pairs
/// print as distinct characters. Line `line` of an `n`-module code covers
/// module rows `2 * line - 2` and `2 * line - 1` (the code sits in a quiet
/// zone two modules wide), after four spaces of indentation, and ends with a
/// newline.
pub proof fn lemma_qr_text_reads_back(m: Seq<bool>, n: nat, line: int, tx: int)
    requires
        m.len() == n * n,
        0 <= line < (n + 5) / 2,
        0 <= tx < n + 4,
    ensures
        qr_text_of(m) is Some,
        qr_text_of(m)->0.len() == ((n + 5) / 2) * (n + 9),
        cell_top_dark(qr_text_of(m)->0[line * (n + 9) + 4 + tx]) == module_dark(m, n as int, tx - 2, 2 * line - 2),
        cell_bottom_dark(qr_text_of(m)->0[line * (n + 9) + 4 + tx]) == module_dark(m, n as int, tx - 2, 2 * line - 1),
        qr_text_of(m)->0[line * (n + 9) + n + 8] == '\n',
{
    assert(sq(n) == m.len());
    let c = choose|c: nat| #[trigger] sq(c) == m.len();
    lemma_square_unique(c, n);
    assert(square_side(m.len()) == Some(n));
    let r = (n as int + 5) / 2;
    lemma_text_rows_len(m, n as int, r);
    lemma_text_rows_at(m, n as int, r, line, 4 + tx);
    lemma_text_rows_at(m, n as int, r, line, n as int + 8);
    reveal_strlit("    ");
    reveal_strlit("\n");
    let row = text_row(m, n as int, 2 * line);
    assert(row[4 + tx] == cell_char(text_dark(m, n as int, tx, 2 * line), text_dark(m, n as int, tx, 2 * line + 1)));
    assert(row[n as int + 8] == '\n');
}

/// A QR code for `text` as monospaced text for the terminal; `None` when the
/// text does not fit in a QR code.
pub fn qr_text(text: &str) -> (r: Option<String>)
    ensures
        match qr_dark_modules(text@) {
            None => r is None,
            Some(m) => match r {
                Some(t) => qr_text_of(m) == Some(t@),
                None => qr_text_of(m) is None,
            },
        },
{
    match qr_modules(text) {
        Some(m) => qr_text_from_modules(m.as_slice()),
        None => None,
    }
}


/// The (points, scale) pairs of the iconset macOS expects; the 2x entries
/// are what Retina displays use.
pub open spec fn iconset_size_list() -> Seq<(usize, usize)> {
    seq![
        (16usize, 1usize),
        (16, 2),
        (32, 1),
        (32, 2),
        (128, 1),
        (128, 2),
        (256, 1),
        (256, 2),
        (512, 1),
        (512, 2),
    ]
}

/// The iconset's (points, scale) pairs, in order.
pub fn iconset_sizes() -> (v: Vec<(usize, usize)>)
    ensures
        v@ == iconset_size_list(),
{
    let v = vec![(16, 1), (16, 2), (32, 1), (32, 2), (128, 1), (128, 2), (256, 1), (256, 2), (512, 1), (512, 2)];
    assert(v@ =~= iconset_size_list());
    v
}

/// The file name the icon compiler requires for an entry; it accepts no
/// other.
pub open spec fn iconset_name_text(pt: usize, scale: usize) -> Seq<char> {
    "icon_"@ + decimal(pt as nat) + "x"@ + decimal(pt as nat) + if scale == 1 {
        ".png"@
    } else {
        "@2x.png"@
    }
}

/// "icon_<pt>x<pt>.png", or "icon_<pt>x<pt>@2x.png" for a scaled entry.
pub fn iconset_name(pt: usize, scale: usize) -> (name: String)
    ensures
        name@ == iconset_name_text(pt, scale),
{
    let mut name = String::from_str("icon_");
    push_chars(&mut name, decimal_chars(pt as u64).as_slice());
    push_str(&mut name, "x");
    push_chars(&mut name, decimal_chars(pt as u64).as_slice());
    if scale == 1 {
        push_str(&mut name, ".png");
    } else {
        push_str(&mut name, "@2x.png");
    }
    name
}

} // verus!
