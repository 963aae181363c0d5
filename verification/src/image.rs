//! PNG encoding of 8-bit RGB and RGBA images, for the iconset, the QR code
//! a user can open, and captured frames.

use vstd::prelude::*;

verus! {

/// The PNG file the `png` crate writes for `px`, a `width` by `height`
/// image of 8-bit RGB (when `rgb`) or RGBA samples, or `None` when it
/// refuses the image.
pub uninterp spec fn png_of(px: Seq<u8>, width: u32, height: u32, rgb: bool) -> Option<Seq<u8>>;

/// Bytes per pixel: three for RGB, four for RGBA.
pub open spec fn channels(rgb: bool) -> int {
    if rgb {
        3
    } else {
        4
    }
}

/// Whether the `png` crate accepts an image: both sides non-zero and
/// exactly one sample per channel per pixel.
pub open spec fn png_accepts(px: Seq<u8>, width: u32, height: u32, rgb: bool) -> bool {
    width > 0 && height > 0 && px.len() == width * height * channels(rgb)
}

/// Encodes an 8-bit RGB or RGBA image as PNG into memory.
///
/// Trusted: calls `png::Encoder::new` on a `Vec<u8>`, sets the colour type
/// and a depth of eight bits, then `write_header`, `write_image_data` and
/// `Writer::finish`. Its source refuses a zero width or height in
/// `write_header` and a buffer of any other length than width times height
/// times the bytes per pixel in `write_image_data`; writing into a `Vec`
/// cannot fail otherwise. The bytes it writes are named by [`png_of`]. The
/// size bound keeps the crate's own row and image size products in range.
#[verifier::external_body]
pub(crate) fn png_encode(px: &[u8], width: u32, height: u32, rgb: bool) -> (r: Option<Vec<u8>>)
    requires
        width * height * channels(rgb) < usize::MAX,
    ensures
        match r {
            Some(v) => png_of(px@, width, height, rgb) == Some(v@),
            None => png_of(px@, width, height, rgb) is None,
        },
        r is Some <==> png_accepts(px@, width, height, rgb),
{
    let color = if rgb { png::ColorType::Rgb } else { png::ColorType::Rgba };
    let mut out: Vec<u8> = Vec::new();
    let mut enc = png::Encoder::new(&mut out, width, height);
    enc.set_color(color);
    enc.set_depth(png::BitDepth::Eight);
    let written = match enc.write_header() {
        Ok(mut w) => w.write_image_data(px).and_then(|_| w.finish()).is_ok(),
        Err(_) => false,
    };
    if written { Some(out) } else { None }
}

/// A PNG file of an 8-bit RGBA image, such as an icon or a QR code: `None`
/// exactly when a side is zero or `rgba` does not hold four bytes per
/// pixel.
pub fn rgba_png(rgba: &[u8], width: u32, height: u32) -> (r: Option<Vec<u8>>)
    requires
        width * height * 4 < usize::MAX,
    ensures
        match r {
            Some(v) => png_of(rgba@, width, height, false) == Some(v@),
            None => png_of(rgba@, width, height, false) is None,
        },
        r is Some <==> png_accepts(rgba@, width, height, false),
{
    png_encode(rgba, width, height, false)
}

} // verus!
