//! Thumbnail image encoding: from raw interleaved pixels, as the platform
//! capture hands them over, to the base64 data URL the UI displays.
//!
//! The pixel readback itself is platform work; everything from the raw
//! buffer onward happens here: the channel swap into the encoder's byte
//! order, PNG encoding, and the base64 data URL.

use vstd::prelude::*;

use base64::Engine;

verus! {

/// What the standard base64 engine produces for a byte string.
pub uninterp spec fn base64_of(bytes: Seq<u8>) -> Seq<char>;

/// Relies on base64's `STANDARD` engine: the padded standard alphabet,
/// four output characters for every started group of three input bytes,
/// and a result that depends on the input bytes alone.
#[verifier::external_body]
pub fn base64_encode(bytes: &Vec<u8>) -> (r: String)
    ensures
        r@ == base64_of(bytes@),
        r@.len() == 4 * ((bytes@.len() + 2) / 3),
{
    base64::engine::general_purpose::STANDARD.encode(bytes)
}

/// What the png encoder produces for an eight-bit RGBA image of the given
/// size.
pub uninterp spec fn png_of(pixels: Seq<u8>, width: u32, height: u32) -> Seq<u8>;

/// Relies on png's `Encoder` and `Writer`: encoding eight-bit RGBA pixels
/// at fixed default settings, so the bytes produced are a function of the
/// pixels and dimensions alone. The encoder accepts exactly the images
/// with positive dimensions whose buffer holds four bytes per pixel, and
/// refuses anything else; writing into a byte vector cannot itself fail.
/// The encoder multiplies the row length by the height in machine words,
/// so the byte count must fit one.
#[verifier::external_body]
fn png_encode_rgba(pixels: &Vec<u8>, width: u32, height: u32) -> (r: Option<Vec<u8>>)
    requires
        4 * width * height <= usize::MAX,
    ensures
        (r is Some) == (width > 0 && height > 0 && pixels@.len() == 4 * width * height),
        r matches Some(data) ==> data@ == png_of(pixels@, width, height),
{
    let mut out: Vec<u8> = Vec::new();
    {
        let mut encoder = png::Encoder::new(&mut out, width, height);
        encoder.set_color(png::ColorType::Rgba);
        encoder.set_depth(png::BitDepth::Eight);
        let mut writer = encoder.write_header().ok()?;
        writer.write_image_data(pixels).ok()?;
    }
    Some(out)
}

/// The RGBA reordering of an interleaved blue-green-red-alpha buffer: the
/// blue and red samples of each pixel trade places.
pub open spec fn rgba_from_bgra(p: Seq<u8>) -> Seq<u8>
    decreases p.len(),
{
    if p.len() < 4 {
        Seq::empty()
    } else {
        seq![p[2], p[1], p[0], p[3]] + rgba_from_bgra(p.skip(4))
    }
}

/// Reorders an interleaved blue-green-red-alpha buffer into RGBA.
#[verifier::loop_isolation(false)]
pub fn bgra_to_rgba(pixels: &Vec<u8>) -> (r: Vec<u8>)
    ensures
        r@ == rgba_from_bgra(pixels@),
{
    let n = pixels.len();
    let mut r: Vec<u8> = Vec::new();
    let mut idx: usize = 0;
    proof {
        assert(pixels@.skip(0) =~= pixels@);
        assert(Seq::<u8>::empty() + rgba_from_bgra(pixels@) =~= rgba_from_bgra(pixels@));
    }
    while idx < n && n - idx >= 4
        invariant
            idx <= pixels@.len(),
            rgba_from_bgra(pixels@) == r@ + rgba_from_bgra(pixels@.skip(idx as int)),
        decreases pixels@.len() - idx,
    {
        proof {
            let s = pixels@.skip(idx as int);
            assert(s.len() >= 4);
            assert(s[0] == pixels@[idx as int]);
            assert(s[1] == pixels@[idx + 1]);
            assert(s[2] == pixels@[idx + 2]);
            assert(s[3] == pixels@[idx + 3]);
            assert(s.skip(4) =~= pixels@.skip(idx + 4));
            assert(rgba_from_bgra(s) == seq![s[2], s[1], s[0], s[3]] + rgba_from_bgra(s.skip(4)));
        }
        r.push(pixels[idx + 2]);
        r.push(pixels[idx + 1]);
        r.push(pixels[idx]);
        r.push(pixels[idx + 3]);
        proof {
            assert(rgba_from_bgra(pixels@) =~= r@ + rgba_from_bgra(pixels@.skip(idx + 4)));
        }
        idx = idx + 4;
    }
    proof {
        assert(rgba_from_bgra(pixels@.skip(idx as int)) == Seq::<u8>::empty());
        assert(r@ =~= rgba_from_bgra(pixels@));
    }
    r
}

/// The data URL a PNG thumbnail is delivered under.
pub open spec fn png_data_url_of(png: Seq<u8>) -> Seq<char> {
    "data:image/png;base64,"@ + base64_of(png)
}

/// Wraps encoded image bytes in the data URL the UI displays.
pub fn png_to_data_url(png_bytes: &Vec<u8>) -> (r: String)
    ensures
        r@ == png_data_url_of(png_bytes@),
{
    let mut s = String::from_str("data:image/png;base64,");
    let b64 = base64_encode(png_bytes);
    s.append(b64.as_str());
    s
}

/// Encodes one captured frame, as interleaved blue-green-red-alpha pixels,
/// into a PNG data URL for the UI. This succeeds exactly when the
/// dimensions are positive and the reordered buffer holds four bytes per
/// pixel; on anything else a caller degrades to an empty placeholder
/// rather than failing its whole listing.
pub fn pixels_to_base64_png(pixels: &Vec<u8>, width: u32, height: u32) -> (r: Option<String>)
    ensures
        r is Some <==> width > 0 && height > 0 && rgba_from_bgra(pixels@).len() == 4 * width
            * height,
        r matches Some(s) ==> s@ == png_data_url_of(
            png_of(rgba_from_bgra(pixels@), width, height),
        ),
{
    let rgba = bgra_to_rgba(pixels);
    if width == 0 || height == 0 {
        return None;
    }
    proof {
        assert(4 * (width as int) * (height as int) < u128::MAX) by (nonlinear_arith)
            requires
                width <= u32::MAX,
                height <= u32::MAX,
        ;
    }
    let expected: u128 = 4 * (width as u128) * (height as u128);
    if (rgba.len() as u128) != expected {
        return None;
    }
    match png_encode_rgba(&rgba, width, height) {
        Some(png_bytes) => Some(png_to_data_url(&png_bytes)),
        None => None,
    }
}

} // verus!
