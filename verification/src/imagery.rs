//! Imagery handling: JPEG pass-through, PNG → JPEG re-encode, and deriving a
//! tile's imagery from an ancestor by crop-and-upscale when the provider
//! has nothing at the requested zoom.

use crate::codec;
use crate::error;
use crate::error::{Error, ErrorView};
use crate::text;
use crate::tile::two_to;
use vstd::arithmetic::power2::pow2;
use vstd::prelude::*;

verus! {

/// Output texture edge in texels (matches the providers' tiles).
pub const TEXTURE_TEXELS: u32 = 256;

/// The part of an image that a descendant covers.
#[derive(Clone, Copy, Debug, PartialEq, Eq, Structural)]
pub struct Rect {
    /// Left column.
    pub x: u32,
    /// Top row.
    pub y: u32,
    /// Columns.
    pub width: u32,
    /// Rows.
    pub height: u32,
}

/// A failure of the image codec on the asset `what`.
pub open spec fn codec_fault(what: Seq<char>, e: image::ImageError) -> ErrorView {
    ErrorView::Decode { what, reason: codec::error_text(e) }
}

/// The message for an image too small to split `n` ways.
pub open spec fn too_small_message(w: u32, h: u32, n: nat) -> Seq<char> {
    "ancestor "@ + text::decimal_text(w as nat) + "×"@ + text::decimal_text(h as nat)
        + " too small to split into "@ + text::decimal_text(n) + "×"@ + text::decimal_text(n)
        + " children"@
}

/// The square `(qx, qy)` of the `n × n` equal parts of a `w × h` image.
pub open spec fn rect_spec(w: u32, h: u32, n: nat, qx: u32, qy: u32) -> Rect {
    let cw = w as nat / n;
    let ch = h as nat / n;
    Rect { x: (qx * cw) as u32, y: (qy * ch) as u32, width: cw as u32, height: ch as u32 }
}

/// An image as JPEG at `quality`.
pub open spec fn encoded(img: image::DynamicImage, quality: u8, what: Seq<char>) -> Result<
    Seq<u8>,
    ErrorView,
> {
    match codec::jpeg_stream(img, quality) {
        Ok(bytes) => Ok(bytes),
        Err(e) => Err(codec_fault(what + " (jpeg encode)"@, e)),
    }
}

/// A stream decoded by its signature.
pub open spec fn sniffed(bytes: Seq<u8>, what: Seq<char>) -> Result<
    image::DynamicImage,
    ErrorView,
> {
    match codec::guessed_format(bytes) {
        Ok(format) => match codec::decoded_image(bytes, format) {
            Ok(img) => Ok(img),
            Err(e) => Err(codec_fault(what, e)),
        },
        Err(e) => Err(codec_fault(what, e)),
    }
}

/// The provider's bytes as JPEG: untouched when they are JPEG, else decoded
/// and encoded.
pub open spec fn to_jpeg_spec(bytes: Seq<u8>, quality: u8, what: Seq<char>) -> Result<
    Seq<u8>,
    ErrorView,
> {
    if codec::is_jpeg_stream(bytes) {
        Ok(bytes)
    } else {
        match sniffed(bytes, what) {
            Ok(img) => encoded(img, quality, what),
            Err(e) => Err(e),
        }
    }
}

/// The part of a decoded ancestor that a descendant covers, enlarged to a
/// full texture and encoded.
pub open spec fn quadrant_spec(
    img: image::DynamicImage,
    dz: u8,
    qx: u32,
    qy: u32,
    quality: u8,
    what: Seq<char>,
) -> Result<Seq<u8>, ErrorView> {
    let (w, h) = codec::image_size(img);
    let n = pow2(dz as nat);
    if w < n || h < n {
        Err(ErrorView::Decode { what, reason: too_small_message(w, h, n) })
    } else {
        let r = rect_spec(w, h, n, qx, qy);
        let cut = codec::cropped_image(img, r.x, r.y, r.width, r.height);
        encoded(codec::resized_image(cut, TEXTURE_TEXELS, TEXTURE_TEXELS), quality, what)
    }
}

/// The imagery of a tile `dz` levels below the one `bytes` shows.
pub open spec fn derive_spec(
    bytes: Seq<u8>,
    dz: u8,
    qx: u32,
    qy: u32,
    quality: u8,
    what: Seq<char>,
) -> Result<Seq<u8>, ErrorView> {
    if dz == 0 {
        to_jpeg_spec(bytes, quality, what)
    } else {
        match sniffed(bytes, what) {
            Ok(img) => quadrant_spec(img, dz, qx, qy, quality, what),
            Err(e) => Err(e),
        }
    }
}

/// The library's error for a failure of the image codec.
pub(crate) fn codec_error(what: &str, e: &image::ImageError) -> (r: Error)
    ensures
        r@ == codec_fault(what@, *e),
{
    Error::Decode { what: what.to_owned(), reason: codec::message(e) }
}

/// The square `(qx, qy)` of the `2^dz × 2^dz` equal parts of a `w × h` image,
/// or `None` where a part would be empty.
pub fn window_rect(w: u32, h: u32, dz: u8, qx: u32, qy: u32) -> (r: Option<Rect>)
    requires
        dz < 32,
        qx < pow2(dz as nat),
        qy < pow2(dz as nat),
    ensures
        r is None <==> w < pow2(dz as nat) || h < pow2(dz as nat),
        r is Some ==> {
            let n = pow2(dz as nat);
            &&& r->0 == rect_spec(w, h, n, qx, qy)
            &&& r->0.x + r->0.width <= w
            &&& r->0.y + r->0.height <= h
            &&& r->0.width >= 1
            &&& r->0.height >= 1
        },
{
    proof {
        crate::tile::lemma_axis_bound(dz as nat);
    }
    let n: u32 = two_to(dz) as u32;
    if w < n || h < n {
        return None;
    }
    let cw: u32 = w / n;
    let ch: u32 = h / n;
    proof {
        lemma_part(w as int, n as int, qx as int);
        lemma_part(h as int, n as int, qy as int);
    }
    Some(Rect { x: qx * cw, y: qy * ch, width: cw, height: ch })
}

proof fn lemma_part(w: int, n: int, q: int)
    requires
        0 < n <= w,
        0 <= q < n,
    ensures
        1 <= w / n,
        0 <= q * (w / n),
        q * (w / n) + w / n <= w,
{
    vstd::arithmetic::div_mod::lemma_div_non_zero(w, n);
    vstd::arithmetic::div_mod::lemma_fundamental_div_mod(w, n);
    vstd::arithmetic::div_mod::lemma_mod_bound(w, n);
    let c = w / n;
    assert(0 <= q * c && q * c + c <= n * c) by (nonlinear_arith)
        requires
            0 <= q < n,
            1 <= c,
    ;
}

/// Encode as baseline RGB JPEG at `quality` (any alpha channel is dropped —
/// terrain imagery has no meaningful transparency).
pub fn encode_jpeg(img: &image::DynamicImage, quality: u8, what: &str) -> (r: Result<
    Vec<u8>,
    Error,
>)
    ensures
        error::bytes_view(r) == encoded(*img, quality, what@),
        r is Ok ==> codec::is_jpeg_stream(r->Ok_0@),
        r is Ok <==> codec::encodable(codec::image_size(*img)),
{
    match codec::encode(img, quality) {
        Ok(bytes) => Ok(bytes),
        Err(e) => {
            let what: String = text::join2(what, " (jpeg encode)");
            Err(codec_error(what.as_str(), &e))
        },
    }
}

/// Decode `bytes` by the format its magic bytes tell — never by a file name:
/// the cache stores imagery under `.png` even when the provider sent JPEG.
fn sniff(bytes: &[u8], what: &str) -> (r: Result<image::DynamicImage, Error>)
    ensures
        match r {
            Ok(img) => sniffed(bytes@, what@) == Ok::<image::DynamicImage, ErrorView>(img),
            Err(e) => sniffed(bytes@, what@) == Err::<image::DynamicImage, ErrorView>(e@),
        },
{
    match codec::guess_format(bytes) {
        Ok(format) => match codec::decode(bytes, format) {
            Ok(img) => Ok(img),
            Err(e) => Err(codec_error(what, &e)),
        },
        Err(e) => Err(codec_error(what, &e)),
    }
}

/// Turn provider bytes into the JPEG embedded in the GLB. JPEG passes
/// through untouched (deterministic, lossless); anything else is decoded and
/// encoded at `quality`.
pub fn to_jpeg(bytes: &[u8], quality: u8, what: &str) -> (r: Result<Vec<u8>, Error>)
    ensures
        error::bytes_view(r) == to_jpeg_spec(bytes@, quality, what@),
        r is Ok ==> codec::is_jpeg_stream(r->Ok_0@),
        r is Ok <==> codec::is_jpeg_stream(bytes@) || (sniffed(bytes@, what@) is Ok
            && codec::encodable(codec::image_size(sniffed(bytes@, what@)->Ok_0))),
{
    match codec::guess_format(bytes) {
        Err(e) => Err(codec_error(what, &e)),
        Ok(format) => {
            if codec::is_jpeg(&format) {
                return Ok(vstd::slice::slice_to_vec(bytes));
            }
            match codec::decode(bytes, format) {
                Ok(img) => encode_jpeg(&img, quality, what),
                Err(e) => Err(codec_error(what, &e)),
            }
        },
    }
}

/// The part of a decoded ancestor that a tile `dz` levels below it covers,
/// at window offset `(qx, qy)`, upscaled to 256×256 (bilinear — the ancestor
/// is already the best data there is; sharper filters only invent edges).
pub fn derive_from_image(
    img: &image::DynamicImage,
    dz: u8,
    qx: u32,
    qy: u32,
    quality: u8,
    what: &str,
) -> (r: Result<Vec<u8>, Error>)
    requires
        dz < 32,
        qx < pow2(dz as nat),
        qy < pow2(dz as nat),
    ensures
        error::bytes_view(r) == quadrant_spec(*img, dz, qx, qy, quality, what@),
        r is Ok ==> codec::is_jpeg_stream(r->Ok_0@),
        r is Ok <==> codec::image_size(*img).0 >= pow2(dz as nat) && codec::image_size(*img).1
            >= pow2(dz as nat),
        r is Ok ==> ({
            let cw = codec::image_size(*img).0 as nat / pow2(dz as nat);
            let ch = codec::image_size(*img).1 as nat / pow2(dz as nat);
            let square = codec::cropped_image(
                *img,
                (qx * cw) as u32,
                (qy * ch) as u32,
                cw as u32,
                ch as u32,
            );
            codec::jpeg_stream(codec::resized_image(square, 256, 256), quality) == Ok::<
                Seq<u8>,
                image::ImageError,
            >(r->Ok_0@)
        }),
{
    let (w, h): (u32, u32) = codec::dimensions(img);
    match window_rect(w, h, dz, qx, qy) {
        None => {
            let n: String = text::decimal(two_to(dz));
            let ws: String = text::decimal(w as u64);
            let hs: String = text::decimal(h as u64);
            let mut reason: String = text::join3("ancestor ", ws.as_str(), "×");
            reason.append(hs.as_str());
            reason.append(" too small to split into ");
            reason.append(n.as_str());
            reason.append("×");
            reason.append(n.as_str());
            reason.append(" children");
            Err(Error::Decode { what: what.to_owned(), reason })
        },
        Some(rect) => {
            let cut: image::DynamicImage = codec::crop(
                img,
                rect.x,
                rect.y,
                rect.width,
                rect.height,
            );
            let up: image::DynamicImage = codec::resize(&cut, TEXTURE_TEXELS, TEXTURE_TEXELS);
            encode_jpeg(&up, quality, what)
        },
    }
}

/// Imagery for a tile `dz` levels below `ancestor_bytes`' tile, at window
/// offset `(qx, qy)`: crop the square the tile covers and upscale it to
/// 256×256. `dz == 0` is [`to_jpeg`].
pub fn derive_from_ancestor(
    ancestor_bytes: &[u8],
    dz: u8,
    qx: u32,
    qy: u32,
    quality: u8,
    what: &str,
) -> (r: Result<Vec<u8>, Error>)
    requires
        dz < 32,
        dz > 0 ==> qx < pow2(dz as nat) && qy < pow2(dz as nat),
    ensures
        error::bytes_view(r) == derive_spec(ancestor_bytes@, dz, qx, qy, quality, what@),
        r is Ok ==> codec::is_jpeg_stream(r->Ok_0@),
        dz == 0 ==> (r is Ok <==> codec::is_jpeg_stream(ancestor_bytes@) || (sniffed(
            ancestor_bytes@,
            what@,
        ) is Ok && codec::encodable(
            codec::image_size(sniffed(ancestor_bytes@, what@)->Ok_0),
        ))),
        dz > 0 ==> (r is Ok <==> sniffed(ancestor_bytes@, what@) is Ok && {
            let (w, h) = codec::image_size(sniffed(ancestor_bytes@, what@)->Ok_0);
            w >= pow2(dz as nat) && h >= pow2(dz as nat)
        }),
{
    if dz == 0 {
        return to_jpeg(ancestor_bytes, quality, what);
    }
    match sniff(ancestor_bytes, what) {
        Ok(img) => derive_from_image(&img, dz, qx, qy, quality, what),
        Err(e) => Err(e),
    }
}

// -- laws ------------------------------------------------------------------------

/// The squares that an image is split into for descendants cover it evenly
/// and without overlap: each is `w / n` by `h / n` texels, begins at
/// `(qx·(w / n), qy·(h / n))`, and holds exactly the texels of the image in
/// that column and that row of squares.
pub proof fn law_squares_split_the_image(w: u32, h: u32, n: nat, qx: u32, qy: u32, x: int, y: int)
    requires
        0 < n,
        n <= w,
        n <= h,
        qx < n,
        qy < n,
        0 <= x < w,
        0 <= y < h,
    ensures
        ({
            let r = rect_spec(w, h, n, qx, qy);
            let (cw, ch) = (w as int / n as int, h as int / n as int);
            &&& r.width == cw
            &&& r.height == ch
            &&& 1 <= cw
            &&& 1 <= ch
            &&& r.x + r.width <= w
            &&& r.y + r.height <= h
            &&& r.x <= x < r.x + r.width && r.y <= y < r.y + r.height <==> x / cw == qx && y / ch
                == qy
            &&& r.x == qx * cw
            &&& r.y == qy * ch
        }),
{
    lemma_part(w as int, n as int, qx as int);
    lemma_part(h as int, n as int, qy as int);
    vstd::arithmetic::div_mod::lemma_div_is_ordered_by_denominator(w as int, 1, n as int);
    vstd::arithmetic::div_mod::lemma_div_is_ordered_by_denominator(h as int, 1, n as int);
    lemma_in_part(x, w as int / n as int, qx as int);
    lemma_in_part(y, h as int / n as int, qy as int);
}

proof fn lemma_in_part(x: int, c: int, q: int)
    requires
        0 <= x,
        1 <= c,
    ensures
        x / c == q <==> q * c <= x < q * c + c,
{
    vstd::arithmetic::div_mod::lemma_fundamental_div_mod(x, c);
    vstd::arithmetic::div_mod::lemma_mod_bound(x, c);
    assert(c * (x / c) == (x / c) * c) by (nonlinear_arith);
    if q * c <= x < q * c + c {
        assert(q * c == c * q) by (nonlinear_arith);
        vstd::arithmetic::div_mod::lemma_fundamental_div_mod_converse(x, c, q, x - q * c);
    }
}

/// The imagery of a descendant is the whole square of the ancestor that it
/// covers, enlarged to 256×256 and encoded at the given quality: the square
/// is `w / 2^dz` texels wide and `h / 2^dz` high, and begins `qx` such widths
/// from the west and `qy` such heights from the north. An ancestor with fewer
/// texels than squares fails.
pub proof fn law_descendants_show_their_whole_square(
    img: image::DynamicImage,
    dz: u8,
    qx: u32,
    qy: u32,
    quality: u8,
    what: Seq<char>,
)
    ensures
        ({
            let (w, h) = codec::image_size(img);
            let n = pow2(dz as nat);
            let (cw, ch) = (w as nat / n, h as nat / n);
            let square = codec::cropped_image(
                img,
                (qx * cw) as u32,
                (qy * ch) as u32,
                cw as u32,
                ch as u32,
            );
            let r = quadrant_spec(img, dz, qx, qy, quality, what);
            if w < n || h < n {
                r is Err && r->Err_0 is Decode
            } else {
                match codec::jpeg_stream(codec::resized_image(square, 256, 256), quality) {
                    Ok(bytes) => r == Ok::<Seq<u8>, ErrorView>(bytes),
                    Err(e) => r is Err && r->Err_0 is Decode,
                }
            }
        }),
{
}

/// A tile's own imagery is never encoded anew where it is JPEG: the
/// provider's bytes are handed on as they are. Anything else is decoded, as
/// its first bytes tell, and encoded whole at the given quality.
pub proof fn law_jpeg_passes_untouched(
    bytes: Seq<u8>,
    qx: u32,
    qy: u32,
    quality: u8,
    what: Seq<char>,
    img: image::DynamicImage,
)
    ensures
        bytes.len() >= 3 && bytes[0] == 0xff && bytes[1] == 0xd8 && bytes[2] == 0xff
            ==> derive_spec(bytes, 0, qx, qy, quality, what) == Ok::<Seq<u8>, ErrorView>(bytes),
        !(bytes.len() >= 3 && bytes[0] == 0xff && bytes[1] == 0xd8 && bytes[2] == 0xff)
            && codec::guessed_format(bytes) is Ok && codec::decoded_image(
            bytes,
            codec::guessed_format(bytes)->Ok_0,
        ) == Ok::<image::DynamicImage, image::ImageError>(img) && codec::jpeg_stream(
            img,
            quality,
        ) is Ok ==> derive_spec(bytes, 0, qx, qy, quality, what) == Ok::<Seq<u8>, ErrorView>(
            codec::jpeg_stream(img, quality)->Ok_0,
        ),
{
}

/// A descendant's imagery is made from what the ancestor's bytes decode to,
/// as their first bytes tell; bytes that do not decode fail it.
pub proof fn law_descendants_decode_their_ancestor(
    bytes: Seq<u8>,
    dz: u8,
    qx: u32,
    qy: u32,
    quality: u8,
    what: Seq<char>,
)
    requires
        dz > 0,
    ensures
        match codec::guessed_format(bytes) {
            Err(_) => derive_spec(bytes, dz, qx, qy, quality, what) is Err,
            Ok(format) => match codec::decoded_image(bytes, format) {
                Err(_) => derive_spec(bytes, dz, qx, qy, quality, what) is Err,
                Ok(img) => derive_spec(bytes, dz, qx, qy, quality, what) == quadrant_spec(
                    img,
                    dz,
                    qx,
                    qy,
                    quality,
                    what,
                ),
            },
        },
{
}

} // verus!
