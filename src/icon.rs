//! The icon pipeline: decode an arbitrary image, cut the centred square out
//! of it, turn it half a turn (the key windows are mounted upside down),
//! scale it to the key's edge and encode it as JPEG.

use vstd::prelude::*;
use vstd::arithmetic::div_mod::{
    lemma_fundamental_div_mod_converse_div,
    lemma_fundamental_div_mod_converse_mod,
};
use crate::pager::{image_pages, page_bytes, page_count};

verus! {

/// image::ImageError, carried unread as the error of the decoding and
/// encoding calls below.
#[verifier::external_type_specification]
#[verifier::external_body]
pub struct ExImageError(image::ImageError);

/// Edge length, in pixels, of a key's display.
pub const KEY_EDGE: u32 = 72;

/// JPEG quality used for the images sent to the device.
pub const JPEG_QUALITY: u8 = 100;

/// An RGBA bitmap: rows from top to bottom, four bytes per pixel.
pub struct Bitmap {
    pub width: u32,
    pub height: u32,
    pub rgba: Vec<u8>,
}

/// Why an icon could not be prepared.
#[derive(Debug, Clone, Copy, PartialEq, Eq, Structural)]
pub enum IconError {
    /// The source bytes are not an image in a format that can be read.
    Decode,
    /// The key-sized bitmap could not be encoded.
    Encode,
}

/// Number of bytes of a `w` by `h` RGBA bitmap.
pub open spec fn rgba_len(w: nat, h: nat) -> nat {
    4 * (w * h)
}

/// Offset of channel `k` of pixel `(x, y)` in an RGBA bitmap of width `w`.
pub open spec fn px(w: nat, x: nat, y: nat, k: nat) -> int {
    (4 * (y * w + x) + k) as int
}

impl Bitmap {
    /// The buffer holds exactly `width * height` pixels.
    pub open spec fn wf(&self) -> bool {
        self.rgba@.len() == rgba_len(self.width as nat, self.height as nat)
    }
}

/// The `cw` by `ch` rectangle of `pix` (of width `w`) whose top-left corner
/// is `(x, y)`.
pub open spec fn cropped(w: nat, pix: Seq<u8>, x: nat, y: nat, cw: nat, ch: nat) -> Seq<u8> {
    Seq::new(rgba_len(cw, ch), |i: int| {
        let p = i / 4;
        pix[px(w, x + (p % cw as int) as nat, y + (p / cw as int) as nat, (i % 4) as nat)]
    })
}

/// `pix` (`w` by `h`) turned by 180 degrees.
pub open spec fn rotated(w: nat, h: nat, pix: Seq<u8>) -> Seq<u8> {
    Seq::new(rgba_len(w, h), |i: int| {
        let p = i / 4;
        pix[px(w, (w - 1 - p % w as int) as nat, (h - 1 - p / w as int) as nat, (i % 4) as nat)]
    })
}

/// Width, height and RGBA pixels of the image that `raw` encodes, if it is
/// one that can be read.
pub uninterp spec fn decoded_rgba(raw: Seq<u8>) -> Option<(u32, u32, Seq<u8>)>;

/// The `nw` by `nh` nearest-neighbour scaling of a `w` by `h` RGBA bitmap.
pub uninterp spec fn nearest_resized(w: u32, h: u32, pix: Seq<u8>, nw: u32, nh: u32) -> Seq<u8>;

/// The baseline JPEG encoding of a `w` by `h` RGBA bitmap at `quality`, if
/// the encoder accepts it.
pub uninterp spec fn jpeg_encoded(w: u32, h: u32, pix: Seq<u8>, quality: u8) -> Option<Seq<u8>>;

/// A width and height that the JPEG encoder accepts.
pub open spec fn jpeg_size_ok(w: u32, h: u32) -> bool {
    1 <= w <= 65535 && 1 <= h <= 65535
}

/// The bytes open with the JPEG start-of-image marker `FF D8`.
pub open spec fn starts_with_soi(v: Seq<u8>) -> bool {
    v.len() >= 2 && v[0] == 0xFF && v[1] == 0xD8
}

/// Relies on image::guess_format (the built-in table of signatures),
/// image::load_from_memory_with_format (a built-in format, so no decoding
/// hook is consulted) and DynamicImage::to_rgba8: the result depends on the
/// bytes alone.
#[verifier::external_body]
fn decode_rgba(raw: &[u8]) -> (r: Result<Bitmap, image::ImageError>)
    ensures
        r is Ok <==> decoded_rgba(raw@) is Some,
        r matches Ok(b) ==> b.wf() && decoded_rgba(raw@) == Some((b.width, b.height, b.rgba@)),
{
    let format = match image::guess_format(raw) {
        Ok(f) => f,
        Err(e) => return Err(e),
    };
    match image::load_from_memory_with_format(raw, format) {
        Ok(img) => {
            let buf = img.to_rgba8();
            Ok(Bitmap { width: buf.width(), height: buf.height(), rgba: buf.into_raw() })
        },
        Err(e) => Err(e),
    }
}

/// Relies on image::imageops::crop_imm and SubImage::to_image: with the
/// rectangle inside the image, the copy holds exactly its pixels.
#[verifier::external_body]
fn crop_rgba(b: &Bitmap, x: u32, y: u32, cw: u32, ch: u32) -> (r: Bitmap)
    requires
        b.wf(),
        x + cw <= b.width,
        y + ch <= b.height,
    ensures
        r.width == cw,
        r.height == ch,
        r.rgba@ == cropped(b.width as nat, b.rgba@, x as nat, y as nat, cw as nat, ch as nat),
{
    let src = image::RgbaImage::from_raw(b.width, b.height, b.rgba.clone()).expect("sized buffer");
    let out = image::imageops::crop_imm(&src, x, y, cw, ch).to_image();
    Bitmap { width: out.width(), height: out.height(), rgba: out.into_raw() }
}

/// Relies on image::imageops::rotate180: pixel `(x, y)` moves to
/// `(w - 1 - x, h - 1 - y)`.
#[verifier::external_body]
fn rotate_half_turn(b: &Bitmap) -> (r: Bitmap)
    requires
        b.wf(),
    ensures
        r.width == b.width,
        r.height == b.height,
        r.rgba@ == rotated(b.width as nat, b.height as nat, b.rgba@),
{
    let src = image::RgbaImage::from_raw(b.width, b.height, b.rgba.clone()).expect("sized buffer");
    let out = image::imageops::rotate180(&src);
    Bitmap { width: out.width(), height: out.height(), rgba: out.into_raw() }
}

/// Relies on image::imageops::resize with FilterType::Nearest: the result
/// has exactly the requested size and depends on the source alone.
#[verifier::external_body]
fn resize_nearest(b: &Bitmap, nw: u32, nh: u32) -> (r: Bitmap)
    requires
        b.wf(),
        rgba_len(nw as nat, nh as nat) <= usize::MAX,
    ensures
        r.width == nw,
        r.height == nh,
        r.wf(),
        r.rgba@ == nearest_resized(b.width, b.height, b.rgba@, nw, nh),
{
    let src = image::RgbaImage::from_raw(b.width, b.height, b.rgba.clone()).expect("sized buffer");
    let out = image::imageops::resize(&src, nw, nh, image::imageops::FilterType::Nearest);
    Bitmap { width: out.width(), height: out.height(), rgba: out.into_raw() }
}

/// Relies on image::codecs::jpeg::JpegEncoder (new_with_quality, then
/// encode_image) writing into memory: the bytes, or the refusal, depend on
/// the bitmap and the quality alone; it refuses only a width or height
/// outside `1..=65535`, and its output opens with the start-of-image marker.
#[verifier::external_body]
fn encode_jpeg(b: &Bitmap, quality: u8) -> (r: Result<Vec<u8>, image::ImageError>)
    requires
        b.wf(),
    ensures
        r is Ok <==> jpeg_encoded(b.width, b.height, b.rgba@, quality) is Some,
        r matches Ok(v) ==> jpeg_encoded(b.width, b.height, b.rgba@, quality) == Some(v@),
        r is Ok <==> jpeg_size_ok(b.width, b.height),
        r matches Ok(v) ==> starts_with_soi(v@),
{
    let src = image::RgbaImage::from_raw(b.width, b.height, b.rgba.clone()).expect("sized buffer");
    let mut data: Vec<u8> = Vec::new();
    let mut encoder = image::codecs::jpeg::JpegEncoder::new_with_quality(&mut data, quality);
    match encoder.encode_image(&src) {
        Ok(()) => Ok(data),
        Err(e) => Err(e),
    }
}

/// The centred square crop of a `w` by `h` image: left offset, top offset
/// and edge, the edge being the smaller dimension.
pub open spec fn crop_geometry(w: u32, h: u32) -> (u32, u32, u32) {
    let s = if w < h { w } else { h };
    (((w - s) / 2) as u32, ((h - s) / 2) as u32, s)
}

/// The key-sized pixels made from a `w` by `h` source: centred square crop,
/// half turn, nearest-neighbour scaling to `KEY_EDGE`.
pub open spec fn key_pixels(w: u32, h: u32, pix: Seq<u8>) -> Seq<u8> {
    let (x, y, s) = crop_geometry(w, h);
    nearest_resized(
        s,
        s,
        rotated(s as nat, s as nat, cropped(w as nat, pix, x as nat, y as nat, s as nat, s as nat)),
        KEY_EDGE,
        KEY_EDGE,
    )
}

/// What the encoded icon for the source bytes `raw` is, or why there is none.
pub open spec fn icon_jpeg(raw: Seq<u8>) -> Result<Seq<u8>, IconError> {
    match decoded_rgba(raw) {
        None => Err(IconError::Decode),
        Some((w, h, pix)) => match jpeg_encoded(KEY_EDGE, KEY_EDGE, key_pixels(w, h, pix), JPEG_QUALITY) {
            None => Err(IconError::Encode),
            Some(j) => Ok(j),
        },
    }
}

/// Left offset, top offset and edge of the centred square crop of a
/// `width` by `height` image.
pub fn centered_crop(width: u32, height: u32) -> (r: (u32, u32, u32))
    ensures
        r == crop_geometry(width, height),
        r.0 + r.2 <= width,
        r.1 + r.2 <= height,
{
    let s: u32 = if width < height { width } else { height };
    ((width - s) / 2, (height - s) / 2, s)
}

/// Turns a decoded bitmap into the bitmap shown on a key: the centred
/// square, turned half a turn, scaled to `KEY_EDGE` by `KEY_EDGE`.
pub fn render_key_bitmap(b: &Bitmap) -> (r: Bitmap)
    requires
        b.wf(),
    ensures
        r.wf(),
        r.width == KEY_EDGE,
        r.height == KEY_EDGE,
        r.rgba@ == key_pixels(b.width, b.height, b.rgba@),
{
    let (x, y, s) = centered_crop(b.width, b.height);
    let square = crop_rgba(b, x, y, s, s);
    let turned = rotate_half_turn(&square);
    resize_nearest(&turned, KEY_EDGE, KEY_EDGE)
}

/// Encodes a rendered key bitmap, reporting a refusal of the encoder as
/// `IconError::Encode`.
pub fn encode_key_bitmap(b: &Bitmap) -> (r: Result<Vec<u8>, IconError>)
    requires
        b.wf(),
    ensures
        r matches Ok(v) ==> jpeg_encoded(b.width, b.height, b.rgba@, JPEG_QUALITY) == Some(v@),
        r is Err ==> r == Err::<Vec<u8>, IconError>(IconError::Encode)
            && jpeg_encoded(b.width, b.height, b.rgba@, JPEG_QUALITY) is None,
        r is Ok <==> jpeg_size_ok(b.width, b.height),
        r matches Ok(v) ==> starts_with_soi(v@),
{
    match encode_jpeg(b, JPEG_QUALITY) {
        Ok(v) => Ok(v),
        Err(_) => Err(IconError::Encode),
    }
}

/// The encoded image to show on a key, made from the icon's source bytes.
pub fn get_image_data(raw: &[u8]) -> (r: Result<Vec<u8>, IconError>)
    ensures
        r matches Ok(v) ==> icon_jpeg(raw@) == Ok::<Seq<u8>, IconError>(v@),
        r matches Err(e) ==> icon_jpeg(raw@) == Err::<Seq<u8>, IconError>(e),
        r is Ok <==> decoded_rgba(raw@) is Some,
        r matches Ok(v) ==> starts_with_soi(v@),
{
    let decoded = match decode_rgba(raw) {
        Ok(b) => b,
        Err(_) => {
            return Err(IconError::Decode);
        },
    };
    let key = render_key_bitmap(&decoded);
    encode_key_bitmap(&key)
}

/// Every page of the transfer of the icon made from `raw` to key `key`.
pub fn key_image_pages(key: u8, raw: &[u8]) -> (r: Result<Vec<Vec<u8>>, IconError>)
    ensures
        r matches Err(e) ==> icon_jpeg(raw@) == Err::<Seq<u8>, IconError>(e),
        r matches Ok(pages) ==> icon_jpeg(raw@) is Ok && {
            let img = icon_jpeg(raw@)->Ok_0;
            &&& pages@.len() == page_count(img.len())
            &&& forall|n: int| 0 <= n < pages@.len() ==> #[trigger] pages@[n]@ == page_bytes(key, img, n as nat)
            &&& starts_with_soi(img)
        },
        r is Ok <==> decoded_rgba(raw@) is Some,
{
    let img = get_image_data(raw)?;
    Ok(image_pages(key, img.as_slice()))
}

/// The centred square crop uses the smaller dimension as its edge, lies
/// inside the image, is centred on the larger dimension, and holds exactly
/// the source pixels of that square.
pub proof fn lemma_centered_square(w: u32, h: u32, pix: Seq<u8>)
    requires
        pix.len() == rgba_len(w as nat, h as nat),
    ensures
        ({
            let (x, y, s) = crop_geometry(w, h);
            let c = cropped(w as nat, pix, x as nat, y as nat, s as nat, s as nat);
            &&& s == if w < h { w } else { h }
            &&& x == (w - s) / 2 && y == (h - s) / 2
            &&& x + s <= w && y + s <= h
            &&& c.len() == rgba_len(s as nat, s as nat)
            &&& forall|i: nat, j: nat, k: nat| i < s && j < s && k < 4 ==>
                #[trigger] c[px(s as nat, i, j, k)] == pix[px(w as nat, (x + i) as nat, (y + j) as nat, k)]
        }),
{
    let (x, y, s) = crop_geometry(w, h);
    let c = cropped(w as nat, pix, x as nat, y as nat, s as nat, s as nat);
    assert forall|i: nat, j: nat, k: nat| i < s && j < s && k < 4 implies
        #[trigger] c[px(s as nat, i, j, k)] == pix[px(w as nat, (x + i) as nat, (y + j) as nat, k)] by {
        let p = j * s + i;
        let idx = px(s as nat, i, j, k);
        lemma_fundamental_div_mod_converse_div(idx, 4, p as int, k as int);
        lemma_fundamental_div_mod_converse_mod(idx, 4, p as int, k as int);
        lemma_fundamental_div_mod_converse_div(p as int, s as int, j as int, i as int);
        lemma_fundamental_div_mod_converse_mod(p as int, s as int, j as int, i as int);
        assert(0 <= idx < c.len()) by (nonlinear_arith)
            requires
                idx == 4 * (j * s + i) + k,
                i < s,
                j < s,
                k < 4,
                c.len() == 4 * (s * s),
        ;
    }
}

/// Preparing an icon is deterministic: the same source bytes always give
/// the same encoded image, or the same error.
pub proof fn lemma_icon_deterministic(raw1: Seq<u8>, raw2: Seq<u8>)
    requires
        raw1 == raw2,
    ensures
        icon_jpeg(raw1) == icon_jpeg(raw2),
{
}

} // verus!
