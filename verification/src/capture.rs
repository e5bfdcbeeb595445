//! Decoding of browser capture frames. Screencast events and screenshots
//! arrive as base64-encoded PNG data; both are decoded here, and
//! screencast frames additionally pass a quality gate: the transparent
//! screencast path occasionally emits frames with broken alpha or a
//! white background, and only frames with some opaque non-white content
//! are accepted.

use vstd::prelude::*;

use crate::frame::{area, chan, Frame};

use base64::Engine;

verus! {

/// What the standard base64 decoding returns for a string: the decoded
/// bytes, or nothing when the input is not valid base64.
pub uninterp spec fn base64_decode_of(s: Seq<char>) -> Option<Seq<u8>>;

/// What decoding an image byte stream to RGBA returns: width, height and
/// the straight-alpha RGBA bytes, or nothing when the bytes are not a
/// well-formed image. A decoded image has positive dimensions and four
/// bytes per pixel.
pub uninterp spec fn decoded_image_of(bytes: Seq<u8>) -> Option<(u32, u32, Seq<u8>)>;

/// Relies on base64::engine::general_purpose::STANDARD.decode: decodes
/// standard base64 with padding; the result depends on the input alone.
#[verifier::external_body]
fn base64_decode(s: &str) -> (r: Option<Vec<u8>>)
    ensures
        r is Some <==> base64_decode_of(s@) is Some,
        r is Some ==> r->0@ == base64_decode_of(s@)->0,
{
    base64::engine::general_purpose::STANDARD.decode(s).ok()
}

/// Relies on image::load_from_memory and DynamicImage::to_rgba8: decodes
/// an encoded image (the captures here are PNG) into tightly packed
/// straight-alpha RGBA8 of the image's own dimensions, which an encoded
/// image cannot have as zero; the result depends on the bytes alone.
#[verifier::external_body]
fn image_decode_rgba(bytes: &[u8]) -> (r: Option<Frame>)
    ensures
        r is Some <==> decoded_image_of(bytes@) is Some,
        r is Some ==> {
            let (w, h, px) = decoded_image_of(bytes@)->0;
            &&& r->0.width == w
            &&& r->0.height == h
            &&& r->0.data@ == px
            &&& w > 0
            &&& h > 0
            &&& px.len() == 4 * area(w as int, h as int)
        },
{
    image::load_from_memory(bytes).ok().map(
        |img|
            {
                let rgba = img.to_rgba8();
                let (w, h) = rgba.dimensions();
                Frame { width: w, height: h, data: rgba.into_raw() }
            },
    )
}

/// Whether a pixel buffer has opaque non-white content: some pixel with
/// alpha above 128 that is not pure white.
pub open spec fn has_opaque_content(bytes: Seq<u8>, pixels: int) -> bool {
    exists|p: int|
        0 <= p < pixels && #[trigger] chan(bytes, p, 3) > 128 && !(chan(bytes, p, 0) == 255
            && chan(bytes, p, 1) == 255 && chan(bytes, p, 2) == 255)
}

/// The quality gate for screencast frames: accept only frames with some
/// opaque non-white pixel, which rules out the known broken-alpha and
/// white-background artifacts of transparent screencasting.
pub fn frame_has_opaque_content(f: &Frame) -> (r: bool)
    requires
        f.wf(),
    ensures
        r == has_opaque_content(f.data@, f.pixels()),
{
    let len: usize = f.data.len();
    let n: usize = len / 4;
    proof {
        vstd::arithmetic::div_mod::lemma_div_multiples_vanish(f.pixels(), 4);
        assert(4 * f.pixels() == f.pixels() * 4);
    }
    let mut p: usize = 0;
    while p < n
        invariant
            p <= n,
            n == f.pixels(),
            len == f.data@.len(),
            len == 4 * n,
            forall|q: int|
                0 <= q < p ==> !(#[trigger] chan(f.data@, q, 3) > 128 && !(chan(f.data@, q, 0)
                    == 255 && chan(f.data@, q, 1) == 255 && chan(f.data@, q, 2) == 255)),
        decreases n - p,
    {
        let i: usize = p * 4;
        proof {
            assert(i == 4 * p);
        }
        if f.data[i + 3] > 128 && !(f.data[i] == 255 && f.data[i + 1] == 255 && f.data[i + 2]
            == 255) {
            proof {
                assert(chan(f.data@, p as int, 3) > 128);
            }
            return true;
        }
        p = p + 1;
    }
    false
}

/// What decoding one screencast event yields: the decoded frame when the
/// data is valid base64, decodes as an image, and passes the quality
/// gate; nothing otherwise.
pub open spec fn screencast_frame_of(data: Seq<char>) -> Option<(u32, u32, Seq<u8>)> {
    match base64_decode_of(data) {
        None => None,
        Some(bytes) => match decoded_image_of(bytes) {
            None => None,
            Some((w, h, px)) => if has_opaque_content(px, area(w as int, h as int)) {
                Some((w, h, px))
            } else {
                None
            },
        },
    }
}

/// What decoding one direct screenshot yields: the decoded frame when
/// the data is valid base64 and decodes as an image. Direct screenshots
/// carry correct transparency and pass no gate.
pub open spec fn screenshot_frame_of(data: Seq<char>) -> Option<(u32, u32, Seq<u8>)> {
    match base64_decode_of(data) {
        None => None,
        Some(bytes) => decoded_image_of(bytes),
    }
}

/// Decode one screencast event's base64 PNG data and apply the quality
/// gate; the accepted frame is well-formed and non-empty.
pub fn decode_screencast_frame(data: &str) -> (r: Option<Frame>)
    ensures
        r is Some <==> screencast_frame_of(data@) is Some,
        r is Some ==> {
            let (w, h, px) = screencast_frame_of(data@)->0;
            &&& r->0.width == w
            &&& r->0.height == h
            &&& r->0.data@ == px
            &&& r->0.wf()
            &&& r->0.width > 0
            &&& r->0.height > 0
        },
{
    match base64_decode(data) {
        None => None,
        Some(bytes) => match image_decode_rgba(bytes.as_slice()) {
            None => None,
            Some(f) => {
                if frame_has_opaque_content(&f) {
                    Some(f)
                } else {
                    None
                }
            },
        },
    }
}

/// Decode one direct screenshot's base64 PNG data; the decoded frame is
/// well-formed and non-empty.
pub fn decode_screenshot_frame(data: &str) -> (r: Option<Frame>)
    ensures
        r is Some <==> screenshot_frame_of(data@) is Some,
        r is Some ==> {
            let (w, h, px) = screenshot_frame_of(data@)->0;
            &&& r->0.width == w
            &&& r->0.height == h
            &&& r->0.data@ == px
            &&& r->0.wf()
            &&& r->0.width > 0
            &&& r->0.height > 0
        },
{
    match base64_decode(data) {
        None => None,
        Some(bytes) => image_decode_rgba(bytes.as_slice()),
    }
}

/// Decode PNG bytes handed over directly (the initial screenshot is not
/// base64-wrapped); the decoded frame is well-formed and non-empty.
pub fn decode_image_bytes(bytes: &[u8]) -> (r: Option<Frame>)
    ensures
        r is Some <==> decoded_image_of(bytes@) is Some,
        r is Some ==> {
            let (w, h, px) = decoded_image_of(bytes@)->0;
            &&& r->0.width == w
            &&& r->0.height == h
            &&& r->0.data@ == px
            &&& r->0.wf()
            &&& r->0.width > 0
            &&& r->0.height > 0
        },
{
    image_decode_rgba(bytes)
}

} // verus!
