//! Browser capture decoding: base64, PNG, and the quality gate.

use base64::Engine;
use ndimixer::capture::{
    decode_image_bytes, decode_screencast_frame, decode_screenshot_frame, frame_has_opaque_content,
};
use ndimixer::frame::Frame;

fn png_of(w: u32, h: u32, rgba: [u8; 4]) -> Vec<u8> {
    let img = image::RgbaImage::from_pixel(w, h, image::Rgba(rgba));
    let mut buf: Vec<u8> = Vec::new();
    img.write_to(
        &mut std::io::Cursor::new(&mut buf),
        image::ImageFormat::Png,
    )
    .expect("png encoding in memory");
    buf
}

fn b64(bytes: &[u8]) -> String {
    base64::engine::general_purpose::STANDARD.encode(bytes)
}

#[test]
fn png_decodes_back_to_its_pixels() {
    let png = png_of(3, 2, [10, 20, 30, 200]);
    let frame = decode_image_bytes(&png).expect("valid png");
    assert_eq!(frame.width, 3);
    assert_eq!(frame.height, 2);
    assert_eq!(frame.data.len(), 3 * 2 * 4);
    for p in frame.data.chunks(4) {
        assert_eq!(p, &[10, 20, 30, 200]);
    }
}

#[test]
fn garbage_bytes_do_not_decode() {
    assert!(decode_image_bytes(&[1, 2, 3, 4, 5]).is_none());
}

#[test]
fn screencast_frame_with_content_is_accepted() {
    let data = b64(&png_of(2, 2, [255, 0, 0, 255]));
    let frame = decode_screencast_frame(&data).expect("opaque red is accepted");
    assert_eq!(frame.width, 2);
    assert_eq!(&frame.data[0..4], &[255, 0, 0, 255]);
}

#[test]
fn transparent_screencast_frame_is_discarded() {
    let data = b64(&png_of(2, 2, [255, 0, 0, 10]));
    assert!(decode_screencast_frame(&data).is_none());
}

#[test]
fn white_screencast_frame_is_discarded() {
    let data = b64(&png_of(2, 2, [255, 255, 255, 255]));
    assert!(decode_screencast_frame(&data).is_none());
}

#[test]
fn screenshot_path_keeps_white_and_transparent_frames() {
    // Direct screenshots pass no gate: their transparency is trusted.
    let white = b64(&png_of(2, 2, [255, 255, 255, 255]));
    assert!(decode_screenshot_frame(&white).is_some());
    let clear = b64(&png_of(2, 2, [0, 0, 0, 0]));
    assert!(decode_screenshot_frame(&clear).is_some());
}

#[test]
fn invalid_base64_is_discarded() {
    assert!(decode_screencast_frame("!!!not base64!!!").is_none());
    assert!(decode_screenshot_frame("!!!not base64!!!").is_none());
}

#[test]
fn opaque_content_gate_boundaries() {
    // Alpha must exceed 128, and pure white does not count as content.
    let barely = Frame::new_solid(1, 1, 0, 0, 0, 129);
    assert!(frame_has_opaque_content(&barely));
    let at_threshold = Frame::new_solid(1, 1, 0, 0, 0, 128);
    assert!(!frame_has_opaque_content(&at_threshold));
    let white = Frame::new_solid(1, 1, 255, 255, 255, 255);
    assert!(!frame_has_opaque_content(&white));
    let off_white = Frame::new_solid(1, 1, 255, 255, 254, 255);
    assert!(frame_has_opaque_content(&off_white));
}
