//! The CPU compositor: clearing, blending arithmetic, z order, resize.

use ndimixer::compositor::{composite, Layer, LayerSource};
use ndimixer::frame::Frame;

fn solid(w: u32, h: u32, rgba: [u8; 4]) -> Frame {
    Frame::new_solid(w, h, rgba[0], rgba[1], rgba[2], rgba[3])
}

fn layer(frame: Frame, opacity: u16, z_index: i32) -> Layer {
    Layer {
        frame,
        opacity,
        z_index,
        source: LayerSource::Ndi,
    }
}

fn pixel(f: &Frame, x: u32, y: u32) -> [u8; 4] {
    let i = ((y * f.width + x) * 4) as usize;
    [f.data[i], f.data[i + 1], f.data[i + 2], f.data[i + 3]]
}

#[test]
fn empty_layer_list_gives_opaque_black() {
    let mut canvas = solid(4, 3, [9, 9, 9, 9]);
    let layers: Vec<Layer> = Vec::new();
    composite(&mut canvas, &layers);
    for p in canvas.data.chunks(4) {
        assert_eq!(p, &[0, 0, 0, 255]);
    }
}

#[test]
fn single_matching_opaque_layer_copies_bytes() {
    let mut canvas = solid(4, 4, [0, 0, 0, 255]);
    let red = solid(4, 4, [255, 0, 0, 255]);
    let expected = red.data.clone();
    composite(&mut canvas, &vec![layer(red, 256, 0)]);
    assert_eq!(canvas.data, expected);
}

#[test]
fn fast_path_copies_even_transparent_pixels() {
    // A single full-opacity layer of matching size is taken verbatim,
    // transparent pixels included.
    let mut canvas = solid(2, 2, [0, 0, 0, 255]);
    let see_through = solid(2, 2, [10, 20, 30, 0]);
    let expected = see_through.data.clone();
    composite(&mut canvas, &vec![layer(see_through, 256, 0)]);
    assert_eq!(canvas.data, expected);
}

#[test]
fn half_transparent_blue_over_red() {
    // Input full red, overlay half-transparent blue at z = 1:
    // R = 127, G = 0, B = 128, A = 255 per pixel.
    let mut canvas = solid(3, 2, [1, 2, 3, 4]);
    let red = solid(3, 2, [255, 0, 0, 255]);
    let blue = solid(3, 2, [0, 0, 255, 128]);
    composite(&mut canvas, &vec![layer(red, 256, 0), layer(blue, 256, 1)]);
    for y in 0..2 {
        for x in 0..3 {
            assert_eq!(pixel(&canvas, x, y), [127, 0, 128, 255]);
        }
    }
}

#[test]
fn composite_output_is_fully_opaque() {
    // Alpha is 255 everywhere after compositing semi-transparent layers.
    let mut canvas = solid(4, 4, [0, 0, 0, 0]);
    let a = solid(4, 4, [200, 10, 10, 77]);
    let b = solid(4, 4, [10, 200, 10, 130]);
    composite(&mut canvas, &vec![layer(a, 256, 0), layer(b, 200, 1)]);
    for p in canvas.data.chunks(4) {
        assert_eq!(p[3], 255);
    }
}

#[test]
fn zero_opacity_layer_changes_nothing() {
    let mut with_overlay = solid(4, 4, [0, 0, 0, 255]);
    let mut without = solid(4, 4, [0, 0, 0, 255]);
    let red1 = solid(4, 4, [255, 0, 0, 255]);
    let red2 = solid(4, 4, [255, 0, 0, 255]);
    let ghostly = solid(4, 4, [0, 255, 0, 255]);
    composite(
        &mut with_overlay,
        &vec![layer(red1, 256, 0), layer(ghostly, 0, 1)],
    );
    composite(&mut without, &vec![layer(red2, 256, 0)]);
    assert_eq!(with_overlay.data, without.data);
}

#[test]
fn z_order_higher_index_wins() {
    // Red at z = 0, opaque green at z = 1, given in reverse order.
    let mut canvas = solid(2, 2, [0, 0, 0, 255]);
    let green = solid(2, 2, [0, 255, 0, 255]);
    let red = solid(2, 2, [255, 0, 0, 255]);
    composite(&mut canvas, &vec![layer(green, 256, 1), layer(red, 256, 0)]);
    for y in 0..2 {
        for x in 0..2 {
            assert_eq!(pixel(&canvas, x, y), [0, 255, 0, 255]);
        }
    }
}

#[test]
fn equal_z_keeps_given_order() {
    // Stable sort: with equal z the later list entry is drawn on top.
    let mut canvas = solid(2, 2, [0, 0, 0, 255]);
    let red = solid(2, 2, [255, 0, 0, 255]);
    let green = solid(2, 2, [0, 255, 0, 255]);
    composite(&mut canvas, &vec![layer(red, 256, 5), layer(green, 256, 5)]);
    assert_eq!(pixel(&canvas, 0, 0), [0, 255, 0, 255]);
}

#[test]
fn mismatched_layer_is_resized_nearest() {
    // A 1x1 red layer over a 2x2 canvas covers every pixel.
    let mut canvas = solid(2, 2, [0, 0, 0, 255]);
    let dot = solid(1, 1, [255, 0, 0, 255]);
    let white = solid(2, 2, [9, 9, 9, 255]);
    composite(&mut canvas, &vec![layer(white, 256, 0), layer(dot, 256, 1)]);
    for y in 0..2 {
        for x in 0..2 {
            assert_eq!(pixel(&canvas, x, y), [255, 0, 0, 255]);
        }
    }
}

#[test]
fn resize_nearest_picks_expected_pixels() {
    // 2x1 source (red | green) halved to 1x1 keeps the left pixel.
    let mut src = Frame::new_black(2, 1);
    src.data = vec![255, 0, 0, 255, 0, 255, 0, 255];
    let small = src.resize_nearest(1, 1);
    assert_eq!(small.data, vec![255, 0, 0, 255]);
    // and doubled to 4x1 the halves repeat
    let wide = src.resize_nearest(4, 1);
    assert_eq!(
        wide.data,
        vec![255, 0, 0, 255, 255, 0, 0, 255, 0, 255, 0, 255, 0, 255, 0, 255]
    );
}

#[test]
fn opacity_scales_source_alpha() {
    // Opaque white at half opacity (128/256) over black: sa = 127,
    // out = (255 * 127) / 255 = 127 per color channel.
    let mut canvas = solid(1, 1, [0, 0, 0, 255]);
    let white = solid(1, 1, [255, 255, 255, 255]);
    composite(&mut canvas, &vec![layer(white, 128, 0)]);
    let p = pixel(&canvas, 0, 0);
    assert_eq!(p, [127, 127, 127, 255]);
}
