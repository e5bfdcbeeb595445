//! The pure GPU-path helpers and the byte-level text helpers.

use ndimixer::compositor::{Layer, LayerSource};
use ndimixer::config::FilterParam;
use ndimixer::frame::Frame;
use ndimixer::gpu::{
    accumulator_in_ping, dispatch_groups, filter_result_in_first, packed_param_bits,
    padded_row_bytes, unpad_rows, visible_in_order,
};
use ndimixer::text::{bytes_contains, bytes_le, escape_backticks, find_source_index, str_le};

fn param(name: &str, value_bits: u32) -> FilterParam {
    FilterParam {
        name: name.to_string(),
        value_bits,
    }
}

#[test]
fn params_are_packed_in_name_order() {
    // Parameters are injected in lexicographic order of their names.
    let params = vec![param("speed", 3), param("amount", 1), param("radius", 2)];
    let packed = packed_param_bits(&params);
    assert_eq!(packed.len(), 16);
    assert_eq!(&packed[0..3], &[1, 2, 3]);
    for k in 3..16 {
        assert_eq!(packed[k], 0);
    }
}

#[test]
fn empty_params_pack_to_zeros() {
    let packed = packed_param_bits(&Vec::new());
    assert_eq!(packed, vec![0; 16]);
}

#[test]
fn padded_row_rounds_up_to_256() {
    assert_eq!(padded_row_bytes(1920), 7680); // already a multiple
    assert_eq!(padded_row_bytes(100), 512); // 400 -> 512
    assert_eq!(padded_row_bytes(1), 256);
    assert_eq!(padded_row_bytes(64), 256);
    assert_eq!(padded_row_bytes(65), 512);
}

#[test]
fn dispatch_covers_the_extent() {
    assert_eq!(dispatch_groups(1920), 120);
    assert_eq!(dispatch_groups(1080), 68);
    assert_eq!(dispatch_groups(1), 1);
    assert_eq!(dispatch_groups(16), 1);
    assert_eq!(dispatch_groups(17), 2);
}

#[test]
fn ping_pong_parity() {
    // The cleared ping texture is the first source; each blend toggles.
    assert!(accumulator_in_ping(0));
    assert!(!accumulator_in_ping(1));
    assert!(accumulator_in_ping(2));
    // A filter chain starts by reading the first filter texture.
    assert!(filter_result_in_first(0));
    assert!(!filter_result_in_first(1));
    assert!(filter_result_in_first(4));
}

#[test]
fn unpad_rows_strips_the_alignment() {
    // 1x2 image with 12-byte padded rows: the tail of each row goes.
    let data: Vec<u8> = vec![
        1, 2, 3, 4, 90, 91, 92, 93, 94, 95, 96, 97, // row 0
        5, 6, 7, 8, 80, 81, 82, 83, 84, 85, 86, 87, // row 1
    ];
    let out = unpad_rows(&data, 1, 2, 12);
    assert_eq!(out, vec![1, 2, 3, 4, 5, 6, 7, 8]);
}

#[test]
fn visible_layers_come_sorted_without_transparent_ones() {
    let mk = |opacity: u16, z: i32| Layer {
        frame: Frame::new_solid(1, 1, 0, 0, 0, 255),
        opacity,
        z_index: z,
        source: LayerSource::Ndi,
    };
    let layers = vec![mk(256, 5), mk(0, 0), mk(128, 1), mk(256, 1)];
    // sorted by z: [1 (z0), 2 (z1), 3 (z1), 0 (z5)]; index 1 is invisible
    assert_eq!(visible_in_order(&layers), vec![2, 3, 0]);
}

#[test]
fn byte_order_is_lexicographic() {
    assert!(bytes_le(b"a", b"b"));
    assert!(bytes_le(b"a", b"a"));
    assert!(bytes_le(b"a", b"ab"));
    assert!(!bytes_le(b"ab", b"a"));
    assert!(bytes_le(b"", b""));
    assert!(str_le("amount", "radius"));
    assert!(!str_le("speed", "radius"));
}

#[test]
fn substring_search_over_bytes() {
    assert!(bytes_contains(b"CAMERA (Studio 1)", b"Studio"));
    assert!(bytes_contains(b"abc", b""));
    assert!(bytes_contains(b"abc", b"abc"));
    assert!(!bytes_contains(b"abc", b"abcd"));
    assert!(!bytes_contains(b"abc", b"x"));
}

#[test]
fn source_matching_takes_the_first_hit() {
    let names = vec![
        "DESK (Slides)".to_string(),
        "CAM-1 (Studio)".to_string(),
        "CAM-2 (Studio)".to_string(),
    ];
    assert_eq!(find_source_index(&names, "CAM"), Some(1));
    assert_eq!(find_source_index(&names, "Slides"), Some(0));
    assert_eq!(find_source_index(&names, "Hallway"), None);
}

#[test]
fn backticks_are_escaped_for_template_literals() {
    assert_eq!(escape_backticks(b"plain css"), b"plain css".to_vec());
    assert_eq!(escape_backticks(b"a`b`"), b"a\\`b\\`".to_vec());
    assert_eq!(escape_backticks(b""), Vec::<u8>::new());
}
