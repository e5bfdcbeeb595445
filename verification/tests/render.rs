//! The render loop's per-tick pieces, looked at directly.

use ndimixer::compositor::LayerSource;
use ndimixer::frame::Frame;
use ndimixer::render::{absorb_taken, build_layers, LayerSetting};

fn marked(tag: u8) -> Frame {
    Frame::new_solid(2, 2, tag, 0, 0, 255)
}

#[test]
fn absorb_keeps_prior_frame_when_nothing_arrived() {
    let mut last = Some(marked(1));
    absorb_taken(&mut last, None);
    assert_eq!(last.as_ref().unwrap().data[0], 1);
    absorb_taken(&mut last, Some(marked(2)));
    assert_eq!(last.as_ref().unwrap().data[0], 2);
}

#[test]
fn build_layers_tags_sources_and_skips_missing() {
    let ndi_s = LayerSetting {
        opacity: 256,
        z_index: 0,
    };
    let overlay_s = vec![
        LayerSetting {
            opacity: 200,
            z_index: 1,
        },
        LayerSetting {
            opacity: 100,
            z_index: 2,
        },
        LayerSetting {
            opacity: 50,
            z_index: 3,
        },
    ];
    // the middle overlay never delivered a frame
    let overlay_last = vec![Some(marked(10)), None, Some(marked(12))];
    let layers = build_layers(Some(marked(9)), &ndi_s, overlay_last, &overlay_s);
    assert_eq!(layers.len(), 3);
    assert_eq!(layers[0].source, LayerSource::Ndi);
    assert_eq!(layers[0].frame.data[0], 9);
    assert_eq!(layers[0].opacity, 256);
    assert_eq!(layers[1].source, LayerSource::Browser(0));
    assert_eq!(layers[1].frame.data[0], 10);
    assert_eq!(layers[1].opacity, 200);
    assert_eq!(layers[2].source, LayerSource::Browser(2));
    assert_eq!(layers[2].frame.data[0], 12);
    assert_eq!(layers[2].z_index, 3);
}

#[test]
fn build_layers_without_any_frames_is_empty() {
    let ndi_s = LayerSetting {
        opacity: 256,
        z_index: 0,
    };
    let layers = build_layers(None, &ndi_s, Vec::new(), &Vec::new());
    assert!(layers.is_empty());
}

#[test]
fn fit_to_keeps_matching_frames_and_scales_others() {
    let f = marked(7);
    let same = f.duplicate().fit_to(2, 2);
    assert_eq!(same.width, 2);
    assert_eq!(same.data, f.data);
    let bigger = f.fit_to(4, 4);
    assert_eq!(bigger.width, 4);
    assert_eq!(bigger.height, 4);
    assert_eq!(bigger.data.len(), 4 * 4 * 4);
    assert_eq!(&bigger.data[0..4], &[7, 0, 0, 255]);
}
