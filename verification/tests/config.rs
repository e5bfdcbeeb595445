//! Configuration validation: the accepted shapes and every rejection.

use ndimixer::config::{
    default_frame_rate, default_log_level, default_opacity, default_z_index_overlay,
    BrowserOverlayConfig, ChannelConfig, Config, ConfigError, FilterConfig, FilterParam,
    FilterSite, NdiInputConfig, Settings,
};

fn overlay(url: &str) -> BrowserOverlayConfig {
    BrowserOverlayConfig {
        url: url.to_string(),
        width: 640,
        height: 360,
        z_index: default_z_index_overlay(),
        opacity: default_opacity(),
        css: String::new(),
        reload_interval: 0,
        filters: Vec::new(),
    }
}

fn channel(name: &str) -> ChannelConfig {
    ChannelConfig {
        name: name.to_string(),
        output_name: format!("{} out", name),
        width: 1920,
        height: 1080,
        frame_rate: default_frame_rate(),
        ndi_input: None,
        browser_overlay: None,
        browser_overlays: Vec::new(),
        filters: Vec::new(),
    }
}

fn config_of(channels: Vec<ChannelConfig>) -> Config {
    Config {
        settings: Settings {
            status_port: 0,
            log_level: default_log_level(),
        },
        channel: channels,
    }
}

#[test]
fn minimal_config_is_valid() {
    let c = config_of(vec![channel("main")]);
    assert!(c.validate(&Vec::new()).is_ok());
}

#[test]
fn no_channels_is_rejected() {
    let c = config_of(Vec::new());
    assert_eq!(c.validate(&Vec::new()), Err(ConfigError::NoChannels));
}

#[test]
fn zero_dimensions_are_rejected() {
    let mut ch = channel("main");
    ch.width = 0;
    let c = config_of(vec![channel("first"), ch]);
    assert_eq!(
        c.validate(&Vec::new()),
        Err(ConfigError::BadDimensions { channel: 1 })
    );
}

#[test]
fn zero_frame_rate_is_rejected() {
    let mut ch = channel("main");
    ch.frame_rate = 0;
    let c = config_of(vec![ch]);
    assert_eq!(
        c.validate(&Vec::new()),
        Err(ConfigError::BadFrameRate { channel: 0 })
    );
}

#[test]
fn out_of_range_ndi_opacity_is_rejected() {
    let mut ch = channel("main");
    ch.ndi_input = Some(NdiInputConfig {
        source: "camera".to_string(),
        z_index: 0,
        opacity: 257,
        filters: Vec::new(),
    });
    let c = config_of(vec![ch]);
    assert_eq!(
        c.validate(&Vec::new()),
        Err(ConfigError::BadNdiOpacity { channel: 0 })
    );
}

#[test]
fn overlay_faults_are_rejected() {
    let mut bad_size = overlay("https://example.test");
    bad_size.height = 0;
    let mut ch = channel("main");
    ch.browser_overlays = vec![bad_size];
    let c = config_of(vec![ch]);
    assert_eq!(
        c.validate(&Vec::new()),
        Err(ConfigError::BadOverlayDimensions { channel: 0 })
    );

    let mut bad_opacity = overlay("https://example.test");
    bad_opacity.opacity = -1;
    let mut ch2 = channel("main");
    ch2.browser_overlay = Some(bad_opacity);
    let c2 = config_of(vec![ch2]);
    assert_eq!(
        c2.validate(&Vec::new()),
        Err(ConfigError::BadOverlayOpacity { channel: 0 })
    );
}

#[test]
fn missing_shader_is_rejected_and_listed_shader_accepted() {
    let filter = FilterConfig {
        shader: "shaders/glow.wgsl".to_string(),
        params: Vec::new(),
    };
    let mut ch = channel("main");
    ch.filters = vec![filter];
    let c = config_of(vec![ch]);
    assert_eq!(
        c.validate(&Vec::new()),
        Err(ConfigError::ShaderMissing {
            channel: 0,
            site: FilterSite::Channel
        })
    );
    assert!(c
        .validate(&vec!["shaders/glow.wgsl".to_string()])
        .is_ok());
}

#[test]
fn too_many_params_are_rejected() {
    let mut params = Vec::new();
    for i in 0..17 {
        params.push(FilterParam {
            name: format!("p{:02}", i),
            value_bits: 0,
        });
    }
    let mut ch = channel("main");
    ch.ndi_input = Some(NdiInputConfig {
        source: "camera".to_string(),
        z_index: 0,
        opacity: 256,
        filters: vec![FilterConfig {
            shader: "shaders/glow.wgsl".to_string(),
            params,
        }],
    });
    let c = config_of(vec![ch]);
    assert_eq!(
        c.validate(&vec!["shaders/glow.wgsl".to_string()]),
        Err(ConfigError::TooManyParams {
            channel: 0,
            site: FilterSite::NdiInput
        })
    );
}

#[test]
fn defaults_match_the_documented_values() {
    assert_eq!(default_frame_rate(), 30);
    assert_eq!(default_opacity(), 256);
    assert_eq!(default_z_index_overlay(), 1);
    assert_eq!(default_log_level(), "info");
    let s = Settings::default();
    assert_eq!(s.status_port, 0);
    assert_eq!(s.log_level, "info");
}

#[test]
fn legacy_overlay_comes_before_the_list() {
    let mut ch = channel("main");
    ch.browser_overlay = Some(overlay("first"));
    ch.browser_overlays = vec![overlay("second"), overlay("third")];
    assert_eq!(ch.overlay_count(), 3);
    assert_eq!(ch.all_browser_overlays(0).url, "first");
    assert_eq!(ch.all_browser_overlays(1).url, "second");
    assert_eq!(ch.all_browser_overlays(2).url, "third");
}

#[test]
fn has_browser_overlays_looks_at_every_channel() {
    let plain = channel("plain");
    let mut with_overlay = channel("overlayed");
    with_overlay.browser_overlays = vec![overlay("https://example.test")];
    assert!(!config_of(vec![channel("a")]).has_browser_overlays());
    assert!(config_of(vec![plain, with_overlay]).has_browser_overlays());
}
