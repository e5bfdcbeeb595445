//! The configuration model and its validation. Parsing the configuration
//! file is done outside the library; the parsed plain values are handed
//! in here, checked, and used to start channels. Opacities arrive in 8.8
//! fixed point (0..=256 stands for 0.0..=1.0); out-of-range values are
//! rejected exactly as out-of-range fractions are.

use vstd::prelude::*;

verus! {

/// Process-wide settings.
pub struct Settings {
    /// Port of the HTTP status endpoint; 0 disables it.
    pub status_port: u16,
    /// Log level name; "info" when not given.
    pub log_level: String,
}

/// The default log level name.
pub fn default_log_level() -> (r: String)
    ensures
        r@ == "info"@,
{
    "info".to_owned()
}

impl Default for Settings {
    /// Status endpoint off, log level "info".
    fn default() -> (r: Settings)
        ensures
            r.status_port == 0,
            r.log_level@ == "info"@,
    {
        Settings { status_port: 0, log_level: default_log_level() }
    }
}

/// One named parameter of a filter shader. The numeric value is carried
/// as its raw bit pattern; the library orders and packs parameters, the
/// GPU side turns the bits back into numbers.
pub struct FilterParam {
    pub name: String,
    pub value_bits: u32,
}

/// One compute-shader filter: the shader source path and its parameters.
pub struct FilterConfig {
    pub shader: String,
    pub params: Vec<FilterParam>,
}

/// The network-input layer of a channel.
pub struct NdiInputConfig {
    /// Fragment of the source name to look for.
    pub source: String,
    /// Render order of this layer; 0 when not given.
    pub z_index: i32,
    /// Opacity in 8.8 fixed point; valid between 0 and 256.
    pub opacity: i32,
    pub filters: Vec<FilterConfig>,
}

/// One browser overlay of a channel.
pub struct BrowserOverlayConfig {
    pub url: String,
    pub width: u32,
    pub height: u32,
    /// Render order of this layer; 1 when not given.
    pub z_index: i32,
    /// Opacity in 8.8 fixed point; valid between 0 and 256.
    pub opacity: i32,
    /// CSS injected into the page; empty for none.
    pub css: String,
    /// Page reload period in seconds; 0 disables reloading.
    pub reload_interval: u64,
    pub filters: Vec<FilterConfig>,
}

/// One output channel.
pub struct ChannelConfig {
    pub name: String,
    pub output_name: String,
    pub width: u32,
    pub height: u32,
    /// Output cadence in frames per second; 30 when not given.
    pub frame_rate: u32,
    pub ndi_input: Option<NdiInputConfig>,
    /// Single overlay of older configurations; merged before the list.
    pub browser_overlay: Option<BrowserOverlayConfig>,
    pub browser_overlays: Vec<BrowserOverlayConfig>,
    /// Channel-level filters, applied after all layers are composited.
    pub filters: Vec<FilterConfig>,
}

/// The whole configuration: settings plus one entry per channel.
pub struct Config {
    pub settings: Settings,
    pub channel: Vec<ChannelConfig>,
}

/// The frame rate used when the configuration names none.
pub fn default_frame_rate() -> (r: u32)
    ensures
        r == 30,
{
    30
}

/// The opacity used when the configuration names none: fully opaque.
pub fn default_opacity() -> (r: i32)
    ensures
        r == 256,
{
    256
}

/// The z index used for an overlay when the configuration names none.
pub fn default_z_index_overlay() -> (r: i32)
    ensures
        r == 1,
{
    1
}

/// All overlays of a channel in render order: the older single-overlay
/// entry first, then the list.
pub open spec fn all_overlays(c: ChannelConfig) -> Seq<BrowserOverlayConfig> {
    (match c.browser_overlay {
        Some(b) => seq![b],
        None => Seq::empty(),
    }) + c.browser_overlays@
}

impl ChannelConfig {
    /// How many browser overlays this channel has in all.
    pub fn overlay_count(&self) -> (r: usize)
        requires
            all_overlays(*self).len() <= usize::MAX,
        ensures
            r == all_overlays(*self).len(),
    {
        if self.browser_overlay.is_some() {
            1 + self.browser_overlays.len()
        } else {
            self.browser_overlays.len()
        }
    }

    /// The overlay at position `i` of the merged render order.
    pub fn all_browser_overlays(&self, i: usize) -> (r: &BrowserOverlayConfig)
        requires
            i < all_overlays(*self).len(),
        ensures
            *r == all_overlays(*self)[i as int],
    {
        match &self.browser_overlay {
            Some(b) => {
                if i == 0 {
                    b
                } else {
                    &self.browser_overlays[i - 1]
                }
            },
            None => &self.browser_overlays[i],
        }
    }
}

impl Config {
    /// Whether any channel has a browser overlay (and a browser must be
    /// launched).
    pub fn has_browser_overlays(&self) -> (r: bool)
        ensures
            r == exists|i: int|
                0 <= i < self.channel@.len() && all_overlays(#[trigger] self.channel@[i]).len()
                    > 0,
    {
        let n: usize = self.channel.len();
        let mut i: usize = 0;
        while i < n
            invariant
                i <= n,
                n == self.channel@.len(),
                forall|j: int| 0 <= j < i ==> all_overlays(#[trigger] self.channel@[j]).len() == 0,
            decreases n - i,
        {
            if self.channel[i].browser_overlay.is_some() || self.channel[i].browser_overlays.len()
                > 0 {
                proof {
                    assert(all_overlays(self.channel@[i as int]).len() > 0);
                }
                return true;
            }
            proof {
                assert(all_overlays(self.channel@[i as int]).len() == 0);
            }
            i = i + 1;
        }
        false
    }
}

/// Which filter list a validation finding refers to.
#[derive(Clone, Copy, PartialEq, Eq, Structural, Debug)]
pub enum FilterSite {
    NdiInput,
    Channel,
    BrowserOverlay,
}

/// Why a configuration was rejected, with the channel it concerns.
#[derive(Clone, Copy, PartialEq, Eq, Structural, Debug)]
pub enum ConfigError {
    /// No channel is defined at all.
    NoChannels,
    /// A channel's width or height is 0.
    BadDimensions { channel: usize },
    /// A channel's frame rate is 0.
    BadFrameRate { channel: usize },
    /// The network input's opacity lies outside 0..=256 (0.0..=1.0).
    BadNdiOpacity { channel: usize },
    /// An overlay's width or height is 0.
    BadOverlayDimensions { channel: usize },
    /// An overlay's opacity lies outside 0..=256 (0.0..=1.0).
    BadOverlayOpacity { channel: usize },
    /// A filter names a shader file that does not exist.
    ShaderMissing { channel: usize, site: FilterSite },
    /// A filter has more than 16 parameters.
    TooManyParams { channel: usize, site: FilterSite },
}

/// Whether a shader path occurs in the list of files known to exist.
pub open spec fn shader_listed(shader: String, existing: Seq<String>) -> bool {
    exists|i: int| 0 <= i < existing.len() && (#[trigger] existing[i])@ == shader@
}

/// The first fault in a filter list, scanned in order; for each filter
/// the shader's existence is checked before its parameter count.
pub open spec fn filters_first_error(
    fs: Seq<FilterConfig>,
    existing: Seq<String>,
    ch: int,
    site: FilterSite,
    i: int,
) -> Option<ConfigError>
    decreases fs.len() - i,
{
    if i < 0 || i >= fs.len() {
        None
    } else if !shader_listed(fs[i].shader, existing) {
        Some(ConfigError::ShaderMissing { channel: ch as usize, site })
    } else if fs[i].params@.len() > 16 {
        Some(ConfigError::TooManyParams { channel: ch as usize, site })
    } else {
        filters_first_error(fs, existing, ch, site, i + 1)
    }
}

/// The first fault among a channel's overlays, scanned in render order;
/// for each overlay: dimensions, opacity, then its filters.
pub open spec fn overlays_first_error(
    ovs: Seq<BrowserOverlayConfig>,
    existing: Seq<String>,
    ch: int,
    i: int,
) -> Option<ConfigError>
    decreases ovs.len() - i,
{
    if i < 0 || i >= ovs.len() {
        None
    } else if ovs[i].width == 0 || ovs[i].height == 0 {
        Some(ConfigError::BadOverlayDimensions { channel: ch as usize })
    } else if ovs[i].opacity < 0 || ovs[i].opacity > 256 {
        Some(ConfigError::BadOverlayOpacity { channel: ch as usize })
    } else {
        match filters_first_error(ovs[i].filters@, existing, ch, FilterSite::BrowserOverlay, 0) {
            Some(e) => Some(e),
            None => overlays_first_error(ovs, existing, ch, i + 1),
        }
    }
}

/// The first fault of one channel: dimensions, frame rate, the network
/// input's opacity and filters, the channel filters, then the overlays.
pub open spec fn channel_first_error(
    c: ChannelConfig,
    existing: Seq<String>,
    ch: int,
) -> Option<ConfigError> {
    if c.width == 0 || c.height == 0 {
        Some(ConfigError::BadDimensions { channel: ch as usize })
    } else if c.frame_rate == 0 {
        Some(ConfigError::BadFrameRate { channel: ch as usize })
    } else {
        match (match c.ndi_input {
            Some(ndi) => if ndi.opacity < 0 || ndi.opacity > 256 {
                Some(ConfigError::BadNdiOpacity { channel: ch as usize })
            } else {
                filters_first_error(ndi.filters@, existing, ch, FilterSite::NdiInput, 0)
            },
            None => None,
        }) {
            Some(e) => Some(e),
            None => match filters_first_error(c.filters@, existing, ch, FilterSite::Channel, 0) {
                Some(e) => Some(e),
                None => overlays_first_error(all_overlays(c), existing, ch, 0),
            },
        }
    }
}

/// The first fault of the whole configuration, channel by channel.
pub open spec fn config_first_error(
    chs: Seq<ChannelConfig>,
    existing: Seq<String>,
    i: int,
) -> Option<ConfigError>
    decreases chs.len() - i,
{
    if i < 0 || i >= chs.len() {
        None
    } else {
        match channel_first_error(chs[i], existing, i) {
            Some(e) => Some(e),
            None => config_first_error(chs, existing, i + 1),
        }
    }
}

/// What validation answers for a configuration: the first fault in scan
/// order, or none. A configuration with no channel at all is rejected.
pub open spec fn validate_spec(c: Config, existing: Seq<String>) -> Option<ConfigError> {
    if c.channel@.len() == 0 {
        Some(ConfigError::NoChannels)
    } else {
        config_first_error(c.channel@, existing, 0)
    }
}

/// One filter is acceptable: its shader exists and it has at most 16
/// parameters.
pub open spec fn filter_ok(f: FilterConfig, existing: Seq<String>) -> bool {
    shader_listed(f.shader, existing) && f.params@.len() <= 16
}

/// Every filter of a list is acceptable.
pub open spec fn filters_ok(fs: Seq<FilterConfig>, existing: Seq<String>) -> bool {
    forall|j: int| 0 <= j < fs.len() ==> filter_ok(#[trigger] fs[j], existing)
}

/// One overlay is acceptable: positive dimensions, opacity within
/// 0..=256, acceptable filters.
pub open spec fn overlay_ok(ov: BrowserOverlayConfig, existing: Seq<String>) -> bool {
    &&& ov.width > 0
    &&& ov.height > 0
    &&& 0 <= ov.opacity <= 256
    &&& filters_ok(ov.filters@, existing)
}

/// One channel is acceptable: positive dimensions and frame rate, a
/// valid network input if there is one, acceptable channel filters, and
/// every overlay acceptable.
pub open spec fn channel_ok(c: ChannelConfig, existing: Seq<String>) -> bool {
    &&& c.width > 0
    &&& c.height > 0
    &&& c.frame_rate > 0
    &&& match c.ndi_input {
        Some(ndi) => 0 <= ndi.opacity <= 256 && filters_ok(ndi.filters@, existing),
        None => true,
    }
    &&& filters_ok(c.filters@, existing)
    &&& forall|k: int|
        0 <= k < all_overlays(c).len() ==> overlay_ok(#[trigger] all_overlays(c)[k], existing)
}

/// A configuration is acceptable: at least one channel, all acceptable.
pub open spec fn config_ok(c: Config, existing: Seq<String>) -> bool {
    c.channel@.len() > 0 && forall|i: int|
        0 <= i < c.channel@.len() ==> channel_ok(#[trigger] c.channel@[i], existing)
}

proof fn lemma_filters_scan_none(fs: Seq<FilterConfig>, existing: Seq<String>, ch: int, site: FilterSite, i: int)
    requires
        0 <= i <= fs.len(),
        forall|j: int| 0 <= j < i ==> filter_ok(#[trigger] fs[j], existing),
    ensures
        filters_first_error(fs, existing, ch, site, i) is None <==> forall|j: int|
            i <= j < fs.len() ==> filter_ok(#[trigger] fs[j], existing),
    decreases fs.len() - i,
{
    if i < fs.len() && filter_ok(fs[i], existing) {
        lemma_filters_scan_none(fs, existing, ch, site, i + 1);
    }
}

proof fn lemma_overlays_scan_none(ovs: Seq<BrowserOverlayConfig>, existing: Seq<String>, ch: int, i: int)
    requires
        0 <= i <= ovs.len(),
    ensures
        overlays_first_error(ovs, existing, ch, i) is None <==> forall|k: int|
            i <= k < ovs.len() ==> overlay_ok(#[trigger] ovs[k], existing),
    decreases ovs.len() - i,
{
    if i < ovs.len() {
        lemma_filters_scan_none(ovs[i].filters@, existing, ch, FilterSite::BrowserOverlay, 0);
        if overlay_ok(ovs[i], existing) {
            lemma_overlays_scan_none(ovs, existing, ch, i + 1);
        }
    }
}

proof fn lemma_channel_scan_none(c: ChannelConfig, existing: Seq<String>, ch: int)
    ensures
        channel_first_error(c, existing, ch) is None <==> channel_ok(c, existing),
{
    match c.ndi_input {
        Some(ndi) => {
            lemma_filters_scan_none(ndi.filters@, existing, ch, FilterSite::NdiInput, 0);
        },
        None => {},
    }
    lemma_filters_scan_none(c.filters@, existing, ch, FilterSite::Channel, 0);
    lemma_overlays_scan_none(all_overlays(c), existing, ch, 0);
}

proof fn lemma_config_scan_none(chs: Seq<ChannelConfig>, existing: Seq<String>, i: int)
    requires
        0 <= i <= chs.len(),
    ensures
        config_first_error(chs, existing, i) is None <==> forall|j: int|
            i <= j < chs.len() ==> channel_ok(#[trigger] chs[j], existing),
    decreases chs.len() - i,
{
    if i < chs.len() {
        lemma_channel_scan_none(chs[i], existing, i);
        if channel_ok(chs[i], existing) {
            lemma_config_scan_none(chs, existing, i + 1);
        }
    }
}

/// The scan finds no fault exactly when the configuration satisfies the
/// declarative rules.
pub proof fn lemma_validate_spec_iff_ok(c: Config, existing: Seq<String>)
    ensures
        validate_spec(c, existing) is None <==> config_ok(c, existing),
{
    lemma_config_scan_none(c.channel@, existing, 0);
}

/// Whether a shader path occurs in the list of files known to exist.
fn shader_listed_exec(shader: &String, existing: &Vec<String>) -> (r: bool)
    ensures
        r == shader_listed(*shader, existing@),
{
    let n: usize = existing.len();
    let mut i: usize = 0;
    while i < n
        invariant
            i <= n,
            n == existing@.len(),
            forall|j: int| 0 <= j < i ==> (#[trigger] existing@[j])@ != shader@,
        decreases n - i,
    {
        if existing[i].eq(shader) {
            proof {
                assert((#[trigger] existing@[i as int])@ == shader@);
            }
            return true;
        }
        i = i + 1;
    }
    false
}

/// Check one filter list; `existing` lists the shader paths that exist
/// on disk (collected by the caller, which owns the file system).
fn validate_filters(
    fs: &Vec<FilterConfig>,
    existing: &Vec<String>,
    ch: usize,
    site: FilterSite,
) -> (r: Option<ConfigError>)
    ensures
        r == filters_first_error(fs@, existing@, ch as int, site, 0),
{
    let ghost e0 = filters_first_error(fs@, existing@, ch as int, site, 0);
    let n: usize = fs.len();
    let mut i: usize = 0;
    while i < n
        invariant
            i <= n,
            n == fs@.len(),
            e0 == filters_first_error(fs@, existing@, ch as int, site, 0),
            e0 == filters_first_error(fs@, existing@, ch as int, site, i as int),
        decreases n - i,
    {
        if !shader_listed_exec(&fs[i].shader, existing) {
            proof {
                assert(filters_first_error(fs@, existing@, ch as int, site, i as int)
                    == Some(ConfigError::ShaderMissing { channel: ch, site }));
            }
            return Some(ConfigError::ShaderMissing { channel: ch, site });
        }
        if fs[i].params.len() > 16 {
            proof {
                assert(filters_first_error(fs@, existing@, ch as int, site, i as int)
                    == Some(ConfigError::TooManyParams { channel: ch, site }));
            }
            return Some(ConfigError::TooManyParams { channel: ch, site });
        }
        proof {
            assert(filters_first_error(fs@, existing@, ch as int, site, i as int)
                == filters_first_error(fs@, existing@, ch as int, site, i as int + 1));
        }
        i = i + 1;
    }
    proof {
        assert(filters_first_error(fs@, existing@, ch as int, site, n as int) is None);
    }
    None
}

/// Check one channel; `idx` is its position, used in the reported error.
fn validate_channel(ch: &ChannelConfig, existing: &Vec<String>, idx: usize) -> (r: Option<
    ConfigError,
>)
    ensures
        r == channel_first_error(*ch, existing@, idx as int),
{
    if ch.width == 0 || ch.height == 0 {
        return Some(ConfigError::BadDimensions { channel: idx });
    }
    if ch.frame_rate == 0 {
        return Some(ConfigError::BadFrameRate { channel: idx });
    }
    match &ch.ndi_input {
        Some(ndi) => {
            if ndi.opacity < 0 || ndi.opacity > 256 {
                return Some(ConfigError::BadNdiOpacity { channel: idx });
            }
            match validate_filters(&ndi.filters, existing, idx, FilterSite::NdiInput) {
                Some(e) => {
                    return Some(e);
                },
                None => {},
            }
        },
        None => {},
    }
    match validate_filters(&ch.filters, existing, idx, FilterSite::Channel) {
        Some(e) => {
            return Some(e);
        },
        None => {},
    }
    let ghost all = all_overlays(*ch);
    let ghost base: int = if ch.browser_overlay is Some {
        1
    } else {
        0
    };
    match &ch.browser_overlay {
        Some(ov) => {
            proof {
                assert(all[0] == *ov);
            }
            if ov.width == 0 || ov.height == 0 {
                proof {
                    assert(overlays_first_error(all, existing@, idx as int, 0)
                        == Some(ConfigError::BadOverlayDimensions { channel: idx }));
                }
                return Some(ConfigError::BadOverlayDimensions { channel: idx });
            }
            if ov.opacity < 0 || ov.opacity > 256 {
                proof {
                    assert(overlays_first_error(all, existing@, idx as int, 0)
                        == Some(ConfigError::BadOverlayOpacity { channel: idx }));
                }
                return Some(ConfigError::BadOverlayOpacity { channel: idx });
            }
            match validate_filters(&ov.filters, existing, idx, FilterSite::BrowserOverlay) {
                Some(e) => {
                    proof {
                        assert(overlays_first_error(all, existing@, idx as int, 0) == Some(e));
                    }
                    return Some(e);
                },
                None => {},
            }
            proof {
                assert(overlays_first_error(all, existing@, idx as int, 0)
                    == overlays_first_error(all, existing@, idx as int, 1));
            }
        },
        None => {},
    }
    proof {
        assert(channel_first_error(*ch, existing@, idx as int) == overlays_first_error(
            all,
            existing@,
            idx as int,
            0,
        ));
    }
    let m: usize = ch.browser_overlays.len();
    let mut k: usize = 0;
    while k < m
        invariant
            k <= m,
            m == ch.browser_overlays@.len(),
            channel_first_error(*ch, existing@, idx as int) == overlays_first_error(
                all,
                existing@,
                idx as int,
                0,
            ),
            all == all_overlays(*ch),
            base == if ch.browser_overlay is Some {
                1int
            } else {
                0int
            },
            all.len() == base + m,
            overlays_first_error(all, existing@, idx as int, 0) == overlays_first_error(
                all,
                existing@,
                idx as int,
                base + k,
            ),
        decreases m - k,
    {
        let ov = &ch.browser_overlays[k];
        proof {
            assert(all[base + k] == *ov);
        }
        if ov.width == 0 || ov.height == 0 {
            proof {
                assert(overlays_first_error(all, existing@, idx as int, base + k)
                    == Some(ConfigError::BadOverlayDimensions { channel: idx }));
            }
            return Some(ConfigError::BadOverlayDimensions { channel: idx });
        }
        if ov.opacity < 0 || ov.opacity > 256 {
            proof {
                assert(overlays_first_error(all, existing@, idx as int, base + k)
                    == Some(ConfigError::BadOverlayOpacity { channel: idx }));
            }
            return Some(ConfigError::BadOverlayOpacity { channel: idx });
        }
        match validate_filters(&ov.filters, existing, idx, FilterSite::BrowserOverlay) {
            Some(e) => {
                proof {
                    assert(overlays_first_error(all, existing@, idx as int, base + k) == Some(e));
                }
                return Some(e);
            },
            None => {},
        }
        proof {
            assert(overlays_first_error(all, existing@, idx as int, base + k)
                == overlays_first_error(all, existing@, idx as int, base + k + 1));
        }
        k = k + 1;
    }
    proof {
        assert(overlays_first_error(all, existing@, idx as int, base + m) is None);
    }
    None
}

impl Config {
    /// Validate the configuration against the list of shader paths that
    /// exist. Returns the first fault in scan order — channel sizes and
    /// rates, layer opacities, filter shaders and parameter counts — or
    /// nothing when every rule holds.
    pub fn validate(&self, existing_shaders: &Vec<String>) -> (r: Result<(), ConfigError>)
        ensures
            r is Ok <==> config_ok(*self, existing_shaders@),
            r is Ok <==> validate_spec(*self, existing_shaders@) is None,
            r is Err ==> Some(r->Err_0) == validate_spec(*self, existing_shaders@),
    {
        proof {
            lemma_validate_spec_iff_ok(*self, existing_shaders@);
        }
        let n: usize = self.channel.len();
        if n == 0 {
            return Err(ConfigError::NoChannels);
        }
        let mut i: usize = 0;
        while i < n
            invariant
                i <= n,
                n == self.channel@.len(),
                n > 0,
                validate_spec(*self, existing_shaders@) is None <==> config_ok(
                    *self,
                    existing_shaders@,
                ),
                config_first_error(self.channel@, existing_shaders@, 0) == config_first_error(
                    self.channel@,
                    existing_shaders@,
                    i as int,
                ),
            decreases n - i,
        {
            match validate_channel(&self.channel[i], existing_shaders, i) {
                Some(e) => {
                    proof {
                        assert(config_first_error(self.channel@, existing_shaders@, i as int)
                            == Some(e));
                    }
                    return Err(e);
                },
                None => {},
            }
            proof {
                assert(config_first_error(self.channel@, existing_shaders@, i as int)
                    == config_first_error(self.channel@, existing_shaders@, i as int + 1));
            }
            i = i + 1;
        }
        proof {
            assert(config_first_error(self.channel@, existing_shaders@, n as int) is None);
        }
        Ok(())
    }
}

} // verus!
