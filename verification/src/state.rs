//! Runtime state snapshots of a channel, as status reporting reads them.
//! The live counters are owned by the channel's threads; a snapshot of
//! their plain values is taken under the locks and handed here.

use vstd::prelude::*;

verus! {

/// Per-overlay status info for reporting.
pub struct BrowserOverlayState {
    pub url: String,
    /// True once the page has been navigated.
    pub loaded: bool,
}

/// Runtime state for a single channel, used for status reporting.
pub struct ChannelState {
    pub name: String,
    pub output_name: String,
    pub width: u32,
    pub height: u32,
    pub frame_rate: u32,
    pub ndi_connected: bool,
    pub ndi_frames_received: u64,
    /// The configured source fragment, when the channel has an input.
    pub ndi_source: Option<String>,
    pub browser_overlays: Vec<BrowserOverlayState>,
    pub frames_output: u64,
}

impl ChannelState {
    /// How many of the overlays have finished loading.
    pub fn loaded_overlay_count(&self) -> (r: usize)
        ensures
            r <= self.browser_overlays@.len(),
            r == count_loaded(self.browser_overlays@, self.browser_overlays@.len() as int),
    {
        let n: usize = self.browser_overlays.len();
        let mut count: usize = 0;
        let mut i: usize = 0;
        while i < n
            invariant
                i <= n,
                n == self.browser_overlays@.len(),
                count == count_loaded(self.browser_overlays@, i as int),
                count <= i,
            decreases n - i,
        {
            if self.browser_overlays[i].loaded {
                count = count + 1;
            }
            i = i + 1;
        }
        count
    }
}

/// How many of the first `n` overlays are loaded.
pub open spec fn count_loaded(ovs: Seq<BrowserOverlayState>, n: int) -> int
    decreases n,
{
    if n <= 0 {
        0
    } else {
        count_loaded(ovs, n - 1) + if ovs[n - 1].loaded {
            1int
        } else {
            0int
        }
    }
}

} // verus!
