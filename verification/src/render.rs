//! The per-tick decisions of the render loop: absorb freshly taken frames
//! into the "last frame" slots, build the layer list from whatever the
//! producers have delivered so far, and composite. A producer that has
//! never delivered contributes no layer; if no producer ever has, the
//! canvas is cleared to opaque black and emitted as it is.

use vstd::prelude::*;

use crate::compositor::{composite, composite_bytes, Layer, LayerSource};
use crate::frame::{black_bytes, Frame};

verus! {

/// The blending parameters a channel fixes for one producer at start.
pub struct LayerSetting {
    /// Opacity in 8.8 fixed point: 0..=256 stands for 0.0..=1.0.
    pub opacity: u16,
    /// Render order; lower is drawn first (behind).
    pub z_index: i32,
}

impl LayerSetting {
    /// A valid opacity never exceeds full.
    pub open spec fn wf(self) -> bool {
        self.opacity <= 256
    }
}

/// A frame fit to stand in a layer: well-formed and non-empty.
pub open spec fn frame_ok(f: Frame) -> bool {
    f.wf() && f.width > 0 && f.height > 0
}

/// Absorb one mailbox result: a freshly taken frame replaces the
/// remembered one, none keeps the previous frame.
pub fn absorb_taken(last: &mut Option<Frame>, taken: Option<Frame>)
    ensures
        *final(last) == if taken is Some {
            taken
        } else {
            *old(last)
        },
{
    if let Some(f) = taken {
        *last = Some(f);
    }
}

/// The layer built for the network input, if it ever delivered a frame.
pub open spec fn ndi_layer_seq(last: Option<Frame>, s: LayerSetting) -> Seq<Layer> {
    match last {
        Some(f) => seq![
            Layer { frame: f, opacity: s.opacity, z_index: s.z_index, source: LayerSource::Ndi },
        ],
        None => Seq::empty(),
    }
}

/// The layers built for the first `n` overlays, in order; overlays that
/// never delivered contribute nothing.
pub open spec fn overlay_layers_upto(
    last: Seq<Option<Frame>>,
    s: Seq<LayerSetting>,
    n: int,
) -> Seq<Layer>
    decreases n,
{
    if n <= 0 {
        Seq::empty()
    } else {
        overlay_layers_upto(last, s, n - 1) + match last[n - 1] {
            Some(f) => seq![
                Layer {
                    frame: f,
                    opacity: s[n - 1].opacity,
                    z_index: s[n - 1].z_index,
                    source: LayerSource::Browser((n - 1) as usize),
                },
            ],
            None => Seq::empty(),
        }
    }
}

/// The full layer list of one tick: the network input first, then the
/// overlays in their configured order.
pub open spec fn tick_layers(
    ndi_last: Option<Frame>,
    ndi_s: LayerSetting,
    overlay_last: Seq<Option<Frame>>,
    overlay_s: Seq<LayerSetting>,
) -> Seq<Layer> {
    ndi_layer_seq(ndi_last, ndi_s) + overlay_layers_upto(
        overlay_last,
        overlay_s,
        overlay_last.len() as int,
    )
}

/// Build the layer list for one tick. The remembered frames are moved
/// into the layers; the caller keeps its own copies across ticks (see
/// `Frame::duplicate`).
pub fn build_layers(
    ndi_last: Option<Frame>,
    ndi_s: &LayerSetting,
    overlay_last: Vec<Option<Frame>>,
    overlay_s: &Vec<LayerSetting>,
) -> (layers: Vec<Layer>)
    requires
        overlay_last@.len() == overlay_s@.len(),
    ensures
        layers@ == tick_layers(ndi_last, *ndi_s, overlay_last@, overlay_s@),
{
    let ghost ndi0 = ndi_last;
    let ghost ov0 = overlay_last@;
    let mut layers: Vec<Layer> = Vec::new();
    if let Some(f) = ndi_last {
        layers.push(
            Layer {
                frame: f,
                opacity: ndi_s.opacity,
                z_index: ndi_s.z_index,
                source: LayerSource::Ndi,
            },
        );
    }
    proof {
        assert(layers@ =~= ndi_layer_seq(ndi0, *ndi_s));
    }
    let ghost head = layers@;
    let n: usize = overlay_last.len();
    let mut rest = overlay_last;
    let mut i: usize = 0;
    while i < n
        invariant
            i <= n,
            n == ov0.len(),
            n == overlay_s@.len(),
            rest@ == ov0.skip(i as int),
            head == ndi_layer_seq(ndi0, *ndi_s),
            layers@ == head + overlay_layers_upto(ov0, overlay_s@, i as int),
        decreases n - i,
    {
        let item: Option<Frame> = rest.remove(0);
        assert(item == ov0[i as int]);
        match item {
            Some(f) => {
                layers.push(
                    Layer {
                        frame: f,
                        opacity: overlay_s[i].opacity,
                        z_index: overlay_s[i].z_index,
                        source: LayerSource::Browser(i),
                    },
                );
            },
            None => {},
        }
        i = i + 1;
        proof {
            assert(rest@ =~= ov0.skip(i as int));
            assert(layers@ =~= head + overlay_layers_upto(ov0, overlay_s@, i as int));
        }
    }
    layers
}

/// Each layer a tick builds is well-formed whenever the remembered frames
/// and the settings are.
pub proof fn lemma_tick_layers_wf(
    ndi_last: Option<Frame>,
    ndi_s: LayerSetting,
    overlay_last: Seq<Option<Frame>>,
    overlay_s: Seq<LayerSetting>,
)
    requires
        overlay_last.len() == overlay_s.len(),
        ndi_s.wf(),
        ndi_last is Some ==> frame_ok(ndi_last->0),
        forall|j: int| 0 <= j < overlay_s.len() ==> (#[trigger] overlay_s[j]).wf(),
        forall|j: int|
            0 <= j < overlay_last.len() && overlay_last[j] is Some ==> frame_ok(
                (#[trigger] overlay_last[j])->0,
            ),
    ensures
        forall|k: int|
            0 <= k < tick_layers(ndi_last, ndi_s, overlay_last, overlay_s).len() ==> (
            #[trigger] tick_layers(ndi_last, ndi_s, overlay_last, overlay_s)[k]).wf(),
{
    lemma_overlay_layers_wf(overlay_last, overlay_s, overlay_last.len() as int);
}

proof fn lemma_overlay_layers_wf(
    overlay_last: Seq<Option<Frame>>,
    overlay_s: Seq<LayerSetting>,
    n: int,
)
    requires
        n <= overlay_last.len(),
        overlay_last.len() == overlay_s.len(),
        forall|j: int| 0 <= j < overlay_s.len() ==> (#[trigger] overlay_s[j]).wf(),
        forall|j: int|
            0 <= j < overlay_last.len() && overlay_last[j] is Some ==> frame_ok(
                (#[trigger] overlay_last[j])->0,
            ),
    ensures
        forall|k: int|
            0 <= k < overlay_layers_upto(overlay_last, overlay_s, n).len() ==> (
            #[trigger] overlay_layers_upto(overlay_last, overlay_s, n)[k]).wf(),
    decreases n,
{
    if n > 0 {
        lemma_overlay_layers_wf(overlay_last, overlay_s, n - 1);
        let prev = overlay_layers_upto(overlay_last, overlay_s, n - 1);
        let cur = overlay_layers_upto(overlay_last, overlay_s, n);
        assert forall|k: int| 0 <= k < cur.len() implies (#[trigger] cur[k]).wf() by {
            if k < prev.len() {
                assert(cur[k] == prev[k]);
            } else {
                assert(overlay_last[n - 1] is Some);
                assert((overlay_s[n - 1]).wf());
                assert(frame_ok((overlay_last[n - 1])->0));
            }
        }
    }
}

/// One render tick on the canvas: composite the built layer list, or —
/// when no producer has ever delivered — clear to opaque black.
pub fn render_tick(canvas: &mut Frame, layers: &Vec<Layer>)
    requires
        old(canvas).wf(),
        old(canvas).width > 0,
        old(canvas).height > 0,
        forall|j: int| 0 <= j < layers@.len() ==> (#[trigger] layers@[j]).wf(),
    ensures
        final(canvas).width == old(canvas).width,
        final(canvas).height == old(canvas).height,
        final(canvas).wf(),
        final(canvas).data@ == if layers@.len() == 0 {
            black_bytes(old(canvas).pixels())
        } else {
            composite_bytes(layers@, old(canvas).width as int, old(canvas).height as int)
        },
{
    if layers.len() == 0 {
        canvas.clear_to_black();
    } else {
        composite(canvas, layers);
    }
}

} // verus!
