//! The CPU reference compositor: clears the canvas to opaque black, orders
//! the layers by ascending `z_index` (stable: equal keys keep their given
//! order), then blends each layer with Porter-Duff "source over", resizing
//! layers that do not match the canvas.

use vstd::prelude::*;

use crate::blend::{blend_bytes, lemma_blend_keeps_opaque};
use crate::frame::{area, black_bytes, chan, Frame};
use crate::resize::resize_bytes;

verus! {

/// Which producer a layer came from; used to route per-layer filter chains.
#[derive(Clone, Copy, PartialEq, Eq, Structural, Debug)]
pub enum LayerSource {
    /// The channel's network video input.
    Ndi,
    /// The browser overlay with the given index.
    Browser(usize),
}

/// One input to the compositor: a frame plus its blending parameters.
pub struct Layer {
    pub frame: Frame,
    /// Opacity in 8.8 fixed point: 0..=256 stands for 0.0..=1.0.
    pub opacity: u16,
    /// Render order; lower is drawn first (behind).
    pub z_index: i32,
    pub source: LayerSource,
}

impl Layer {
    /// A layer holds a real (non-empty) well-formed frame and a valid opacity.
    pub open spec fn wf(self) -> bool {
        &&& self.frame.wf()
        &&& self.frame.width > 0
        &&& self.frame.height > 0
        &&& self.opacity <= 256
    }
}

/// The z keys of a layer list.
pub open spec fn layer_zs(layers: Seq<Layer>) -> Seq<i32> {
    layers.map_values(|l: Layer| l.z_index)
}

/// Position at which a new index with key `z` is inserted into `ord`
/// (which lists indices whose keys are already sorted): after every
/// entry whose key is `<= z`, before every entry whose key is `> z`.
pub open spec fn insert_pos(ord: Seq<int>, zs: Seq<i32>, z: i32) -> int
    decreases ord.len(),
{
    if ord.len() == 0 {
        0
    } else if zs[ord.last()] <= z {
        ord.len() as int
    } else {
        insert_pos(ord.drop_last(), zs, z)
    }
}

/// The stable sort order of the first `n` indices by their keys in `zs`:
/// index `n - 1` is inserted into the order of the first `n - 1`.
pub open spec fn stable_order_upto(zs: Seq<i32>, n: int) -> Seq<int>
    decreases n,
{
    if n <= 0 {
        Seq::empty()
    } else {
        let prev = stable_order_upto(zs, n - 1);
        prev.insert(insert_pos(prev, zs, zs[n - 1]), n - 1)
    }
}

/// The stable sort order of all indices of `zs` by ascending key; indices
/// with equal keys stay in their original order.
pub open spec fn stable_order(zs: Seq<i32>) -> Seq<int> {
    stable_order_upto(zs, zs.len() as int)
}

/// Two indices stand in sorted order: strictly smaller key, or equal keys
/// and original order kept.
pub open spec fn key_order(zs: Seq<i32>, a: int, b: int) -> bool {
    zs[a] < zs[b] || (zs[a] == zs[b] && a < b)
}

proof fn lemma_insert_pos_spec(ord: Seq<int>, zs: Seq<i32>, z: i32)
    ensures
        0 <= insert_pos(ord, zs, z) <= ord.len(),
        forall|k: int| insert_pos(ord, zs, z) <= k < ord.len() ==> zs[#[trigger] ord[k]] > z,
        insert_pos(ord, zs, z) > 0 ==> zs[ord[insert_pos(ord, zs, z) - 1]] <= z,
    decreases ord.len(),
{
    if ord.len() > 0 && zs[ord.last()] > z {
        lemma_insert_pos_spec(ord.drop_last(), zs, z);
        assert(forall|k: int|
            0 <= k < ord.len() - 1 ==> #[trigger] ord[k] == ord.drop_last()[k]);
    }
}

/// `stable_order_upto(zs, n)` is a permutation of `0 .. n`, sorted by key
/// with ties kept in index order.
pub proof fn lemma_stable_order_upto_props(zs: Seq<i32>, n: int)
    requires
        0 <= n <= zs.len(),
    ensures
        stable_order_upto(zs, n).len() == n,
        forall|k: int| 0 <= k < n ==> 0 <= #[trigger] stable_order_upto(zs, n)[k] < n,
        forall|j: int| 0 <= j < n ==> stable_order_upto(zs, n).contains(j),
        stable_order_upto(zs, n).no_duplicates(),
        forall|k: int, l: int|
            0 <= k < l < n ==> key_order(
                zs,
                #[trigger] stable_order_upto(zs, n)[k],
                #[trigger] stable_order_upto(zs, n)[l],
            ),
    decreases n,
{
    if n > 0 {
        lemma_stable_order_upto_props(zs, n - 1);
        let prev = stable_order_upto(zs, n - 1);
        let z = zs[n - 1];
        let pos = insert_pos(prev, zs, z);
        lemma_insert_pos_spec(prev, zs, z);
        let cur = prev.insert(pos, n - 1);
        assert(cur == stable_order_upto(zs, n));
        assert(cur.len() == n);
        assert(forall|k: int| 0 <= k < pos ==> #[trigger] cur[k] == prev[k]);
        assert(cur[pos] == n - 1);
        assert(forall|k: int| pos < k < n ==> #[trigger] cur[k] == prev[k - 1]);
        // every index 0 .. n occurs
        assert forall|j: int| 0 <= j < n implies cur.contains(j) by {
            if j == n - 1 {
                assert(cur[pos] == j);
            } else {
                assert(prev.contains(j));
                let k = choose|k: int| 0 <= k < prev.len() && prev[k] == j;
                if k < pos {
                    assert(cur[k] == j);
                } else {
                    assert(cur[k + 1] == j);
                }
            }
        }
        // no duplicates
        assert forall|k: int, l: int|
            0 <= k < l < n implies #[trigger] cur[k] != #[trigger] cur[l] by {
            if k == pos || l == pos {
                assert(cur[pos] == n - 1);
            }
        }
        assert(cur.no_duplicates()) by {
            assert(forall|k: int, l: int|
                0 <= k < cur.len() && 0 <= l < cur.len() && k != l ==> #[trigger] cur[k]
                    != #[trigger] cur[l]);
        }
        // sortedness: keys ascend, ties keep index order
        assert forall|k: int, l: int| 0 <= k < l < n implies key_order(
            zs,
            #[trigger] cur[k],
            #[trigger] cur[l],
        ) by {
            if l < pos {
            } else if k < pos && l == pos {
                // prev keys up to pos - 1 are <= z, and prev entries are < n - 1
                assert(cur[k] == prev[k]);
                if k < pos - 1 {
                    assert(key_order(zs, prev[k], prev[pos - 1]));
                }
                assert(zs[prev[k]] <= z);
            } else if k < pos && l > pos {
                assert(cur[k] == prev[k] && cur[l] == prev[l - 1]);
                assert(key_order(zs, prev[k], prev[l - 1]));
            } else if k == pos {
                assert(cur[l] == prev[l - 1]);
                assert(zs[prev[l - 1]] > z);
            } else {
                assert(cur[k] == prev[k - 1] && cur[l] == prev[l - 1]);
                assert(key_order(zs, prev[k - 1], prev[l - 1]));
            }
        }
    }
}

/// The layer's pixels at canvas scale: its own buffer if the sizes match,
/// else the nearest-neighbor resize.
pub open spec fn scaled_bytes(l: Layer, w: int, h: int) -> Seq<u8> {
    if l.frame.width == w && l.frame.height == h {
        l.frame.data@
    } else {
        resize_bytes(l.frame.data@, l.frame.width as int, l.frame.height as int, w, h)
    }
}

/// One compositing step: a layer with opacity 0 leaves the canvas
/// untouched; any other is scaled and blended over it.
pub open spec fn blend_layer_bytes(canvas: Seq<u8>, l: Layer, w: int, h: int) -> Seq<u8> {
    if l.opacity == 0 {
        canvas
    } else {
        blend_bytes(canvas, scaled_bytes(l, w, h), l.opacity)
    }
}

/// The canvas after blending the layers picked out by `ord`, in order.
pub open spec fn composite_onto(
    canvas: Seq<u8>,
    layers: Seq<Layer>,
    ord: Seq<int>,
    w: int,
    h: int,
) -> Seq<u8>
    decreases ord.len(),
{
    if ord.len() == 0 {
        canvas
    } else {
        composite_onto(blend_layer_bytes(canvas, layers[ord[0]], w, h), layers, ord.drop_first(), w, h)
    }
}

proof fn lemma_composite_onto_snoc(
    canvas: Seq<u8>,
    layers: Seq<Layer>,
    ord: Seq<int>,
    j: int,
    w: int,
    h: int,
)
    ensures
        composite_onto(canvas, layers, ord.push(j), w, h) == blend_layer_bytes(
            composite_onto(canvas, layers, ord, w, h),
            layers[j],
            w,
            h,
        ),
    decreases ord.len(),
{
    if ord.len() == 0 {
        let c1 = blend_layer_bytes(canvas, layers[j], w, h);
        assert(ord.push(j)[0] == j);
        assert(ord.push(j).drop_first() =~= Seq::<int>::empty());
        assert(composite_onto(c1, layers, Seq::<int>::empty(), w, h) == c1);
        assert(composite_onto(canvas, layers, ord.push(j), w, h) == c1);
        assert(composite_onto(canvas, layers, ord, w, h) == canvas);
    } else {
        let c1 = blend_layer_bytes(canvas, layers[ord[0]], w, h);
        assert(ord.push(j).drop_first() =~= ord.drop_first().push(j));
        assert(ord.push(j)[0] == ord[0]);
        assert(composite_onto(canvas, layers, ord.push(j), w, h) == composite_onto(
            c1,
            layers,
            ord.drop_first().push(j),
            w,
            h,
        ));
        assert(composite_onto(canvas, layers, ord, w, h) == composite_onto(
            c1,
            layers,
            ord.drop_first(),
            w,
            h,
        ));
        lemma_composite_onto_snoc(c1, layers, ord.drop_first(), j, w, h);
    }
}

/// The canvas after a full composite: opaque black, then — unless the fast
/// path applies (exactly one layer, full opacity, matching size: its bytes
/// are taken as they are) — every layer blended in stable z order.
pub open spec fn composite_bytes(layers: Seq<Layer>, w: int, h: int) -> Seq<u8> {
    if layers.len() == 1 && layers[0].opacity >= 256 && layers[0].frame.width == w
        && layers[0].frame.height == h {
        layers[0].frame.data@
    } else {
        composite_onto(black_bytes(area(w, h)), layers, stable_order(layer_zs(layers)), w, h)
    }
}

impl Frame {
    /// Overwrite this frame's pixels with those of `src` (same size).
    pub fn copy_from(&mut self, src: &Frame)
        requires
            old(self).wf(),
            src.wf(),
            src.width == old(self).width,
            src.height == old(self).height,
        ensures
            final(self).width == old(self).width,
            final(self).height == old(self).height,
            final(self).wf(),
            final(self).data@ == src.data@,
    {
        let len: usize = self.data.len();
        let mut i: usize = 0;
        while i < len
            invariant
                i <= len,
                self.data@.len() == len,
                src.data@.len() == len,
                self.width == old(self).width,
                self.height == old(self).height,
                old(self).wf(),
                len == 4 * old(self).pixels(),
                forall|j: int| 0 <= j < i ==> self.data@[j] == src.data@[j],
            decreases len - i,
        {
            self.data[i] = src.data[i];
            i = i + 1;
        }
        assert(self.data@ =~= src.data@);
    }

    /// Blend one layer over this canvas: skipped entirely at opacity 0,
    /// scaled first if its size differs from the canvas.
    pub fn blend_layer(&mut self, layer: &Layer)
        requires
            old(self).wf(),
            old(self).width > 0,
            old(self).height > 0,
            layer.wf(),
        ensures
            final(self).width == old(self).width,
            final(self).height == old(self).height,
            final(self).wf(),
            final(self).data@ == blend_layer_bytes(
                old(self).data@,
                *layer,
                old(self).width as int,
                old(self).height as int,
            ),
    {
        if layer.opacity == 0 {
            return ;
        }
        if layer.frame.width == self.width && layer.frame.height == self.height {
            self.blend_direct(&layer.frame, layer.opacity);
        } else {
            let len: usize = self.data.len();
            assert(4 * area(self.width as int, self.height as int) <= usize::MAX);
            let scaled = layer.frame.resize_nearest(self.width, self.height);
            self.blend_direct(&scaled, layer.opacity);
        }
    }
}

/// The stable z order of `layers` as a vector of indices into it.
pub fn sorted_order(layers: &Vec<Layer>) -> (ord: Vec<usize>)
    ensures
        ord@.map_values(|u: usize| u as int) == stable_order(layer_zs(layers@)),
        ord@.len() == layers@.len(),
        forall|k: int| 0 <= k < ord@.len() ==> #[trigger] ord@[k] < layers@.len(),
{
    let ghost zs = layer_zs(layers@);
    let n: usize = layers.len();
    let mut ord: Vec<usize> = Vec::new();
    let mut i: usize = 0;
    while i < n
        invariant
            i <= n,
            n == layers@.len(),
            zs == layer_zs(layers@),
            ord@.len() == i,
            forall|k: int| 0 <= k < i ==> #[trigger] ord@[k] < i,
            ord@.map_values(|u: usize| u as int) == stable_order_upto(zs, i as int),
        decreases n - i,
    {
        let zi: i32 = layers[i].z_index;
        let ghost prev = ord@.map_values(|u: usize| u as int);
        assert(zi == zs[i as int]);
        let mut pos: usize = ord.len();
        proof {
            assert(prev.take(pos as int) =~= prev);
        }
        while pos > 0 && layers[ord[pos - 1]].z_index > zi
            invariant
                pos <= ord@.len(),
                n == layers@.len(),
                zs == layer_zs(layers@),
                zi == zs[i as int],
                prev == ord@.map_values(|u: usize| u as int),
                ord@.len() == i,
                i < n,
                forall|k: int| 0 <= k < i ==> #[trigger] ord@[k] < i,
                insert_pos(prev, zs, zi) == insert_pos(prev.take(pos as int), zs, zi),
            decreases pos,
        {
            proof {
                let t = prev.take(pos as int);
                assert(t.last() == prev[pos - 1]);
                assert(t.drop_last() =~= prev.take(pos - 1));
                assert(zs[prev[pos - 1]] > zi);
            }
            pos = pos - 1;
        }
        proof {
            let t = prev.take(pos as int);
            if pos == 0 {
                assert(t =~= Seq::<int>::empty());
            } else {
                assert(t.last() == prev[pos - 1]);
                assert(zs[prev[pos - 1]] <= zi);
            }
            assert(insert_pos(prev, zs, zi) == pos);
        }
        ord.insert(pos, i);
        proof {
            assert(ord@.map_values(|u: usize| u as int) =~= prev.insert(pos as int, i as int));
            assert(stable_order_upto(zs, i as int + 1) == prev.insert(
                insert_pos(prev, zs, zs[i as int]),
                i as int,
            ));
        }
        i = i + 1;
    }
    ord
}

/// Composite `layers` onto the canvas: clear to opaque black, then blend
/// in stable ascending z order; a single full-opacity layer of matching
/// size is copied as it is.
pub fn composite(canvas: &mut Frame, layers: &Vec<Layer>)
    requires
        old(canvas).wf(),
        old(canvas).width > 0,
        old(canvas).height > 0,
        forall|j: int| 0 <= j < layers@.len() ==> #[trigger] layers@[j].wf(),
    ensures
        final(canvas).width == old(canvas).width,
        final(canvas).height == old(canvas).height,
        final(canvas).wf(),
        final(canvas).data@ == composite_bytes(
            layers@,
            old(canvas).width as int,
            old(canvas).height as int,
        ),
{
    let ghost w = old(canvas).width as int;
    let ghost h = old(canvas).height as int;
    canvas.clear_to_black();
    if layers.len() == 1 && layers[0].opacity >= 256 && layers[0].frame.width == canvas.width
        && layers[0].frame.height == canvas.height {
        assert(layers@[0].wf());
        let first = &layers[0].frame;
        canvas.copy_from(first);
        return ;
    }
    let ord = sorted_order(layers);
    let ghost ord_s = stable_order(layer_zs(layers@));
    let n: usize = ord.len();
    let mut k: usize = 0;
    while k < n
        invariant
            k <= n,
            n == ord@.len(),
            n == layers@.len(),
            ord@.map_values(|u: usize| u as int) == ord_s,
            ord_s == stable_order(layer_zs(layers@)),
            forall|j: int| 0 <= j < n ==> #[trigger] ord@[j] < n,
            forall|j: int| 0 <= j < layers@.len() ==> #[trigger] layers@[j].wf(),
            canvas.width == old(canvas).width,
            canvas.height == old(canvas).height,
            canvas.wf(),
            w == old(canvas).width as int,
            h == old(canvas).height as int,
            w > 0,
            h > 0,
            canvas.data@ == composite_onto(
                black_bytes(area(w, h)),
                layers@,
                ord_s.take(k as int),
                w,
                h,
            ),
        decreases n - k,
    {
        let li: usize = ord[k];
        assert(ord_s[k as int] == li as int);
        canvas.blend_layer(&layers[li]);
        proof {
            lemma_composite_onto_snoc(
                black_bytes(area(w, h)),
                layers@,
                ord_s.take(k as int),
                li as int,
                w,
                h,
            );
            assert(ord_s.take(k as int).push(li as int) =~= ord_s.take(k as int + 1));
        }
        k = k + 1;
    }
    proof {
        assert(ord_s.take(n as int) =~= ord_s);
    }
}

/// Every pixel of a composited canvas is fully opaque (alpha 255): the
/// initial clear establishes it and over-blending keeps it. The one case
/// aside is the verbatim fast-path copy, whose alpha bytes are the layer's
/// own; the premise asks that such a layer be fully opaque itself.
pub proof fn lemma_composite_opaque(layers: Seq<Layer>, w: int, h: int)
    requires
        w > 0,
        h > 0,
        forall|j: int| 0 <= j < layers.len() ==> #[trigger] layers[j].wf(),
        (layers.len() == 1 && layers[0].opacity >= 256 && layers[0].frame.width == w
            && layers[0].frame.height == h) ==> forall|p: int|
            0 <= p < layers[0].frame.pixels() ==> chan(layers[0].frame.data@, p, 3) == 255,
    ensures
        composite_bytes(layers, w, h).len() == 4 * area(w, h),
        forall|p: int|
            0 <= p < area(w, h) ==> chan(#[trigger] composite_bytes(layers, w, h), p, 3) == 255,
{
    if layers.len() == 1 && layers[0].opacity >= 256 && layers[0].frame.width == w
        && layers[0].frame.height == h {
        assert(layers[0].wf());
        assert(composite_bytes(layers, w, h) == layers[0].frame.data@);
        assert(layers[0].frame.pixels() == area(w, h));
    } else {
        let zs = layer_zs(layers);
        lemma_stable_order_upto_props(zs, zs.len() as int);
        assert(black_bytes(area(w, h)).len() == 4 * area(w, h));
        assert forall|p: int| 0 <= p < area(w, h) implies chan(
            black_bytes(area(w, h)),
            p,
            3,
        ) == 255 by {
            assert((4 * p + 3) % 4 == 3) by (nonlinear_arith);
        }
        lemma_fold_opaque(black_bytes(area(w, h)), layers, stable_order(zs), w, h);
    }
}

proof fn lemma_fold_opaque(canvas: Seq<u8>, layers: Seq<Layer>, ord: Seq<int>, w: int, h: int)
    requires
        canvas.len() == 4 * area(w, h),
        forall|p: int| 0 <= p < area(w, h) ==> chan(canvas, p, 3) == 255,
        forall|k: int| 0 <= k < ord.len() ==> 0 <= #[trigger] ord[k] < layers.len(),
        forall|j: int| 0 <= j < layers.len() ==> #[trigger] layers[j].wf(),
    ensures
        composite_onto(canvas, layers, ord, w, h).len() == 4 * area(w, h),
        forall|p: int|
            0 <= p < area(w, h) ==> chan(composite_onto(canvas, layers, ord, w, h), p, 3) == 255,
    decreases ord.len(),
{
    if ord.len() > 0 {
        assert(0 <= ord[0] < layers.len());
        assert(layers[ord[0]].wf());
        let l = layers[ord[0]];
        let next = blend_layer_bytes(canvas, l, w, h);
        assert(next.len() == 4 * area(w, h));
        assert forall|p: int| 0 <= p < area(w, h) implies chan(next, p, 3) == 255 by {
            if l.opacity != 0 {
                lemma_blend_keeps_opaque(canvas, scaled_bytes(l, w, h), l.opacity, p);
            }
        }
        lemma_fold_opaque(next, layers, ord.drop_first(), w, h);
    }
}

/// Two layers with the same pixel bytes, dimensions and blending
/// parameters; they may differ in everything the compositor cannot
/// observe.
pub open spec fn same_content(a: Layer, b: Layer) -> bool {
    &&& a.frame.width == b.frame.width
    &&& a.frame.height == b.frame.height
    &&& a.frame.data@ == b.frame.data@
    &&& a.opacity == b.opacity
    &&& a.z_index == b.z_index
}

/// The compositor is deterministic: its output is a function of the
/// layers' pixel bytes, dimensions, opacities and z order alone —
/// nothing else about the inputs (and no time or chance) enters.
pub proof fn lemma_composite_deterministic(a: Seq<Layer>, b: Seq<Layer>, w: int, h: int)
    requires
        a.len() == b.len(),
        forall|k: int| 0 <= k < a.len() ==> same_content(#[trigger] a[k], #[trigger] b[k]),
    ensures
        composite_bytes(a, w, h) == composite_bytes(b, w, h),
{
    assert(layer_zs(a) =~= layer_zs(b));
    lemma_stable_order_upto_props(layer_zs(a), a.len() as int);
    if a.len() == 1 && a[0].opacity >= 256 && a[0].frame.width == w && a[0].frame.height == h {
    } else {
        lemma_fold_respects_content(
            black_bytes(area(w, h)),
            a,
            b,
            stable_order(layer_zs(a)),
            w,
            h,
        );
    }
}

proof fn lemma_fold_respects_content(
    canvas: Seq<u8>,
    a: Seq<Layer>,
    b: Seq<Layer>,
    ord: Seq<int>,
    w: int,
    h: int,
)
    requires
        a.len() == b.len(),
        forall|k: int| 0 <= k < a.len() ==> same_content(#[trigger] a[k], #[trigger] b[k]),
        forall|k: int| 0 <= k < ord.len() ==> 0 <= #[trigger] ord[k] < a.len(),
    ensures
        composite_onto(canvas, a, ord, w, h) == composite_onto(canvas, b, ord, w, h),
    decreases ord.len(),
{
    if ord.len() > 0 {
        let la = a[ord[0]];
        let lb = b[ord[0]];
        assert(same_content(la, lb));
        assert(blend_layer_bytes(canvas, la, w, h) == blend_layer_bytes(canvas, lb, w, h)) by {
            if la.opacity != 0 {
                assert(scaled_bytes(la, w, h) == scaled_bytes(lb, w, h));
            }
        }
        lemma_fold_respects_content(
            blend_layer_bytes(canvas, la, w, h),
            a,
            b,
            ord.drop_first(),
            w,
            h,
        );
    }
}

/// Blending a layer of opacity 0 leaves the canvas byte-identical.
pub proof fn lemma_zero_opacity_blend_identity(canvas: Seq<u8>, l: Layer, w: int, h: int)
    requires
        l.opacity == 0,
    ensures
        blend_layer_bytes(canvas, l, w, h) == canvas,
{
}

/// A single layer of full opacity whose size matches the canvas and whose
/// alpha is 255 everywhere composites to exactly its own bytes.
pub proof fn lemma_single_full_layer(l: Layer, w: int, h: int)
    requires
        l.wf(),
        l.opacity == 256,
        l.frame.width == w,
        l.frame.height == h,
        forall|p: int| 0 <= p < l.frame.pixels() ==> chan(l.frame.data@, p, 3) == 255,
    ensures
        composite_bytes(seq![l], w, h) == l.frame.data@,
{
    assert(seq![l][0] == l);
}

} // verus!
