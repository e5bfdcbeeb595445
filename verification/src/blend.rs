//! Porter-Duff "source over" blending on straight-alpha RGBA8 buffers,
//! in integer arithmetic with the layer opacity pre-scaled to 8.8 fixed
//! point (0..=256 stands for 0.0..=1.0).

use vstd::arithmetic::div_mod::{
    lemma_div_is_ordered, lemma_div_multiples_vanish, lemma_div_pos_is_pos,
    lemma_fundamental_div_mod_converse,
};
use vstd::arithmetic::mul::lemma_mul_inequality;
use vstd::prelude::*;

use crate::frame::{chan, Frame};

verus! {

/// Effective source alpha of a pixel: its raw alpha scaled by the layer
/// opacity (0..=256). With `opacity <= 256` the result lies in 0..=255.
pub open spec fn eff_alpha(raw: u8, opacity: u16) -> int {
    (raw * opacity) / 256
}

/// Weight of the destination pixel under "source over": `da * (255 - sa) / 255`.
pub open spec fn dst_weight(da: u8, sa: int) -> int {
    (da * (255 - sa)) / 255
}

/// Blended alpha: `sa + da * (255 - sa) / 255`.
pub open spec fn over_alpha(da: u8, sa: int) -> int {
    sa + dst_weight(da, sa)
}

/// Blended color channel: `(sc * sa + dc * dst_weight) / out_a`.
pub open spec fn over_color(sc: u8, dc: u8, da: u8, sa: int) -> int {
    (sc * sa + dc * dst_weight(da, sa)) / over_alpha(da, sa)
}

/// Byte `i` of the destination buffer after blending `src` over `dst`.
/// Pixels whose effective source alpha is 0 are untouched; fully opaque
/// ones are copied; the rest get the integer "over" formula.
pub open spec fn blend_channel(dst: Seq<u8>, src: Seq<u8>, opacity: u16, i: int) -> u8 {
    let p = i / 4;
    let c = i % 4;
    let sa = eff_alpha(chan(src, p, 3), opacity);
    if sa == 0 {
        dst[i]
    } else if sa == 255 {
        if c == 3 {
            255u8
        } else {
            src[i]
        }
    } else {
        if c == 3 {
            over_alpha(chan(dst, p, 3), sa) as u8
        } else {
            over_color(src[i], dst[i], chan(dst, p, 3), sa) as u8
        }
    }
}

/// The whole destination buffer after blending `src` over it.
pub open spec fn blend_bytes(dst: Seq<u8>, src: Seq<u8>, opacity: u16) -> Seq<u8> {
    Seq::new(dst.len(), |i: int| blend_channel(dst, src, opacity, i))
}

/// The effective source alpha fits in a byte.
pub proof fn lemma_eff_alpha_bounds(raw: u8, opacity: u16)
    requires
        opacity <= 256,
    ensures
        0 <= eff_alpha(raw, opacity) <= 255,
        opacity == 256 ==> eff_alpha(raw, opacity) == raw,
        opacity == 0 ==> eff_alpha(raw, opacity) == 0,
{
    lemma_mul_inequality(raw as int, 255, opacity as int);
    lemma_mul_inequality(opacity as int, 256, 255);
    assert(raw * opacity <= 255 * opacity) by (nonlinear_arith)
        requires raw <= 255, opacity >= 0;
    assert(255 * opacity <= 255 * 256) by (nonlinear_arith)
        requires opacity <= 256;
    lemma_div_is_ordered(raw * opacity, 255int * 256, 256);
    lemma_div_pos_is_pos(raw * opacity, 256);
    if opacity == 256 {
        lemma_div_multiples_vanish(raw as int, 256);
        assert(raw * 256 == 256 * raw);
    }
}

/// Blending bounds: the dst weight, blended alpha and blended color all
/// fit in a byte, and the blended alpha is positive when `sa` is.
pub proof fn lemma_over_bounds(sc: u8, dc: u8, da: u8, sa: int)
    requires
        1 <= sa <= 254,
    ensures
        0 <= dst_weight(da, sa) <= 255 - sa,
        1 <= over_alpha(da, sa) <= 255,
        0 <= over_color(sc, dc, da, sa) <= 255,
        da == 255 ==> over_alpha(da, sa) == 255,
{
    assert(da * (255 - sa) <= 255 * (255 - sa)) by (nonlinear_arith)
        requires da <= 255, sa <= 255;
    assert(da * (255 - sa) >= 0) by (nonlinear_arith)
        requires da >= 0, sa <= 255;
    lemma_div_is_ordered(da * (255 - sa), 255 * (255 - sa), 255);
    lemma_div_multiples_vanish(255 - sa, 255);
    assert(255 * (255 - sa) == (255 - sa) * 255);
    lemma_div_pos_is_pos(da * (255 - sa), 255);
    let dw = dst_weight(da, sa);
    let oa = over_alpha(da, sa);
    assert(sc * sa <= 255 * sa) by (nonlinear_arith)
        requires sc <= 255, sa >= 0;
    assert(dc * dw <= 255 * dw) by (nonlinear_arith)
        requires dc <= 255, dw >= 0;
    assert(sc * sa >= 0 && dc * dw >= 0) by (nonlinear_arith)
        requires sc >= 0, sa >= 0, dc >= 0, dw >= 0;
    assert(255 * sa + 255 * dw == 255 * oa);
    lemma_div_is_ordered(sc * sa + dc * dw, 255 * oa, oa);
    lemma_div_multiples_vanish(255, oa);
    assert(oa * 255 == 255 * oa);
    lemma_div_pos_is_pos(sc * sa + dc * dw, oa);
    if da == 255 {
        lemma_div_multiples_vanish(255 - sa, 255);
        assert(da * (255 - sa) == 255 * (255 - sa));
    }
}

/// Blending `src` over a fully opaque destination pixel leaves it fully
/// opaque: the alpha byte of every blended pixel stays 255.
pub proof fn lemma_blend_keeps_opaque(dst: Seq<u8>, src: Seq<u8>, opacity: u16, p: int)
    requires
        opacity <= 256,
        0 <= 4 * p + 3 < dst.len(),
        chan(dst, p, 3) == 255,
    ensures
        chan(blend_bytes(dst, src, opacity), p, 3) == 255,
{
    let i = 4 * p + 3;
    lemma_fundamental_div_mod_converse(i, 4, p, 3);
    lemma_eff_alpha_bounds(chan(src, p, 3), opacity);
    let sa = eff_alpha(chan(src, p, 3), opacity);
    if 1 <= sa <= 254 {
        lemma_over_bounds(0, 0, chan(dst, p, 3), sa);
    }
}

impl Frame {
    /// Blend `src` over this frame, pixel by pixel, in place.
    ///
    /// Matches the specification `blend_bytes`: per pixel, the effective
    /// source alpha `sa = raw * opacity / 256` selects skip (`sa == 0`),
    /// plain copy (`sa == 255`) or the integer "over" formula.
    pub fn blend_direct(&mut self, src: &Frame, opacity: u16)
        requires
            old(self).wf(),
            src.wf(),
            src.width == old(self).width,
            src.height == old(self).height,
            opacity <= 256,
        ensures
            final(self).width == old(self).width,
            final(self).height == old(self).height,
            final(self).wf(),
            final(self).data@ == blend_bytes(old(self).data@, src.data@, opacity),
    {
        let ghost d0 = self.data@;
        let ghost s = src.data@;
        let ghost goal = blend_bytes(d0, s, opacity);
        let len: usize = self.data.len();
        let n: usize = len / 4;
        proof {
            lemma_div_multiples_vanish(old(self).pixels(), 4);
            assert(4 * old(self).pixels() == old(self).pixels() * 4);
        }
        let mut p: usize = 0;
        while p < n
            invariant
                p <= n,
                len == 4 * n,
                len == d0.len(),
                len == s.len(),
                s == src.data@,
                opacity <= 256,
                self.width == old(self).width,
                self.height == old(self).height,
                self.data@.len() == len,
                goal == blend_bytes(d0, s, opacity),
                forall|j: int| 0 <= j < 4 * p ==> self.data@[j] == goal[j],
                forall|j: int| 4 * p <= j < len ==> self.data@[j] == d0[j],
            decreases n - p,
        {
            let i: usize = p * 4;
            proof {
                assert(i == 4 * p);
                lemma_fundamental_div_mod_converse(i as int, 4, p as int, 0);
                lemma_fundamental_div_mod_converse(i as int + 1, 4, p as int, 1);
                lemma_fundamental_div_mod_converse(i as int + 2, 4, p as int, 2);
                lemma_fundamental_div_mod_converse(i as int + 3, 4, p as int, 3);
            }
            let raw: u8 = src.data[i + 3];
            proof {
                lemma_eff_alpha_bounds(raw, opacity);
                assert(raw as int * opacity as int <= 255 * 256) by (nonlinear_arith)
                    requires raw <= 255, 0 <= opacity <= 256;
            }
            let sa: u32 = (raw as u32) * (opacity as u32) / 256;
            proof {
                assert(chan(s, p as int, 3) == raw);
                assert(sa == eff_alpha(raw, opacity));
            }
            if sa == 0 {
            } else if sa == 255 {
                self.data[i] = src.data[i];
                self.data[i + 1] = src.data[i + 1];
                self.data[i + 2] = src.data[i + 2];
                self.data[i + 3] = 255;
            } else {
                let da: u32 = self.data[i + 3] as u32;
                let ghost da8 = chan(d0, p as int, 3);
                proof {
                    assert(da == da8);
                    lemma_over_bounds(0, 0, da8, sa as int);
                    assert(da as int * (255 - sa as int) <= 255 * 255) by (nonlinear_arith)
                        requires da <= 255, 1 <= sa <= 254;
                }
                let dw: u32 = da * (255 - sa) / 255;
                let oa: u32 = sa + dw;
                proof {
                    assert(dw == dst_weight(da8, sa as int));
                    assert(oa == over_alpha(da8, sa as int));
                }
                let sr: u32 = src.data[i] as u32;
                let sg: u32 = src.data[i + 1] as u32;
                let sb: u32 = src.data[i + 2] as u32;
                let dr: u32 = self.data[i] as u32;
                let dg: u32 = self.data[i + 1] as u32;
                let db: u32 = self.data[i + 2] as u32;
                proof {
                    lemma_over_bounds((sr as u8), (dr as u8), da8, sa as int);
                    lemma_over_bounds((sg as u8), (dg as u8), da8, sa as int);
                    lemma_over_bounds((sb as u8), (db as u8), da8, sa as int);
                    assert(sr * sa <= 255 * 254 && sg * sa <= 255 * 254 && sb * sa <= 255 * 254)
                        by (nonlinear_arith)
                        requires sr <= 255, sg <= 255, sb <= 255, sa <= 254;
                    assert(dr * dw <= 255 * 255 && dg * dw <= 255 * 255 && db * dw <= 255 * 255)
                        by (nonlinear_arith)
                        requires dr <= 255, dg <= 255, db <= 255, dw <= 255;
                }
                self.data[i] = ((sr * sa + dr * dw) / oa) as u8;
                self.data[i + 1] = ((sg * sa + dg * dw) / oa) as u8;
                self.data[i + 2] = ((sb * sa + db * dw) / oa) as u8;
                self.data[i + 3] = oa as u8;
            }
            proof {
                assert(self.data@[i as int] == goal[i as int]);
                assert(self.data@[i + 1] == goal[i + 1]);
                assert(self.data@[i + 2] == goal[i + 2]);
                assert(self.data@[i + 3] == goal[i + 3]);
            }
            p = p + 1;
        }
        assert(self.data@ =~= goal);
    }
}

} // verus!
