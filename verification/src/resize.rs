//! Nearest-neighbor resize of RGBA8 frames. Layers that do not match the
//! canvas size are scaled with this before blending, both on the CPU path
//! and before upload on the GPU path.

use vstd::arithmetic::div_mod::lemma_fundamental_div_mod_converse;
use vstd::arithmetic::mul::lemma_mul_inequality;
use vstd::prelude::*;

use crate::frame::{area, chan, Frame};

verus! {

/// Source pixel coordinate sampled for destination coordinate `d` when
/// scaling an axis of length `slen` to length `dlen`: `d * slen / dlen`.
pub open spec fn sample(d: int, slen: int, dlen: int) -> int {
    d * slen / dlen
}

/// The resized buffer: destination pixel `(x, y)` takes every channel from
/// source pixel `(sample(x, sw, dw), sample(y, sh, dh))`.
pub open spec fn resize_bytes(src: Seq<u8>, sw: int, sh: int, dw: int, dh: int) -> Seq<u8> {
    Seq::new(
        (4 * area(dw, dh)) as nat,
        |i: int|
            {
                let p = i / 4;
                let c = i % 4;
                let y = p / dw;
                let x = p % dw;
                chan(src, sample(y, sh, dh) * sw + sample(x, sw, dw), c)
            },
    )
}

/// The sampled coordinate stays inside the source axis.
pub proof fn lemma_sample_in_range(d: int, slen: int, dlen: int)
    requires
        0 <= d < dlen,
        0 < slen,
    ensures
        0 <= sample(d, slen, dlen) < slen,
{
    lemma_mul_inequality(d, dlen - 1, slen);
    assert(d * slen <= (dlen - 1) * slen);
    assert((dlen - 1) * slen == dlen * slen - slen) by (nonlinear_arith);
    assert(d * slen >= 0) by (nonlinear_arith)
        requires d >= 0, slen >= 0;
    vstd::arithmetic::div_mod::lemma_div_pos_is_pos(d * slen, dlen);
    vstd::arithmetic::div_mod::lemma_multiply_divide_lt(d * slen, dlen, slen);
}

impl Frame {
    /// Fit a freshly received frame to the channel output size: returned
    /// unchanged when it already matches, scaled by nearest-neighbor
    /// otherwise. The input receiver does this once per received frame,
    /// on its own thread, so the render loop never resizes.
    pub fn fit_to(self, dw: u32, dh: u32) -> (r: Frame)
        requires
            self.wf(),
            self.width > 0,
            self.height > 0,
            dw > 0,
            dh > 0,
            4 * area(dw as int, dh as int) <= usize::MAX,
        ensures
            r.width == dw,
            r.height == dh,
            r.wf(),
            r.data@ == if self.width == dw && self.height == dh {
                self.data@
            } else {
                resize_bytes(self.data@, self.width as int, self.height as int, dw as int, dh as int)
            },
    {
        if self.width == dw && self.height == dh {
            self
        } else {
            self.resize_nearest(dw, dh)
        }
    }

    /// Scale this frame to `dw * dh` by nearest-neighbor sampling.
    pub fn resize_nearest(&self, dw: u32, dh: u32) -> (r: Frame)
        requires
            self.wf(),
            self.width > 0,
            self.height > 0,
            dw > 0,
            dh > 0,
            4 * area(dw as int, dh as int) <= usize::MAX,
        ensures
            r.width == dw,
            r.height == dh,
            r.wf(),
            r.data@ == resize_bytes(
                self.data@,
                self.width as int,
                self.height as int,
                dw as int,
                dh as int,
            ),
    {
        let ghost s = self.data@;
        let ghost sw = self.width as int;
        let ghost sh = self.height as int;
        let ghost goal = resize_bytes(s, sw, sh, dw as int, dh as int);
        let src_len: usize = self.data.len();
        proof {
            assert(area(sw, sh) == self.pixels());
        }
        let mut data: Vec<u8> = Vec::new();
        let mut y: usize = 0;
        while y < dh as usize
            invariant
                y <= dh as int,
                s == self.data@,
                self.wf(),
                sw == self.width as int,
                sh == self.height as int,
                sw > 0,
                sh > 0,
                dw > 0,
                dh > 0,
                4 * area(dw as int, dh as int) <= usize::MAX,
                src_len == 4 * area(sw, sh),
                goal == resize_bytes(s, sw, sh, dw as int, dh as int),
                goal.len() == 4 * area(dw as int, dh as int),
                data@.len() == 4 * (y * dw as int),
                data@.len() <= goal.len(),
                forall|j: int| 0 <= j < data@.len() ==> data@[j] == goal[j],
            decreases dh - y,
        {
            proof {
                lemma_sample_in_range(y as int, sh, dh as int);
                assert((y as int) * sh <= 0xffff_ffff * 0xffff_ffffint) by (nonlinear_arith)
                    requires 0 <= y <= 0xffff_ffff, 0 <= sh <= 0xffff_ffff;
            }
            let sy: usize = ((y as u64) * (self.height as u64) / (dh as u64)) as usize;
            let mut x: usize = 0;
            while x < dw as usize
                invariant
                    x <= dw as int,
                    y < dh as int,
                    s == self.data@,
                    self.wf(),
                    sw == self.width as int,
                    sh == self.height as int,
                    sw > 0,
                    sh > 0,
                    dw > 0,
                    dh > 0,
                    4 * area(dw as int, dh as int) <= usize::MAX,
                    src_len == 4 * area(sw, sh),
                    sy == sample(y as int, sh, dh as int),
                    0 <= sy < sh,
                    goal == resize_bytes(s, sw, sh, dw as int, dh as int),
                    goal.len() == 4 * area(dw as int, dh as int),
                    data@.len() == 4 * (y * dw as int + x as int),
                    data@.len() <= goal.len(),
                    forall|j: int| 0 <= j < data@.len() ==> data@[j] == goal[j],
                decreases dw - x,
            {
                proof {
                    lemma_sample_in_range(x as int, sw, dw as int);
                    assert((x as int) * sw <= 0xffff_ffff * 0xffff_ffffint) by (nonlinear_arith)
                        requires 0 <= x <= 0xffff_ffff, 0 <= sw <= 0xffff_ffff;
                }
                let sx: usize = ((x as u64) * (self.width as u64) / (dw as u64)) as usize;
                let ghost sp = sy * sw + sx;
                proof {
                    assert(sy * sw + sx < sh * sw) by (nonlinear_arith)
                        requires 0 <= sy <= sh - 1, 0 <= sx < sw, sw > 0;
                    assert(sh * sw == area(sw, sh)) by (nonlinear_arith);
                    assert(4 * sp + 3 < 4 * area(sw, sh));
                    assert(4 * area(sw, sh) <= usize::MAX);
                }
                let si: usize = (sy * (self.width as usize) + sx) * 4;
                proof {
                    assert(si == 4 * sp);
                }
                let ghost dp = (y as int) * (dw as int) + (x as int);
                let ghost before = data@.len() as int;
                proof {
                    assert(before == 4 * dp);
                    assert(dp < area(dw as int, dh as int)) by (nonlinear_arith)
                        requires
                            0 <= y < dh as int,
                            0 <= x < dw as int,
                            dp == (y as int) * (dw as int) + (x as int),
                            area(dw as int, dh as int) == (dw as int) * (dh as int),
                    ;
                }
                let ghost before_seq = data@;
                data.push(self.data[si]);
                data.push(self.data[si + 1]);
                data.push(self.data[si + 2]);
                data.push(self.data[si + 3]);
                x = x + 1;
                proof {
                    assert forall|c: int| 0 <= c < 4 implies data@[4 * dp + c] == #[trigger] goal[4
                        * dp + c] by {
                        lemma_fundamental_div_mod_converse(4 * dp + c, 4, dp, c);
                        lemma_fundamental_div_mod_converse(dp, dw as int, y as int, x - 1);
                        assert(data@[4 * dp + c] == chan(s, sp, c));
                    }
                    assert(data@.len() == 4 * (y * dw as int + x as int));
                    assert forall|j: int| 0 <= j < data@.len() implies data@[j] == goal[j] by {
                        if j < before {
                            assert(data@[j] == before_seq[j]);
                        } else {
                            assert(data@[4 * dp + (j - 4 * dp)] == goal[4 * dp + (j - 4 * dp)]);
                        }
                    }
                }
            }
            y = y + 1;
            proof {
                assert((y - 1) * dw as int + dw as int == y * dw as int) by (nonlinear_arith);
            }
        }
        proof {
            assert((dh as int) * (dw as int) == area(dw as int, dh as int)) by (nonlinear_arith);
            assert(data@ =~= goal);
        }
        Frame { width: dw, height: dh, data }
    }
}

} // verus!
