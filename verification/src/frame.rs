//! RGBA8 frames: tightly packed pixel buffers with width and height.

use vstd::prelude::*;

verus! {

/// An RGBA8 image. `data` holds `width * height` pixels in row-major,
/// top-left-origin order, four bytes per pixel (R, G, B, A), straight
/// (non-premultiplied) alpha: 0 is fully transparent, 255 fully opaque.
pub struct Frame {
    pub width: u32,
    pub height: u32,
    pub data: Vec<u8>,
}

/// Pixel count of a `width * height` image.
pub open spec fn area(width: int, height: int) -> int {
    width * height
}

/// Byte value of channel `c` (0 = R, 1 = G, 2 = B, 3 = A) of pixel `p`
/// in a flat RGBA byte sequence.
pub open spec fn chan(bytes: Seq<u8>, p: int, c: int) -> u8 {
    bytes[4 * p + c]
}

/// The all-black, fully opaque pixel buffer of `n` pixels.
pub open spec fn black_bytes(n: int) -> Seq<u8> {
    Seq::new((4 * n) as nat, |i: int| if i % 4 == 3 { 255u8 } else { 0u8 })
}

impl Frame {
    /// The buffer is exactly as large as the dimensions say.
    pub open spec fn wf(self) -> bool {
        self.data@.len() == 4 * self.pixels()
    }

    /// Number of pixels.
    pub open spec fn pixels(self) -> int {
        area(self.width as int, self.height as int)
    }

    /// Channel `c` of the pixel at column `x`, row `y`.
    pub open spec fn at(self, x: int, y: int, c: int) -> u8 {
        chan(self.data@, y * (self.width as int) + x, c)
    }

    /// A frame of the given size, cleared to opaque black.
    pub fn new_black(width: u32, height: u32) -> (r: Frame)
        requires
            4 * area(width as int, height as int) <= usize::MAX,
        ensures
            r.width == width,
            r.height == height,
            r.wf(),
            r.data@ == black_bytes(area(width as int, height as int)),
    {
        let n: usize = (width as usize) * (height as usize);
        let mut data: Vec<u8> = Vec::new();
        let mut p: usize = 0;
        while p < n
            invariant
                p <= n,
                n == area(width as int, height as int),
                4 * n <= usize::MAX,
                data@.len() == 4 * p,
                forall|i: int| 0 <= i < 4 * p ==> data@[i] == black_bytes(n as int)[i],
            decreases n - p,
        {
            data.push(0);
            data.push(0);
            data.push(0);
            data.push(255);
            p = p + 1;
            assert(forall|i: int|
                0 <= i < 4 * p ==> data@[i] == black_bytes(n as int)[i]) by {
                assert(forall|i: int| 4 * (p - 1) <= i < 4 * p ==> #[trigger] (i % 4) == i - 4 * (p
                    - 1));
            }
        }
        assert(data@ =~= black_bytes(n as int));
        Frame { width, height, data }
    }

    /// A frame built from an existing pixel buffer.
    pub fn from_parts(width: u32, height: u32, data: Vec<u8>) -> (r: Frame)
        requires
            data@.len() == 4 * area(width as int, height as int),
        ensures
            r.width == width,
            r.height == height,
            r.data == data,
            r.wf(),
    {
        Frame { width, height, data }
    }

    /// A frame of the given size filled with one RGBA value.
    pub fn new_solid(width: u32, height: u32, r: u8, g: u8, b: u8, a: u8) -> (res: Frame)
        requires
            4 * area(width as int, height as int) <= usize::MAX,
        ensures
            res.width == width,
            res.height == height,
            res.wf(),
            forall|p: int|
                0 <= p < res.pixels() ==> chan(res.data@, p, 0) == r && chan(res.data@, p, 1) == g
                    && chan(res.data@, p, 2) == b && chan(res.data@, p, 3) == a,
    {
        let n: usize = (width as usize) * (height as usize);
        let mut data: Vec<u8> = Vec::new();
        let mut p: usize = 0;
        while p < n
            invariant
                p <= n,
                n == area(width as int, height as int),
                4 * n <= usize::MAX,
                data@.len() == 4 * p,
                forall|q: int|
                    0 <= q < p ==> chan(data@, q, 0) == r && chan(data@, q, 1) == g && chan(
                        data@,
                        q,
                        2,
                    ) == b && chan(data@, q, 3) == a,
            decreases n - p,
        {
            let ghost d0 = data@;
            data.push(r);
            data.push(g);
            data.push(b);
            data.push(a);
            p = p + 1;
            assert forall|q: int| 0 <= q < p implies chan(data@, q, 0) == r && chan(data@, q, 1)
                == g && chan(data@, q, 2) == b && chan(data@, q, 3) == a by {
                if q < p - 1 {
                    assert(chan(d0, q, 0) == r && chan(d0, q, 1) == g && chan(d0, q, 2) == b
                        && chan(d0, q, 3) == a);
                    assert(data@[4 * q + 0] == d0[4 * q + 0]);
                    assert(data@[4 * q + 1] == d0[4 * q + 1]);
                    assert(data@[4 * q + 2] == d0[4 * q + 2]);
                    assert(data@[4 * q + 3] == d0[4 * q + 3]);
                } else {
                    assert(data@[4 * q + 0] == r);
                    assert(data@[4 * q + 1] == g);
                    assert(data@[4 * q + 2] == b);
                    assert(data@[4 * q + 3] == a);
                }
            }
        }
        Frame { width, height, data }
    }

    /// An owned copy of this frame with the same dimensions and bytes.
    pub fn duplicate(&self) -> (r: Frame)
        ensures
            r.width == self.width,
            r.height == self.height,
            r.data@ == self.data@,
    {
        let data = self.data.clone();
        proof {
            assert forall|i: int| 0 <= i < self.data@.len() implies data@[i]
                == self.data@[i] by {
                assert(cloned::<u8>(self.data@[i], data@[i]));
            }
            assert(data@ =~= self.data@);
        }
        Frame { width: self.width, height: self.height, data }
    }

    /// Overwrite every pixel with opaque black, keeping the dimensions.
    pub fn clear_to_black(&mut self)
        requires
            old(self).wf(),
        ensures
            final(self).width == old(self).width,
            final(self).height == old(self).height,
            final(self).wf(),
            final(self).data@ == black_bytes(old(self).pixels()),
    {
        let len: usize = self.data.len();
        let mut i: usize = 0;
        while i < len
            invariant
                i <= len,
                i % 4 == 0,
                self.data@.len() == len,
                self.width == old(self).width,
                self.height == old(self).height,
                len == 4 * old(self).pixels(),
                forall|j: int| 0 <= j < i ==> self.data@[j] == black_bytes(old(self).pixels())[j],
            decreases len - i,
        {
            self.data[i] = 0;
            self.data[i + 1] = 0;
            self.data[i + 2] = 0;
            self.data[i + 3] = 255;
            i = i + 4;
            assert(forall|j: int|
                0 <= j < i ==> self.data@[j] == black_bytes(old(self).pixels())[j]) by {
                assert(forall|j: int| i - 4 <= j < i ==> #[trigger] (j % 4) == j - (i - 4));
            }
        }
        assert(self.data@ =~= black_bytes(old(self).pixels()));
    }
}

} // verus!
