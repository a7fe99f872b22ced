//! The pixel buffer: a width × height grid of pixels, each pixel four 8-bit
//! channels (red, green, blue, alpha), stored row-major in one flat byte
//! vector.

use vstd::prelude::*;
use vstd::pervasive::VecAdditionalExecFns;

verus! {

/// A 2D grid of width × height pixels, each a fixed tuple of four 8-bit
/// channels, flattened row-major: channel `c` of the pixel at `(x, y)` lives
/// at byte `4 * (y * width + x) + c`.
pub struct PixelBuffer {
    pub width: u32,
    pub height: u32,
    pub data: Vec<u8>,
}

/// Position of channel `c` of the pixel at `(x, y)` in the flat byte vector
/// of a buffer `w` pixels wide.
pub open spec fn pix_idx(w: int, x: int, y: int, c: int) -> int {
    4 * (y * w + x) + c
}

/// For an in-bounds pixel and channel, the flat position is inside the byte
/// vector of a well-formed buffer.
pub proof fn lemma_pix_idx_bounds(w: int, h: int, x: int, y: int, c: int)
    requires
        0 <= x < w,
        0 <= y < h,
        0 <= c < 4,
    ensures
        0 <= y * w + x < w * h,
        0 <= pix_idx(w, x, y, c) < 4 * w * h,
        w * h <= 4 * w * h,
{
    assert(0 <= y * w + x < w * h && 4 * (y * w + x) + c < 4 * w * h && w * h <= 4 * w * h)
        by (nonlinear_arith)
        requires
            0 <= x < w,
            0 <= y < h,
            0 <= c < 4,
    ;
}

/// Distinct in-bounds (pixel, channel) addresses occupy distinct flat
/// positions.
pub proof fn lemma_pix_idx_injective(
    w: int,
    x1: int,
    y1: int,
    c1: int,
    x2: int,
    y2: int,
    c2: int,
)
    requires
        0 <= x1 < w,
        0 <= x2 < w,
        0 <= y1,
        0 <= y2,
        0 <= c1 < 4,
        0 <= c2 < 4,
        pix_idx(w, x1, y1, c1) == pix_idx(w, x2, y2, c2),
    ensures
        x1 == x2,
        y1 == y2,
        c1 == c2,
{
    assert(y1 * w + x1 == y2 * w + x2);
    assert(x1 == x2 && y1 == y2) by (nonlinear_arith)
        requires
            0 <= x1 < w,
            0 <= x2 < w,
            y1 * w + x1 == y2 * w + x2,
    ;
}

impl PixelBuffer {
    /// The byte vector holds exactly four bytes per pixel.
    pub open spec fn wf(self) -> bool {
        self.data@.len() == 4 * (self.width as int) * (self.height as int)
    }

    /// Whether `(x, y)` names a pixel of this buffer.
    pub open spec fn in_bounds(self, x: int, y: int) -> bool {
        0 <= x < self.width as int && 0 <= y < self.height as int
    }

    /// Channel `c` of the pixel at `(x, y)`.
    pub open spec fn chan_at(self, x: int, y: int, c: int) -> u8 {
        self.data@[pix_idx(self.width as int, x, y, c)]
    }

    /// A buffer of the given dimensions with every channel of every pixel
    /// zero (fully transparent black).
    pub fn new(width: u32, height: u32) -> (r: PixelBuffer)
        requires
            4 * (width as int) * (height as int) <= usize::MAX,
        ensures
            r.wf(),
            r.width == width,
            r.height == height,
            forall|x: int, y: int, c: int|
                r.in_bounds(x, y) && 0 <= c < 4 ==> r.chan_at(x, y, c) == 0u8,
    {
        proof {
            assert(0 <= (width as int) * (height as int) && 4 * ((width as int) * (height
                as int)) == 4 * (width as int) * (height as int)) by (nonlinear_arith);
        }
        let total: usize = 4 * ((width as usize) * (height as usize));
        let mut data: Vec<u8> = Vec::new();
        let mut i: usize = 0;
        while i < total
            invariant
                i <= total,
                data@.len() == i,
                forall|j: int| 0 <= j < i ==> data@[j] == 0u8,
            decreases total - i,
        {
            data.push(0);
            i = i + 1;
        }
        let r = PixelBuffer { width, height, data };
        proof {
            assert forall|x: int, y: int, c: int|
                r.in_bounds(x, y) && 0 <= c < 4 implies r.chan_at(x, y, c) == 0u8 by {
                lemma_pix_idx_bounds(width as int, height as int, x, y, c);
            }
        }
        r
    }

    /// Wrap a flat byte vector as a buffer, if its length matches the
    /// dimensions; otherwise hand nothing back.
    pub fn from_raw(width: u32, height: u32, data: Vec<u8>) -> (r: Option<PixelBuffer>)
        ensures
            match r {
                Some(b) => {
                    &&& b.wf()
                    &&& b.width == width
                    &&& b.height == height
                    &&& b.data@ == data@
                    &&& data@.len() == 4 * (width as int) * (height as int)
                },
                None => data@.len() != 4 * (width as int) * (height as int),
            },
    {
        proof {
            assert(0 <= 4 * (width as int) * (height as int) <= 4 * 0xffff_ffffint
                * 0xffff_ffffint) by (nonlinear_arith)
                requires
                    width <= 0xffff_ffffint,
                    height <= 0xffff_ffffint,
                    0 <= width,
                    0 <= height,
            ;
        }
        let expected: u128 = 4u128 * (width as u128) * (height as u128);
        if (data.len() as u128) == expected {
            Some(PixelBuffer { width, height, data })
        } else {
            None
        }
    }

    /// Write all four channels of the pixel at `(x, y)`; every other pixel
    /// keeps its value.
    pub fn put_pixel(&mut self, x: u32, y: u32, p: [u8; 4])
        requires
            old(self).wf(),
            old(self).in_bounds(x as int, y as int),
        ensures
            final(self).wf(),
            final(self).width == old(self).width,
            final(self).height == old(self).height,
            forall|c: int| 0 <= c < 4 ==> final(self).chan_at(x as int, y as int, c) == p@[c],
            forall|x2: int, y2: int, c2: int|
                old(self).in_bounds(x2, y2) && 0 <= c2 < 4 && !(x2 == x && y2 == y)
                    ==> final(self).chan_at(x2, y2, c2) == old(self).chan_at(x2, y2, c2),
    {
        self.set_channel(x, y, 0, p[0]);
        self.set_channel(x, y, 1, p[1]);
        self.set_channel(x, y, 2, p[2]);
        self.set_channel(x, y, 3, p[3]);
    }

    /// Read all four channels of the pixel at `(x, y)`.
    pub fn get_pixel(&self, x: u32, y: u32) -> (p: [u8; 4])
        requires
            self.wf(),
            self.in_bounds(x as int, y as int),
        ensures
            forall|c: int| 0 <= c < 4 ==> p@[c] == self.chan_at(x as int, y as int, c),
    {
        [
            self.get_channel(x, y, 0),
            self.get_channel(x, y, 1),
            self.get_channel(x, y, 2),
            self.get_channel(x, y, 3),
        ]
    }

    /// Read one channel of one pixel.
    pub fn get_channel(&self, x: u32, y: u32, c: usize) -> (v: u8)
        requires
            self.wf(),
            self.in_bounds(x as int, y as int),
            c < 4,
        ensures
            v == self.chan_at(x as int, y as int, c as int),
    {
        proof {
            lemma_pix_idx_bounds(
                self.width as int,
                self.height as int,
                x as int,
                y as int,
                c as int,
            );
        }
        let n: usize = self.data.len();
        assert(pix_idx(self.width as int, x as int, y as int, c as int) < n);
        let i: usize = 4 * ((y as usize) * (self.width as usize) + (x as usize)) + c;
        self.data[i]
    }

    /// Overwrite one channel of one pixel; every other byte keeps its value.
    pub fn set_channel(&mut self, x: u32, y: u32, c: usize, v: u8)
        requires
            old(self).wf(),
            old(self).in_bounds(x as int, y as int),
            c < 4,
        ensures
            final(self).wf(),
            final(self).width == old(self).width,
            final(self).height == old(self).height,
            final(self).chan_at(x as int, y as int, c as int) == v,
            forall|x2: int, y2: int, c2: int|
                old(self).in_bounds(x2, y2) && 0 <= c2 < 4 && !(x2 == x && y2 == y && c2 == c)
                    ==> final(self).chan_at(x2, y2, c2) == old(self).chan_at(x2, y2, c2),
    {
        proof {
            lemma_pix_idx_bounds(
                self.width as int,
                self.height as int,
                x as int,
                y as int,
                c as int,
            );
        }
        let n: usize = self.data.len();
        assert(pix_idx(self.width as int, x as int, y as int, c as int) < n);
        let i: usize = 4 * ((y as usize) * (self.width as usize) + (x as usize)) + c;
        self.data.set(i, v);
        proof {
            assert forall|x2: int, y2: int, c2: int|
                old(self).in_bounds(x2, y2) && 0 <= c2 < 4 && !(x2 == x && y2 == y && c2 == c)
                    implies self.chan_at(x2, y2, c2) == old(self).chan_at(x2, y2, c2) by {
                lemma_pix_idx_bounds(
                    self.width as int,
                    self.height as int,
                    x2,
                    y2,
                    c2,
                );
                if pix_idx(self.width as int, x2, y2, c2) == pix_idx(
                    self.width as int,
                    x as int,
                    y as int,
                    c as int,
                ) {
                    lemma_pix_idx_injective(
                        self.width as int,
                        x2,
                        y2,
                        c2,
                        x as int,
                        y as int,
                        c as int,
                    );
                }
            }
        }
    }
}

} // verus!
