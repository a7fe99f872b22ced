//! The channel shifter: re-reads one channel of every pixel from a displaced
//! source location, and the three-stage composition that yields the full
//! chromatic-aberration effect.

use vstd::prelude::*;

use crate::buffer::PixelBuffer;

verus! {

/// What the target channel of the pixel at `(x, y)` holds after shifting
/// channel `c` of `img` by `(dx, dy)`: the value read at the displaced source
/// `(x - dx, y - dy)` when that lies inside the buffer, and the pixel's own
/// value otherwise.
pub open spec fn shifted_value(img: PixelBuffer, dx: int, dy: int, c: int, x: int, y: int) -> u8 {
    if img.in_bounds(x - dx, y - dy) {
        img.chan_at(x - dx, y - dy, c)
    } else {
        img.chan_at(x, y, c)
    }
}

/// Shifting by (0, 0) reads every pixel from itself, so every channel of
/// every pixel keeps its value.
pub proof fn lemma_shift_zero_is_identity(img: PixelBuffer, c: int)
    ensures
        forall|x: int, y: int|
            img.in_bounds(x, y) ==> shifted_value(img, 0, 0, c, x, y) == img.chan_at(x, y, c),
{
}

/// Where the displaced source `(x - dx, y - dy)` falls outside the buffer,
/// the pixel keeps its own channel value.
pub proof fn lemma_shift_out_of_bounds_source(
    img: PixelBuffer,
    dx: int,
    dy: int,
    c: int,
    x: int,
    y: int,
)
    requires
        !img.in_bounds(x - dx, y - dy),
    ensures
        shifted_value(img, dx, dy, c, x, y) == img.chan_at(x, y, c),
{
}

/// Where the displaced source `(x - dx, y - dy)` lies inside the buffer, the
/// pixel takes the source's channel value.
pub proof fn lemma_shift_in_bounds_source(
    img: PixelBuffer,
    dx: int,
    dy: int,
    c: int,
    x: int,
    y: int,
)
    requires
        img.in_bounds(x - dx, y - dy),
    ensures
        shifted_value(img, dx, dy, c, x, y) == img.chan_at(x - dx, y - dy, c),
{
}

/// An exact copy of `img` in a fresh buffer.
fn copy_buffer(img: &PixelBuffer) -> (r: PixelBuffer)
    requires
        img.wf(),
    ensures
        r.wf(),
        r.width == img.width,
        r.height == img.height,
        r.data@ == img.data@,
{
    let n: usize = img.data.len();
    let mut data: Vec<u8> = Vec::new();
    let mut i: usize = 0;
    while i < n
        invariant
            i <= n,
            n == img.data@.len(),
            data@.len() == i,
            forall|j: int| 0 <= j < i ==> data@[j] == img.data@[j],
        decreases n - i,
    {
        let b: u8 = img.data[i];
        data.push(b);
        i = i + 1;
    }
    proof {
        assert(data@ =~= img.data@);
    }
    PixelBuffer { width: img.width, height: img.height, data }
}

/// Shift channel `channel_index` of `img` by `(dx, dy)`: the result is a copy
/// of `img` in which that one channel of each pixel is re-read from the
/// displaced source `(x - dx, y - dy)` wherever that source is in bounds.
pub fn shift_channel(img: &PixelBuffer, dx: i32, dy: i32, channel_index: usize) -> (result:
    PixelBuffer)
    requires
        img.wf(),
        channel_index < 4,
    ensures
        result.wf(),
        result.width == img.width,
        result.height == img.height,
        forall|x: int, y: int, k: int|
            img.in_bounds(x, y) && 0 <= k < 4 && k != channel_index
                ==> result.chan_at(x, y, k) == img.chan_at(x, y, k),
        forall|x: int, y: int|
            img.in_bounds(x, y)
                ==> result.chan_at(x, y, channel_index as int) == shifted_value(
                *img,
                dx as int,
                dy as int,
                channel_index as int,
                x,
                y,
            ),
{
    let width: u32 = img.width;
    let height: u32 = img.height;
    let mut result = copy_buffer(img);

    let mut y: u32 = 0;
    while y < height
        invariant
            y <= height,
            width == img.width,
            height == img.height,
            img.wf(),
            channel_index < 4,
            result.wf(),
            result.width == width,
            result.height == height,
            forall|x2: int, y2: int, k: int|
                img.in_bounds(x2, y2) && 0 <= k < 4 && k != channel_index
                    ==> result.chan_at(x2, y2, k) == img.chan_at(x2, y2, k),
            forall|x2: int, y2: int|
                img.in_bounds(x2, y2) && y2 < y
                    ==> result.chan_at(x2, y2, channel_index as int) == shifted_value(
                    *img,
                    dx as int,
                    dy as int,
                    channel_index as int,
                    x2,
                    y2,
                ),
            forall|x2: int, y2: int|
                img.in_bounds(x2, y2) && y2 >= y
                    ==> result.chan_at(x2, y2, channel_index as int) == img.chan_at(
                    x2,
                    y2,
                    channel_index as int,
                ),
        decreases height - y,
    {
        let mut x: u32 = 0;
        while x < width
            invariant
                x <= width,
                y < height,
                width == img.width,
                height == img.height,
                img.wf(),
                channel_index < 4,
                result.wf(),
                result.width == width,
                result.height == height,
                forall|x2: int, y2: int, k: int|
                    img.in_bounds(x2, y2) && 0 <= k < 4 && k != channel_index
                        ==> result.chan_at(x2, y2, k) == img.chan_at(x2, y2, k),
                forall|x2: int, y2: int|
                    img.in_bounds(x2, y2) && (y2 < y || (y2 == y && x2 < x))
                        ==> result.chan_at(x2, y2, channel_index as int) == shifted_value(
                        *img,
                        dx as int,
                        dy as int,
                        channel_index as int,
                        x2,
                        y2,
                    ),
                forall|x2: int, y2: int|
                    img.in_bounds(x2, y2) && (y2 > y || (y2 == y && x2 >= x))
                        ==> result.chan_at(x2, y2, channel_index as int) == img.chan_at(
                        x2,
                        y2,
                        channel_index as int,
                    ),
            decreases width - x,
        {
            let sx: i64 = x as i64 - dx as i64;
            let sy: i64 = y as i64 - dy as i64;
            if sx >= 0 && sy >= 0 && sx < width as i64 && sy < height as i64 {
                let v: u8 = img.get_channel(sx as u32, sy as u32, channel_index);
                result.set_channel(x, y, channel_index, v);
            }
            x = x + 1;
        }
        y = y + 1;
    }
    result
}

/// The full three-stage effect: shift red right by `offset`, then green down
/// by `offset` on the first stage's output, then blue left by `offset` on the
/// second's. Each stage only touches its own channel, so each channel of the
/// result reads as one shift of the input image, and alpha is untouched.
pub fn apply_channel_shift(img: &PixelBuffer, offset: i32) -> (result: PixelBuffer)
    requires
        img.wf(),
        offset > i32::MIN,
    ensures
        result.wf(),
        result.width == img.width,
        result.height == img.height,
        forall|x: int, y: int|
            img.in_bounds(x, y) ==> {
                &&& result.chan_at(x, y, 0) == shifted_value(*img, offset as int, 0, 0, x, y)
                &&& result.chan_at(x, y, 1) == shifted_value(*img, 0, offset as int, 1, x, y)
                &&& result.chan_at(x, y, 2) == shifted_value(*img, -(offset as int), 0, 2, x, y)
                &&& result.chan_at(x, y, 3) == img.chan_at(x, y, 3)
            },
{
    let r_shifted = shift_channel(img, offset, 0, 0);
    let g_shifted = shift_channel(&r_shifted, 0, offset, 1);
    let b_shifted = shift_channel(&g_shifted, -offset, 0, 2);
    proof {
        let off = offset as int;
        assert forall|x: int, y: int| img.in_bounds(x, y) implies {
            &&& b_shifted.chan_at(x, y, 0) == shifted_value(*img, off, 0, 0, x, y)
            &&& b_shifted.chan_at(x, y, 1) == shifted_value(*img, 0, off, 1, x, y)
            &&& b_shifted.chan_at(x, y, 2) == shifted_value(*img, -off, 0, 2, x, y)
            &&& b_shifted.chan_at(x, y, 3) == img.chan_at(x, y, 3)
        } by {
            assert(r_shifted.in_bounds(x, y));
            assert(g_shifted.in_bounds(x, y));

            assert(b_shifted.chan_at(x, y, 0) == g_shifted.chan_at(x, y, 0));
            assert(g_shifted.chan_at(x, y, 0) == r_shifted.chan_at(x, y, 0));
            assert(r_shifted.chan_at(x, y, 0) == shifted_value(*img, off, 0, 0, x, y));

            assert(b_shifted.chan_at(x, y, 1) == g_shifted.chan_at(x, y, 1));
            assert(g_shifted.chan_at(x, y, 1) == shifted_value(r_shifted, 0, off, 1, x, y));
            if img.in_bounds(x, y - off) {
                assert(r_shifted.chan_at(x, y - off, 1) == img.chan_at(x, y - off, 1));
            } else {
                assert(r_shifted.chan_at(x, y, 1) == img.chan_at(x, y, 1));
            }
            assert(shifted_value(r_shifted, 0, off, 1, x, y) == shifted_value(
                *img,
                0,
                off,
                1,
                x,
                y,
            ));

            assert(b_shifted.chan_at(x, y, 2) == shifted_value(g_shifted, -off, 0, 2, x, y));
            if img.in_bounds(x + off, y) {
                assert(g_shifted.chan_at(x + off, y, 2) == r_shifted.chan_at(x + off, y, 2));
                assert(r_shifted.chan_at(x + off, y, 2) == img.chan_at(x + off, y, 2));
            } else {
                assert(g_shifted.chan_at(x, y, 2) == r_shifted.chan_at(x, y, 2));
                assert(r_shifted.chan_at(x, y, 2) == img.chan_at(x, y, 2));
            }
            assert(shifted_value(g_shifted, -off, 0, 2, x, y) == shifted_value(
                *img,
                -off,
                0,
                2,
                x,
                y,
            ));

            assert(b_shifted.chan_at(x, y, 3) == g_shifted.chan_at(x, y, 3));
            assert(g_shifted.chan_at(x, y, 3) == r_shifted.chan_at(x, y, 3));
            assert(r_shifted.chan_at(x, y, 3) == img.chan_at(x, y, 3));
        }
    }
    b_shifted
}

/// Row-major pixel order: a lexicographically earlier pixel has a strictly
/// smaller flat position.
proof fn lemma_row_major_lt(w: int, x1: int, y1: int, x2: int, y2: int)
    requires
        0 <= x1 < w,
        0 <= x2 < w,
        0 <= y1,
        0 <= y2,
        y1 < y2 || (y1 == y2 && x1 < x2),
    ensures
        y1 * w + x1 < y2 * w + x2,
{
    assert(y1 * w + x1 < y2 * w + x2) by (nonlinear_arith)
        requires
            0 <= x1 < w,
            0 <= x2 < w,
            0 <= y1,
            0 <= y2,
            y1 < y2 || (y1 == y2 && x1 < x2),
    ;
}

/// Drop the alpha channel: emit the red, green and blue bytes of every pixel,
/// row-major, three bytes per pixel.
pub fn strip_alpha(img: &PixelBuffer) -> (rgb: Vec<u8>)
    requires
        img.wf(),
    ensures
        rgb@.len() == 3 * (img.width as int) * (img.height as int),
        forall|x: int, y: int, k: int|
            img.in_bounds(x, y) && 0 <= k < 3
                ==> rgb@[3 * (y * (img.width as int) + x) + k] == img.chan_at(x, y, k),
{
    let width: u32 = img.width;
    let height: u32 = img.height;
    let ghost w = width as int;
    let mut rgb: Vec<u8> = Vec::new();

    let mut y: u32 = 0;
    while y < height
        invariant
            y <= height,
            width == img.width,
            height == img.height,
            img.wf(),
            rgb@.len() == 3 * ((y as int) * w),
            w == width as int,
            forall|x2: int, y2: int, k: int|
                img.in_bounds(x2, y2) && 0 <= k < 3 && y2 < y
                    ==> rgb@[3 * (y2 * w + x2) + k] == img.chan_at(x2, y2, k),
        decreases height - y,
    {
        let mut x: u32 = 0;
        while x < width
            invariant
                x <= width,
                y < height,
                width == img.width,
                height == img.height,
                img.wf(),
                w == width as int,
                rgb@.len() == 3 * ((y as int) * w + x as int),
                forall|x2: int, y2: int, k: int|
                    img.in_bounds(x2, y2) && 0 <= k < 3 && (y2 < y || (y2 == y && x2 < x))
                        ==> rgb@[3 * (y2 * w + x2) + k] == img.chan_at(x2, y2, k),
            decreases width - x,
        {
            let r: u8 = img.get_channel(x, y, 0);
            let g: u8 = img.get_channel(x, y, 1);
            let b: u8 = img.get_channel(x, y, 2);
            let ghost len0 = rgb@.len() as int;
            rgb.push(r);
            rgb.push(g);
            rgb.push(b);
            proof {
                assert forall|x2: int, y2: int, k: int|
                    img.in_bounds(x2, y2) && 0 <= k < 3 && (y2 < y || (y2 == y && x2 <= x))
                        implies rgb@[3 * (y2 * w + x2) + k] == img.chan_at(x2, y2, k) by {
                    if y2 < y || (y2 == y && x2 < x as int) {
                        lemma_row_major_lt(w, x2, y2, x as int, y as int);
                        assert(3 * (y2 * w + x2) + k < len0);
                    } else {
                        assert(x2 == x as int && y2 == y as int);
                        assert(3 * (y2 * w + x2) + k == len0 + k);
                    }
                }
            }
            x = x + 1;
        }
        proof {
            assert(3 * ((y as int) * w + w) == 3 * (((y as int) + 1) * w)) by (nonlinear_arith);
        }
        y = y + 1;
    }
    proof {
        assert(3 * ((height as int) * w) == 3 * w * (height as int)) by (nonlinear_arith);
    }
    rgb
}

} // verus!
