//! The computable parts of the screen-capture path: validating the capture
//! region and turning the raw 32-bit BGRA readback into an RGB buffer.
//!
//! The platform calls themselves (querying the client rectangle, the blit,
//! the bitmap readback) are operating-system I/O and live outside this
//! library; they hand in plain values and take plain values back.

use vstd::prelude::*;
use crate::buffer::PixelBuffer;

verus! {

/// The client rectangle of the capture target, as the platform reports it.
pub struct CaptureRegion {
    pub left: i32,
    pub top: i32,
    pub right: i32,
    pub bottom: i32,
}

/// A failure along the capture path.
#[derive(Debug, PartialEq, Eq)]
pub enum CaptureError {
    /// The platform failed to report the client rectangle.
    RegionQuery,
    /// The client rectangle has zero or negative width or height.
    InvalidRegion,
    /// The block copy from the live screen failed.
    Blit,
    /// The readback returned fewer rows than expected.
    Readback,
}

/// Derives the capture dimensions from a client rectangle.
///
/// A region with zero or negative width or height is an invalid capture
/// target and is rejected rather than producing a degenerate buffer.
pub fn region_dimensions(region: &CaptureRegion) -> (r: Result<(u32, u32), CaptureError>)
    ensures
        r is Ok <==> (region.left < region.right && region.top < region.bottom),
        r matches Ok(d) ==> d.0 == region.right - region.left
            && d.1 == region.bottom - region.top,
        r is Err ==> r == Err::<(u32, u32), CaptureError>(CaptureError::InvalidRegion),
{
    let w: i64 = (region.right as i64) - (region.left as i64);
    let h: i64 = (region.bottom as i64) - (region.top as i64);
    if w <= 0 || h <= 0 {
        Err(CaptureError::InvalidRegion)
    } else {
        Ok((w as u32, h as u32))
    }
}

/// `out` holds, pixel for pixel, the red, green and blue samples of the raw
/// 32-bit readback `data`, whose samples are ordered blue, green, red,
/// reserved.
pub open spec fn is_bgra_conversion(out: PixelBuffer, data: Seq<u8>, width: int, height: int) -> bool {
    forall|x: int, y: int| 0 <= x < width && 0 <= y < height ==>
        #[trigger] out.spec_sample(x, y, 0) == data[(y * width + x) * 4 + 2]
        && out.spec_sample(x, y, 1) == data[(y * width + x) * 4 + 1]
        && out.spec_sample(x, y, 2) == data[(y * width + x) * 4 + 0]
}

/// Reinterprets a raw top-down 32-bit-per-pixel readback (samples ordered
/// blue, green, red, reserved) as an RGB `PixelBuffer`. The reserved byte is
/// dropped; the result has full opacity implicitly.
pub fn rgb_from_bgra(data: &Vec<u8>, width: u32, height: u32) -> (out: PixelBuffer)
    requires
        data@.len() == width * height * 4,
    ensures
        out.wf(),
        out.width == width,
        out.height == height,
        out.channels == 3,
        is_bgra_conversion(out, data@, width as int, height as int),
{
    let len: usize = data.len();
    proof {
        assert((width as int) * (height as int) * 4 == len
            ==> (width as int) * (height as int) <= len) by (nonlinear_arith);
    }
    let total: usize = (width as usize) * (height as usize);
    let mut samples: Vec<u8> = Vec::new();
    let mut j: usize = 0;
    while j < total
        invariant
            total == width * height,
            data@.len() == width * height * 4,
            len == data@.len(),
            len == 4 * total,
            j <= total,
            samples@.len() == 3 * j,
            forall|k: int| 0 <= k < j ==>
                #[trigger] samples@[3 * k + 0] == data@[4 * k + 2]
                && samples@[3 * k + 1] == data@[4 * k + 1]
                && samples@[3 * k + 2] == data@[4 * k + 0],
        decreases total - j,
    {
        let ghost pre = samples@;
        samples.push(data[4 * j + 2]);
        samples.push(data[4 * j + 1]);
        samples.push(data[4 * j]);
        proof {
            let jj = j as int;
            assert(samples@[3 * jj + 0] == data@[4 * jj + 2]);
            assert(samples@[3 * jj + 1] == data@[4 * jj + 1]);
            assert(samples@[3 * jj + 2] == data@[4 * jj + 0]);
            assert forall|k: int| 0 <= k < jj + 1 implies
                #[trigger] samples@[3 * k + 0] == data@[4 * k + 2]
                && samples@[3 * k + 1] == data@[4 * k + 1]
                && samples@[3 * k + 2] == data@[4 * k + 0]
            by {
                if k < jj {
                    assert(pre[3 * k + 0] == data@[4 * k + 2]);
                    assert(pre[3 * k + 1] == data@[4 * k + 1]);
                    assert(pre[3 * k + 2] == data@[4 * k + 0]);
                    assert(samples@[3 * k + 0] == pre[3 * k + 0]);
                    assert(samples@[3 * k + 1] == pre[3 * k + 1]);
                    assert(samples@[3 * k + 2] == pre[3 * k + 2]);
                }
            }
        }
        j = j + 1;
    }
    let ghost gs = samples@;
    let out = PixelBuffer { data: samples, width, height, channels: 3 };
    proof {
        assert forall|x: int, y: int| 0 <= x < width && 0 <= y < height implies
            #[trigger] out.spec_sample(x, y, 0) == data@[(y * width + x) * 4 + 2]
            && out.spec_sample(x, y, 1) == data@[(y * width + x) * 4 + 1]
            && out.spec_sample(x, y, 2) == data@[(y * width + x) * 4 + 0]
        by {
            crate::buffer::lemma_flat_index_bound(y, x, 0, width as int, height as int, 1);
            let k = y * width + x;
            assert(gs[3 * k + 0] == data@[4 * k + 2]);
            assert(gs[3 * k + 1] == data@[4 * k + 1]);
            assert(gs[3 * k + 2] == data@[4 * k + 0]);
        }
        assert(is_bgra_conversion(out, data@, width as int, height as int));
    }
    out
}

} // verus!
