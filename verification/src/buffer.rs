//! A dense, row-major pixel buffer with 8-bit samples.

use vstd::prelude::*;

verus! {

/// A contiguous pixel buffer: `channels` samples (3 for RGB, 4 for RGBA) per
/// pixel, rows stored top to bottom, pixels left to right within a row.
pub struct PixelBuffer {
    pub data: Vec<u8>,
    pub width: u32,
    pub height: u32,
    pub channels: u32,
}

impl PixelBuffer {
    /// The buffer invariant: 3 or 4 channels, and exactly one sample byte for
    /// every (pixel, channel) pair.
    pub open spec fn wf(self) -> bool {
        &&& (self.channels == 3 || self.channels == 4)
        &&& self.data@.len() == self.width * self.height * self.channels
    }

    /// The sample of channel `c` of the pixel at column `x`, row `y`.
    pub open spec fn spec_sample(self, x: int, y: int, c: int) -> u8 {
        self.data@[(y * self.width + x) * self.channels + c]
    }

    /// Builds a buffer from raw samples, validating the length invariant.
    pub fn new(data: Vec<u8>, width: u32, height: u32, channels: u32) -> (r: Option<PixelBuffer>)
        ensures
            r is Some <==> ((channels == 3 || channels == 4)
                && data@.len() == width * height * channels),
            r matches Some(b) ==> b.wf() && b.width == width && b.height == height
                && b.channels == channels && b.data@ == data@,
    {
        if channels != 3 && channels != 4 {
            return None;
        }
        proof {
            assert((width as int) * (height as int) <= u128::MAX
                && (width as int) * (height as int) * (channels as int) <= u128::MAX)
                by (nonlinear_arith)
                requires
                    width <= u32::MAX,
                    height <= u32::MAX,
                    channels <= 4,
            ;
        }
        let expected: u128 = (width as u128) * (height as u128) * (channels as u128);
        if (data.len() as u128) == expected {
            Some(PixelBuffer { data, width, height, channels })
        } else {
            None
        }
    }

    /// Reads one sample.
    pub fn sample(&self, x: u32, y: u32, c: u32) -> (s: u8)
        requires
            self.wf(),
            x < self.width,
            y < self.height,
            c < self.channels,
        ensures
            s == self.spec_sample(x as int, y as int, c as int),
    {
        // Binding the length brings `len <= usize::MAX` into scope, which
        // together with the invariant keeps the index arithmetic in bounds.
        let _len: usize = self.data.len();
        proof {
            lemma_flat_index_bound(
                y as int, x as int, c as int,
                self.width as int, self.height as int, self.channels as int,
            );
        }
        let i: usize = ((y as usize) * (self.width as usize) + (x as usize))
            * (self.channels as usize) + (c as usize);
        self.data[i]
    }
}

/// Row-major flattening stays inside the buffer: the flat index of any
/// in-bounds (row, column, channel) triple is below the total sample count.
pub proof fn lemma_flat_index_bound(row: int, col: int, chan: int, w: int, h: int, cc: int)
    by (nonlinear_arith)
    requires
        0 <= row < h,
        0 <= col < w,
        0 <= chan < cc,
    ensures
        0 <= row * w + col < w * h,
        0 <= (row * w + col) * cc + chan < w * h * cc,
        w * h <= w * h * cc,
{
}

} // verus!
