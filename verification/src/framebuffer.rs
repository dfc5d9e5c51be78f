//! The shared output buffer of the renderer.
//!
//! One framebuffer of `width * height` packed colors is allocated before the
//! render, zero-initialized, and then filled in place by the workers.  Its
//! view is the row-major sequence of packed colors; `set_pixel` is proved to
//! update exactly the addressed slot and leave every other pixel unchanged,
//! which is what lets disjoint chunks write concurrently without stepping on
//! each other's pixels.

use crate::chunk::pixel_index;
use vstd::prelude::*;

verus! {

/// Row-major buffer of packed `0xRRGGBB` colors.
pub struct Framebuffer {
    pub width: usize,
    pub height: usize,
    pub pixels: Vec<u32>,
}

impl View for Framebuffer {
    type V = Seq<u32>;

    closed spec fn view(&self) -> Seq<u32> {
        self.pixels@
    }
}

impl Framebuffer {
    /// The buffer holds exactly one slot per pixel of the image.
    pub open spec fn wf(&self) -> bool {
        self@.len() == self.width * self.height
    }

    /// Allocates a zeroed buffer for a `width x height` image, so that a
    /// reader that looks at a pixel before its chunk is rendered sees zero.
    pub fn new(width: usize, height: usize) -> (fb: Framebuffer)
        requires
            width * height <= usize::MAX,
        ensures
            fb.wf(),
            fb.width == width,
            fb.height == height,
            forall|i: int| 0 <= i < fb@.len() ==> fb@[i] == 0,
    {
        Framebuffer { width, height, pixels: vec![0u32; width * height] }
    }

    /// Writes the packed `color` into the pixel `(x, y)`, leaving every
    /// other pixel as it was.
    pub fn set_pixel(&mut self, x: usize, y: usize, color: u32)
        requires
            old(self).wf(),
            x < old(self).width,
            y < old(self).height,
        ensures
            final(self).wf(),
            final(self).width == old(self).width,
            final(self).height == old(self).height,
            final(self)@ == old(self)@.update(
                pixel_index(old(self).width as int, x as int, y as int),
                color,
            ),
    {
        // The buffer length, a usize, bounds the index arithmetic below.
        let buffer_len = self.pixels.len();
        proof {
            assert(y * self.width + x < self.width * self.height) by (nonlinear_arith)
                requires
                    x < self.width,
                    y < self.height,
            ;
        }
        let idx = y * self.width + x;
        self.pixels[idx] = color;
    }

    /// Reads the pixel `(x, y)`.
    pub fn get_pixel(&self, x: usize, y: usize) -> (color: u32)
        requires
            self.wf(),
            x < self.width,
            y < self.height,
        ensures
            color == self@[pixel_index(self.width as int, x as int, y as int)],
    {
        // The buffer length, a usize, bounds the index arithmetic below.
        let buffer_len = self.pixels.len();
        proof {
            assert(y * self.width + x < self.width * self.height) by (nonlinear_arith)
                requires
                    x < self.width,
                    y < self.height,
            ;
        }
        self.pixels[y * self.width + x]
    }

    /// The raw row-major pixels, for a display or an image encoder to read.
    pub fn as_pixels(&self) -> (pixels: &Vec<u32>)
        ensures
            pixels@ == self@,
    {
        &self.pixels
    }
}

} // verus!
