//! The screen buffer: a flat, row-major array of packed colors.
//!
//! Pixel `(x, y)` lives at index `y * width + x`. Out-of-bounds reads give
//! nothing and out-of-bounds writes are silent no-ops, never an error.

use vstd::prelude::*;

verus! {

/// Game screen buffer abstraction.
pub struct Screen {
    /// The screen width in pixels.
    pub width: usize,
    /// The screen height in pixels.
    pub height: usize,
    /// The pixel buffer, row-major, one packed color per pixel.
    pub buffer: Vec<u32>,
}

/// Positions in a row-major grid are in bounds and distinct per pixel.
proof fn lemma_pix_index(x: int, y: int, width: int, height: int)
    by (nonlinear_arith)
    requires
        0 <= x < width,
        0 <= y < height,
    ensures
        0 <= y * width + x < height * width,
{
}

/// Distinct pixels have distinct positions in a row-major grid.
proof fn lemma_pix_index_injective(x1: int, y1: int, x2: int, y2: int, width: int)
    by (nonlinear_arith)
    requires
        0 <= x1 < width,
        0 <= x2 < width,
        0 <= y1,
        0 <= y2,
        y1 * width + x1 == y2 * width + x2,
    ensures
        x1 == x2 && y1 == y2,
{
}

/// A pixel inside the screen names a position inside the buffer.
pub proof fn lemma_idx_in_range(s: Screen, x: int, y: int)
    requires
        s.wf(),
        s.in_bounds(x, y),
    ensures
        0 <= s.idx(x, y) < s.buffer@.len(),
{
    lemma_pix_index(x, y, s.width as int, s.height as int);
}

// Screen implementation
impl Screen {
    /// The buffer covers exactly the declared width and height.
    pub open spec fn wf(self) -> bool {
        self.buffer@.len() == self.height * self.width
    }

    /// The flat index of pixel `(x, y)`.
    pub open spec fn idx(self, x: int, y: int) -> int {
        y * self.width + x
    }

    /// Whether `(x, y)` names a pixel of the screen.
    pub open spec fn in_bounds(self, x: int, y: int) -> bool {
        0 <= x < self.width && 0 <= y < self.height
    }

    /// The packed color at pixel `(x, y)`.
    pub open spec fn at(self, x: int, y: int) -> u32 {
        self.buffer@[self.idx(x, y)]
    }

    /// Create a new screen buffer, filled with black.
    pub fn new(width: usize, height: usize) -> (r: Screen)
        requires
            width * height <= usize::MAX,
        ensures
            r.wf(),
            r.width == width,
            r.height == height,
            forall|k: int| 0 <= k < r.buffer@.len() ==> #[trigger] r.buffer@[k] == 0,
    {
        proof {
            assert(width * height == height * width) by (nonlinear_arith);
        }
        Screen { width, height, buffer: vec![0u32; width * height] }
    }

    /// Get the color of a pixel, or nothing if `(x, y)` lies outside the
    /// screen.
    pub fn get(&self, x: usize, y: usize) -> (r: Option<u32>)
        requires
            self.wf(),
        ensures
            self.in_bounds(x as int, y as int) ==> r == Some(self.at(x as int, y as int)),
            !self.in_bounds(x as int, y as int) ==> r is None,
    {
        if x < self.width && y < self.height {
            let len: usize = self.buffer.len();
            proof {
                lemma_pix_index(x as int, y as int, self.width as int, self.height as int);
            }
            Some(self.buffer[y * self.width + x])
        } else {
            None
        }
    }

    /// Set the color of a pixel. Writing outside the screen is a silent
    /// no-op; the result says whether the pixel existed.
    pub fn set(&mut self, x: usize, y: usize, color: u32) -> (r: bool)
        requires
            old(self).wf(),
        ensures
            final(self).wf(),
            final(self).width == old(self).width,
            final(self).height == old(self).height,
            r == old(self).in_bounds(x as int, y as int),
            r ==> final(self).buffer@ == old(self).buffer@.update(
                old(self).idx(x as int, y as int),
                color,
            ),
            !r ==> final(self).buffer@ == old(self).buffer@,
    {
        if x < self.width && y < self.height {
            let len: usize = self.buffer.len();
            proof {
                lemma_pix_index(x as int, y as int, self.width as int, self.height as int);
            }
            self.buffer.set(y * self.width + x, color);
            true
        } else {
            false
        }
    }

    /// Fill the whole screen with a single color.
    pub fn fill(&mut self, color: u32)
        requires
            old(self).wf(),
        ensures
            final(self).wf(),
            final(self).width == old(self).width,
            final(self).height == old(self).height,
            forall|k: int|
                0 <= k < final(self).buffer@.len() ==> #[trigger] final(self).buffer@[k] == color,
    {
        let n: usize = self.buffer.len();
        let mut i: usize = 0;
        while i < n
            invariant
                i <= n,
                self.wf(),
                self.width == old(self).width,
                self.height == old(self).height,
                n == self.buffer@.len(),
                forall|k: int| 0 <= k < i ==> #[trigger] self.buffer@[k] == color,
            decreases n - i,
        {
            self.buffer.set(i, color);
            i = i + 1;
        }
    }

    /// The raw pixel data, row-major.
    pub fn data(&self) -> (r: &Vec<u32>)
        ensures
            r@ == self.buffer@,
    {
        &self.buffer
    }
}

} // verus!
