//! The pixel buffer that a body is drawn into.

use vstd::prelude::*;

verus! {

/// A rectangle of packed colours, row after row: the pixel `(x, y)` stands at
/// `y * width + x`.
#[derive(Default)]
pub struct Frame {
    pub width: usize,
    pub height: usize,
    pub buffer: Vec<u32>,
}

/// A colour packed from its three channels: red above green above blue.
pub open spec fn packed(r: u32, g: u32, b: u32) -> u32 {
    (r << 16) | (g << 8) | b
}

/// Packs three channels into one colour.
pub fn rgb(r: u32, g: u32, b: u32) -> (c: u32)
    ensures
        c == packed(r, g, b),
{
    (r << 16) | (g << 8) | b
}

/// Channels of one byte each can be read back from the packed colour.
pub proof fn lemma_packed_channels(r: u32, g: u32, b: u32)
    requires
        r < 256,
        g < 256,
        b < 256,
    ensures
        (packed(r, g, b) >> 16) & 0xff == r,
        (packed(r, g, b) >> 8) & 0xff == g,
        packed(r, g, b) & 0xff == b,
{
    assert(r < 256 && g < 256 && b < 256 ==> (((r << 16) | (g << 8) | b) >> 16) & 0xff == r)
        by (bit_vector);
    assert(r < 256 && g < 256 && b < 256 ==> (((r << 16) | (g << 8) | b) >> 8) & 0xff == g)
        by (bit_vector);
    assert(r < 256 && g < 256 && b < 256 ==> ((r << 16) | (g << 8) | b) & 0xff == b)
        by (bit_vector);
}

impl Frame {
    /// The buffer holds one colour for each pixel of the rectangle.
    pub open spec fn wf(&self) -> bool {
        self.buffer@.len() == self.width * self.height
    }

    /// A frame of `width` by `height` pixels, all zero.
    pub fn new(width: usize, height: usize) -> (r: Self)
        requires
            width * height <= usize::MAX,
        ensures
            r.wf(),
            r.width == width,
            r.height == height,
            r.buffer@ == Seq::new((width * height) as nat, |i: int| 0u32),
    {
        let r = Self { width, height, buffer: vec![0u32; width * height] };
        assert(r.buffer@ =~= Seq::new((width * height) as nat, |i: int| 0u32));
        r
    }

    /// Sets every pixel to `color`.
    pub fn fill(&mut self, color: u32)
        ensures
            final(self).width == old(self).width,
            final(self).height == old(self).height,
            final(self).buffer@ == Seq::new(old(self).buffer@.len(), |i: int| color),
    {
        let n = self.buffer.len();
        let mut i: usize = 0;
        while i < n
            invariant
                i <= n,
                n == self.buffer@.len(),
                n == old(self).buffer@.len(),
                self.width == old(self).width,
                self.height == old(self).height,
                forall|k: int| 0 <= k < i ==> self.buffer@[k] == color,
            decreases n - i,
        {
            self.buffer[i] = color;
            i += 1;
        }
        assert(self.buffer@ =~= Seq::new(old(self).buffer@.len(), |i: int| color));
    }

    /// Sets the pixel `(x, y)` to `color`. A pixel outside the frame is passed
    /// over.
    pub fn plot(&mut self, x: usize, y: usize, color: u32)
        requires
            old(self).wf(),
        ensures
            final(self).wf(),
            final(self).width == old(self).width,
            final(self).height == old(self).height,
            x < old(self).width && y < old(self).height ==> final(self).buffer@ == old(
                self,
            ).buffer@.update(y * old(self).width + x, color),
            !(x < old(self).width && y < old(self).height) ==> final(self).buffer@ == old(
                self,
            ).buffer@,
    {
        if x < self.width && y < self.height {
            assert(0 <= y * self.width && y * self.width + x < self.width * self.height)
                by (nonlinear_arith)
                requires
                    x < self.width,
                    y < self.height,
            ;
            assert(self.width * self.height == self.buffer.len());
            let at = y * self.width + x;
            self.buffer[at] = color;
        }
    }
}

} // verus!
