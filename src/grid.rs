//! A grid of RGBA pixels stored as row-major bytes, four per pixel.

use crate::layout::{pixel_offset, stream_pos};
use vstd::prelude::*;

verus! {

/// A `width` x `height` grid of pixels with four 8-bit channels each.
/// Pixel `(x, y)` occupies `data[(y * width + x) * 4 ..][..4]`.
pub struct PixelGrid {
    pub width: u32,
    pub height: u32,
    pub data: Vec<u8>,
}

impl PixelGrid {
    /// The byte buffer holds exactly the grid's pixels.
    pub open spec fn wf(&self) -> bool {
        self.data@.len() == self.width as int * self.height as int * 4
    }

    /// Channel `c` of pixel `(x, y)`.
    pub open spec fn channel(&self, x: int, y: int, c: int) -> u8 {
        self.data@[pixel_offset(self.width as int, x, y) + c]
    }

    /// The four channels of pixel `(x, y)`.
    pub open spec fn pixel(&self, x: int, y: int) -> Seq<u8> {
        Seq::new(4, |c: int| self.channel(x, y, c))
    }

    /// Both header pixels `(0, 0)` and `(0, 1)` exist.
    pub open spec fn has_header(&self) -> bool {
        self.width >= 1 && self.height >= 2
    }

    /// The eight header bytes: pixel `(0, 0)` then pixel `(0, 1)`.
    pub open spec fn header(&self) -> Seq<u8> {
        self.pixel(0, 0) + self.pixel(0, 1)
    }

    /// The number of pixels after the header.
    pub open spec fn slot_count(&self) -> int {
        self.width as int * self.height as int - 2
    }

    /// The channels of all pixels after the header, concatenated in visiting order.
    pub open spec fn stream(&self) -> Seq<u8> {
        Seq::new(
            (self.slot_count() * 4) as nat,
            |j: int| self.data@[stream_pos(self.width as int, self.height as int, j)],
        )
    }

    /// An all-zero grid.
    pub fn new(width: u32, height: u32) -> (g: PixelGrid)
        requires
            width as int * height as int * 4 <= usize::MAX,
        ensures
            g.wf(),
            g.width == width,
            g.height == height,
            forall|i: int| 0 <= i < g.data@.len() ==> g.data@[i] == 0,
    {
        let len: usize = width as usize * height as usize * 4;
        let data: Vec<u8> = vec![0u8; len];
        PixelGrid { width, height, data }
    }

    /// A grid over the given bytes; `None` unless they hold exactly its pixels.
    pub fn from_raw(width: u32, height: u32, data: Vec<u8>) -> (r: Option<PixelGrid>)
        ensures
            r is Some <==> data@.len() == width as int * height as int * 4,
            r matches Some(g) ==> g.wf() && g.width == width && g.height == height && g.data
                == data,
    {
        assert(width as int * height as int <= 0xffff_ffff * 0xffff_ffff) by (nonlinear_arith)
            requires
                width <= 0xffff_ffff,
                height <= 0xffff_ffff,
        ;
        let n: u128 = width as u128 * height as u128 * 4;
        if data.len() as u128 == n {
            Some(PixelGrid { width, height, data })
        } else {
            None
        }
    }

    /// The pixel bytes, row by row.
    pub fn into_raw(self) -> (r: Vec<u8>)
        ensures
            r == self.data,
    {
        self.data
    }

    /// The channels of pixel `(x, y)`.
    pub fn get_pixel(&self, x: u32, y: u32) -> (r: [u8; 4])
        requires
            self.wf(),
            x < self.width,
            y < self.height,
        ensures
            r@ == self.pixel(x as int, y as int),
    {
        let o: usize = self.offset(x, y);
        let r = [self.data[o], self.data[o + 1], self.data[o + 2], self.data[o + 3]];
        assert(r@ =~= self.pixel(x as int, y as int));
        r
    }

    /// Sets the channels of pixel `(x, y)`, leaving every other pixel as it was.
    pub fn put_pixel(&mut self, x: u32, y: u32, p: [u8; 4])
        requires
            old(self).wf(),
            x < old(self).width,
            y < old(self).height,
        ensures
            final(self).wf(),
            final(self).width == old(self).width,
            final(self).height == old(self).height,
            final(self).data@.len() == old(self).data@.len(),
            forall|i: int|
                0 <= i < old(self).data@.len() ==> #[trigger] final(self).data@[i] == if pixel_offset(
                    old(self).width as int,
                    x as int,
                    y as int,
                ) <= i < pixel_offset(old(self).width as int, x as int, y as int) + 4 {
                    p@[i - pixel_offset(old(self).width as int, x as int, y as int)]
                } else {
                    old(self).data@[i]
                },
    {
        let o: usize = self.offset(x, y);
        self.data.set(o, p[0]);
        self.data.set(o + 1, p[1]);
        self.data.set(o + 2, p[2]);
        self.data.set(o + 3, p[3]);
        assert(forall|i: int| 0 <= i < 4 ==> p@[i] == p[i]);
    }

    /// Index of channel 0 of pixel `(x, y)` in the byte buffer.
    pub(crate) fn offset(&self, x: u32, y: u32) -> (o: usize)
        requires
            self.wf(),
            x < self.width,
            y < self.height,
        ensures
            o == pixel_offset(self.width as int, x as int, y as int),
            o + 4 <= self.data@.len(),
    {
        let ghost w = self.width as int;
        let ghost h = self.height as int;
        assert((y * w + x) * 4 + 4 <= w * h * 4) by (nonlinear_arith)
            requires
                0 <= x < w,
                0 <= y < h,
        ;
        assert(y * w + x <= w * h && y * w <= w * h) by (nonlinear_arith)
            requires
                0 <= x < w,
                0 <= y < h,
        ;
        assert(self.data.len() <= usize::MAX);
        (y as usize * self.width as usize + x as usize) * 4
    }
}

} // verus!
