//! Pixel buffers and window surfaces.
use vstd::prelude::*;

verus! {

/// The id of a window.
#[derive(Debug, Clone, Copy, PartialEq, Eq, Structural, Hash)]
pub struct WindowId(pub u64);

/// The layers a window can be drawn in, from back to front.
#[derive(Debug, Clone, Copy, PartialEq, Eq, Structural)]
pub enum RenderLayer {
    Background,
    Desktop,
    Windows,
    Panels,
    Overlay,
    Cursor,
}

/// Pixels as ARGB8888, row by row; a row takes `stride` entries, of which
/// the first `width` are pixels.
#[derive(Debug, Clone)]
pub struct PixelBuffer {
    pub data: Vec<u32>,
    pub width: u32,
    pub height: u32,
    pub stride: u32,
}

/// The entry of the pixel at (`x`, `y`).
pub open spec fn pixel_index(stride: u32, x: int, y: int) -> int {
    y * stride + x
}

/// (`x`, `y`) lies in the rectangle at (`rx`, `ry`) of size `w` by `h`.
pub open spec fn in_rect(x: int, y: int, rx: int, ry: int, w: int, h: int) -> bool {
    rx <= x < rx + w && ry <= y < ry + h
}

proof fn lemma_index_in_bounds(stride: u32, width: u32, height: u32, x: int, y: int)
    requires
        width <= stride,
        0 <= x < width,
        0 <= y < height,
    ensures
        0 <= pixel_index(stride, x, y) < stride * height,
{
    assert(y * stride + x < stride * height) by (nonlinear_arith)
        requires
            0 <= x < width,
            width <= stride,
            0 <= y < height,
    ;
    assert(0 <= y * stride) by (nonlinear_arith)
        requires
            0 <= y,
    ;
}

proof fn lemma_index_distinct(stride: u32, width: u32, x1: int, y1: int, x2: int, y2: int)
    requires
        width <= stride,
        0 <= x1 < width,
        0 <= x2 < width,
        0 <= y1,
        0 <= y2,
        x1 != x2 || y1 != y2,
    ensures
        pixel_index(stride, x1, y1) != pixel_index(stride, x2, y2),
{
    if y1 == y2 {
    } else if y1 < y2 {
        assert(y1 * stride + x1 < y2 * stride + x2) by (nonlinear_arith)
            requires
                y1 < y2,
                0 <= x1 < stride,
                0 <= x2,
        ;
    } else {
        assert(y2 * stride + x2 < y1 * stride + x1) by (nonlinear_arith)
            requires
                y2 < y1,
                0 <= x2 < stride,
                0 <= x1,
        ;
    }
}

impl PixelBuffer {
    /// Each row fits in a stride, and the data holds exactly `stride`
    /// entries for each row, a count that fits in `u32`.
    pub open spec fn wf(&self) -> bool {
        &&& self.width <= self.stride
        &&& self.stride * self.height <= u32::MAX
        &&& self.data@.len() == self.stride * self.height
    }

    /// The pixel at (`x`, `y`).
    pub open spec fn pixel(&self, x: int, y: int) -> u32 {
        self.data@[pixel_index(self.stride, x, y)]
    }

    /// A black, fully transparent buffer whose stride is its width; its
    /// pixel count must fit in `u32`.
    pub fn new(width: u32, height: u32) -> (r: PixelBuffer)
        requires
            width * height <= u32::MAX,
        ensures
            r.wf(),
            r.width == width,
            r.height == height,
            r.stride == width,
            r.data@.len() == width * height,
            forall|i: int| 0 <= i < r.data@.len() ==> r.data@[i] == 0,
    {
        let n = (width * height) as usize;
        let mut data: Vec<u32> = Vec::new();
        let mut i: usize = 0;
        while i < n
            invariant
                i <= n,
                data@.len() == i,
                forall|k: int| 0 <= k < i ==> data@[k] == 0,
            decreases n - i,
        {
            data.push(0);
            i += 1;
        }
        PixelBuffer { data, width, height, stride: width }
    }

    /// Sets a pixel; one outside the buffer is ignored.
    pub fn set_pixel(&mut self, x: u32, y: u32, color: u32)
        requires
            old(self).wf(),
        ensures
            final(self).wf(),
            final(self).width == old(self).width,
            final(self).height == old(self).height,
            final(self).stride == old(self).stride,
            x < old(self).width && y < old(self).height ==> final(self).data@ == old(self).data@.update(
                pixel_index(old(self).stride, x as int, y as int),
                color,
            ),
            !(x < old(self).width && y < old(self).height) ==> final(self).data@ == old(self).data@,
    {
        if x < self.width && y < self.height {
            proof {
                lemma_index_in_bounds(self.stride, self.width, self.height, x as int, y as int);
            }
            let index = (y * self.stride + x) as usize;
            self.data.set(index, color);
        }
    }

    /// The pixel at (`x`, `y`), or 0 outside the buffer.
    pub fn get_pixel(&self, x: u32, y: u32) -> (r: u32)
        requires
            self.wf(),
        ensures
            r == if x < self.width && y < self.height {
                self.pixel(x as int, y as int)
            } else {
                0
            },
    {
        if x < self.width && y < self.height {
            proof {
                lemma_index_in_bounds(self.stride, self.width, self.height, x as int, y as int);
            }
            let index = (y * self.stride + x) as usize;
            self.data[index]
        } else {
            0
        }
    }

    /// Sets every entry to `color`.
    pub fn clear(&mut self, color: u32)
        ensures
            final(self).width == old(self).width,
            final(self).height == old(self).height,
            final(self).stride == old(self).stride,
            final(self).data@.len() == old(self).data@.len(),
            forall|i: int| 0 <= i < final(self).data@.len() ==> final(self).data@[i] == color,
    {
        let mut i: usize = 0;
        while i < self.data.len()
            invariant
                i <= self.data@.len(),
                self.data@.len() == old(self).data@.len(),
                self.width == old(self).width,
                self.height == old(self).height,
                self.stride == old(self).stride,
                forall|k: int| 0 <= k < i ==> self.data@[k] == color,
            decreases self.data@.len() - i,
        {
            self.data.set(i, color);
            i += 1;
        }
    }

    /// Paints the pixels of the rectangle at (`x`, `y`) of size `w` by `h`
    /// that lie in the buffer; the rectangle's coordinates must fit in `u32`.
    pub fn fill_rect(&mut self, x: u32, y: u32, w: u32, h: u32, color: u32)
        requires
            old(self).wf(),
            w > 0 && h > 0 ==> x + w - 1 <= u32::MAX && y + h - 1 <= u32::MAX,
        ensures
            final(self).wf(),
            final(self).width == old(self).width,
            final(self).height == old(self).height,
            final(self).stride == old(self).stride,
            forall|px: int, py: int|
                0 <= px < old(self).width && 0 <= py < old(self).height ==> #[trigger] final(self).pixel(px, py) == if in_rect(
                    px,
                    py,
                    x as int,
                    y as int,
                    w as int,
                    h as int,
                ) {
                    color
                } else {
                    old(self).pixel(px, py)
                },
            forall|i: int|
                0 <= i < old(self).data@.len() && !(exists|px: int, py: int|
                    0 <= px < old(self).width && 0 <= py < old(self).height && #[trigger] pixel_index(
                        old(self).stride,
                        px,
                        py,
                    ) == i) ==> final(self).data@[i] == old(self).data@[i],
    {
        let ghost old_buf = *self;
        let mut dy: u32 = 0;
        while dy < h
            invariant
                dy <= h,
                self.wf(),
                self.width == old_buf.width,
                self.height == old_buf.height,
                self.stride == old_buf.stride,
                old_buf.wf(),
                self.data@.len() == old_buf.data@.len(),
                w > 0 && h > 0 ==> x + w - 1 <= u32::MAX && y + h - 1 <= u32::MAX,
                forall|i: int|
                    0 <= i < self.data@.len() && self.data@[i] != old_buf.data@[i] ==> exists|px: int, py: int|
                        0 <= px < self.width && 0 <= py < self.height && #[trigger] pixel_index(self.stride, px, py) == i,
                forall|px: int, py: int|
                    0 <= px < self.width && 0 <= py < self.height ==> #[trigger] self.pixel(px, py) == if in_rect(
                        px,
                        py,
                        x as int,
                        y as int,
                        w as int,
                        dy as int,
                    ) {
                        color
                    } else {
                        old_buf.pixel(px, py)
                    },
            decreases h - dy,
        {
            let mut dx: u32 = 0;
            while dx < w
                invariant
                    dx <= w,
                    dy < h,
                    self.wf(),
                    self.width == old_buf.width,
                    self.height == old_buf.height,
                    self.stride == old_buf.stride,
                    old_buf.wf(),
                    self.data@.len() == old_buf.data@.len(),
                    w > 0 && h > 0 ==> x + w - 1 <= u32::MAX && y + h - 1 <= u32::MAX,
                    forall|i: int|
                        0 <= i < self.data@.len() && self.data@[i] != old_buf.data@[i] ==> exists|px: int, py: int|
                            0 <= px < self.width && 0 <= py < self.height && #[trigger] pixel_index(self.stride, px, py)
                                == i,
                    forall|px: int, py: int|
                        0 <= px < self.width && 0 <= py < self.height ==> #[trigger] self.pixel(px, py) == if in_rect(
                            px,
                            py,
                            x as int,
                            y as int,
                            w as int,
                            dy as int,
                        ) || (py == y + dy && x <= px < x + dx) {
                            color
                        } else {
                            old_buf.pixel(px, py)
                        },
                decreases w - dx,
            {
                let px = x + dx;
                let py = y + dy;
                if px < self.width && py < self.height {
                    let ghost pre = *self;
                    let ghost before = self.data@;
                    proof {
                        lemma_index_in_bounds(self.stride, self.width, self.height, px as int, py as int);
                    }
                    let index = (py * self.stride + px) as usize;
                    self.data.set(index, color);
                    proof {
                        assert forall|qx: int, qy: int|
                            0 <= qx < self.width && 0 <= qy < self.height && (qx != px || qy != py) implies #[trigger] self.pixel(
                            qx,
                            qy,
                        ) == pre.pixel(qx, qy) by {
                            lemma_index_distinct(self.stride, self.width, qx, qy, px as int, py as int);
                            lemma_index_in_bounds(self.stride, self.width, self.height, qx, qy);
                        }
                        assert forall|i: int|
                            0 <= i < self.data@.len() && self.data@[i] != old_buf.data@[i] implies exists|qx: int, qy: int|
                            0 <= qx < self.width && 0 <= qy < self.height && #[trigger] pixel_index(self.stride, qx, qy)
                                == i by {
                            if i == index {
                                assert(pixel_index(self.stride, px as int, py as int) == i);
                            } else {
                                assert(self.data@[i] == before[i]);
                                assert(before[i] != old_buf.data@[i]);
                                let (qx, qy) = choose|qx: int, qy: int|
                                    0 <= qx < pre.width && 0 <= qy < pre.height && #[trigger] pixel_index(pre.stride, qx, qy)
                                        == i;
                                assert(pixel_index(self.stride, qx, qy) == i);
                            }
                        }
                    }
                }
                dx += 1;
            }
            dy += 1;
        }
    }

    pub fn size(&self) -> (r: (u32, u32))
        ensures
            r == (self.width, self.height),
    {
        (self.width, self.height)
    }

    pub fn is_empty(&self) -> (r: bool)
        ensures
            r == (self.width == 0 || self.height == 0),
    {
        self.width == 0 || self.height == 0
    }
}

/// A pixel set inside the buffer reads back as set, and every other pixel
/// keeps its color.
pub proof fn law_set_then_get(buf: PixelBuffer, data: Seq<u32>, x: u32, y: u32, color: u32)
    requires
        buf.wf(),
        x < buf.width,
        y < buf.height,
        data == buf.data@.update(pixel_index(buf.stride, x as int, y as int), color),
    ensures
        data[pixel_index(buf.stride, x as int, y as int)] == color,
        forall|qx: int, qy: int|
            0 <= qx < buf.width && 0 <= qy < buf.height && (qx != x || qy != y) ==> data[#[trigger] pixel_index(
                buf.stride,
                qx,
                qy,
            )] == buf.pixel(qx, qy),
{
    lemma_index_in_bounds(buf.stride, buf.width, buf.height, x as int, y as int);
    assert forall|qx: int, qy: int|
        0 <= qx < buf.width && 0 <= qy < buf.height && (qx != x || qy != y) implies data[#[trigger] pixel_index(
        buf.stride,
        qx,
        qy,
    )] == buf.pixel(qx, qy) by {
        lemma_index_distinct(buf.stride, buf.width, qx, qy, x as int, y as int);
        lemma_index_in_bounds(buf.stride, buf.width, buf.height, qx, qy);
    }
}

/// A window's drawing surface.
#[derive(Debug, Clone)]
pub struct WindowSurface {
    pub buffer: PixelBuffer,
    pub dirty: bool,
    pub format: u32,
}

/// A token for one frame.
#[derive(Debug, Clone)]
pub struct FrameToken(pub u64);

} // verus!
