//! RGBA pixel buffers: row-major, four bytes per pixel, no padding.
use vstd::prelude::*;
use crate::geometry::PixelRect;

verus! {

/// A row-major RGBA image.
#[derive(Clone, Debug)]
pub struct Frame {
    pub width: u32,
    pub height: u32,
    pub pixels: Vec<u8>,
}

/// Byte `b` of row `y` in a row-major buffer whose rows are `stride` bytes.
pub open spec fn row_byte(pixels: Seq<u8>, stride: int, y: int, b: int) -> u8 {
    pixels[y * stride + b]
}

impl Frame {
    /// Bytes in one row.
    pub open spec fn stride(&self) -> int {
        self.width * 4
    }

    /// The buffer holds exactly `height` rows of `width` pixels.
    pub open spec fn wf(&self) -> bool {
        self.pixels@.len() == self.height * self.stride()
    }

    /// Channel `c` of the pixel at column `x`, row `y`.
    pub open spec fn pixel_byte(&self, x: int, y: int, c: int) -> u8 {
        row_byte(self.pixels@, self.stride(), y, 4 * x + c)
    }

    /// Makes a frame of the given size from its pixel bytes, or `None` when
    /// the buffer does not hold exactly `width * height` pixels.
    pub fn new(width: u32, height: u32, pixels: Vec<u8>) -> (r: Option<Frame>)
        ensures
            r is Some <==> pixels@.len() == width * height * 4,
            r matches Some(f) ==> f.wf() && f.width == width && f.height == height && f.pixels
                == pixels,
    {
        let w: u64 = width as u64;
        let h: u64 = height as u64;
        assert(w * h <= u32::MAX * u32::MAX) by (nonlinear_arith)
            requires
                w <= u32::MAX,
                h <= u32::MAX,
        ;
        let wh: u64 = w * h;
        let n: usize = pixels.len();
        if wh > (usize::MAX / 4) as u64 || n != (wh as usize) * 4 {
            proof {
                assert(width * height * 4 == w * h * 4) by (nonlinear_arith)
                    requires
                        w == width,
                        h == height,
                ;
            }
            None
        } else {
            proof {
                assert(height * (width * 4) == width * height * 4) by (nonlinear_arith);
            }
            Some(Frame { width, height, pixels })
        }
    }

    /// A frame of the given size with every byte zero (transparent black).
    pub fn blank(width: u32, height: u32) -> (r: Frame)
        requires
            width * height * 4 <= usize::MAX,
        ensures
            r.wf(),
            r.width == width,
            r.height == height,
            forall|x: int, y: int, c: int|
                0 <= x < width && 0 <= y < height && 0 <= c < 4 ==> #[trigger] r.pixel_byte(x, y, c)
                    == 0,
    {
        proof {
            assert(height * (width * 4) == width * height * 4) by (nonlinear_arith);
        }
        let n: usize = (width as usize) * (height as usize) * 4;
        let pixels: Vec<u8> = vec![0u8; n];
        let r = Frame { width, height, pixels };
        assert forall|x: int, y: int, c: int|
            0 <= x < width && 0 <= y < height && 0 <= c < 4 implies #[trigger] r.pixel_byte(x, y, c)
            == 0 by {
            lemma_index_in_bounds(r.stride(), height as int, y, 4 * x + c);
        }
        r
    }

    /// Copies the pixels of a rectangle that lies inside the frame.
    pub fn crop(&self, r: PixelRect) -> (out: Frame)
        requires
            self.wf(),
            r.x + r.width <= self.width,
            r.y + r.height <= self.height,
        ensures
            out.wf(),
            out.width == r.width,
            out.height == r.height,
            forall|x: int, y: int, c: int|
                0 <= x < r.width && 0 <= y < r.height && 0 <= c < 4 ==> #[trigger] out.pixel_byte(
                    x,
                    y,
                    c,
                ) == self.pixel_byte(r.x + x, r.y + y, c),
    {
        let len: usize = self.pixels.len();
        if r.width == 0 || r.height == 0 {
            proof {
                assert(r.height * (r.width * 4) == 0) by (nonlinear_arith)
                    requires
                        r.width == 0 || r.height == 0,
                ;
            }
            return Frame { width: r.width, height: r.height, pixels: Vec::new() };
        }
        proof {
            lemma_mul_le(1, self.height as int, self.stride());
        }
        let src_stride: usize = (self.width as usize) * 4;
        let out_stride: usize = (r.width as usize) * 4;
        let skip: usize = (r.x as usize) * 4;
        proof {
            lemma_mul_le(r.y as int + r.height as int, self.height as int, src_stride as int);
            lemma_mul_le(r.y as int, r.y as int + r.height as int, src_stride as int);
        }
        let mut src_row: usize = (r.y as usize) * src_stride;
        let mut pixels: Vec<u8> = Vec::new();
        let mut j: u32 = 0;
        while j < r.height
            invariant
                self.wf(),
                len == self.pixels@.len(),
                r.x + r.width <= self.width,
                r.y + r.height <= self.height,
                src_stride == self.stride(),
                out_stride == r.width * 4,
                skip == r.x * 4,
                j <= r.height,
                src_row == (r.y + j) * src_stride,
                pixels@.len() == j * out_stride,
                forall|y: int, b: int|
                    0 <= y < j && 0 <= b < out_stride ==> #[trigger] row_byte(
                        pixels@,
                        out_stride as int,
                        y,
                        b,
                    ) == row_byte(self.pixels@, src_stride as int, r.y + y, skip + b),
            decreases r.height - j,
        {
            proof {
                lemma_mul_le(r.y as int + j + 1, self.height as int, src_stride as int);
                lemma_mul_succ(r.y as int + j, src_stride as int);
                lemma_mul_succ(j as int, out_stride as int);
            }
            let row_start: usize = pixels.len();
            let ghost done = pixels@;
            let mut i: usize = 0;
            while i < out_stride
                invariant
                    self.wf(),
                    len == self.pixels@.len(),
                    src_stride == self.stride(),
                    out_stride == r.width * 4,
                    skip == r.x * 4,
                    skip + out_stride <= src_stride,
                    src_row + src_stride <= self.pixels@.len(),
                    i <= out_stride,
                    row_start == j * out_stride,
                    pixels@.len() == row_start + i,
                    done.len() == row_start,
                    forall|k: int| 0 <= k < row_start ==> #[trigger] pixels@[k] == done[k],
                    forall|b: int|
                        0 <= b < i ==> #[trigger] pixels@[row_start + b] == self.pixels@[src_row
                            + skip + b],
                decreases out_stride - i,
            {
                pixels.push(self.pixels[src_row + skip + i]);
                i = i + 1;
            }
            assert forall|y: int, b: int| 0 <= y < j + 1 && 0 <= b < out_stride implies #[trigger] row_byte(
                pixels@,
                out_stride as int,
                y,
                b,
            ) == row_byte(self.pixels@, src_stride as int, r.y + y, skip + b) by {
                if y < j {
                    lemma_index_in_bounds(out_stride as int, j as int, y, b);
                    assert(row_byte(done, out_stride as int, y, b) == row_byte(self.pixels@, src_stride as int, r.y + y, skip + b));
                }
            }
            src_row = src_row + src_stride;
            j = j + 1;
        }
        let out = Frame { width: r.width, height: r.height, pixels };
        assert forall|x: int, y: int, c: int|
            0 <= x < r.width && 0 <= y < r.height && 0 <= c < 4 implies #[trigger] out.pixel_byte(x, y, c)
            == self.pixel_byte(r.x + x, r.y + y, c) by {
            assert(row_byte(out.pixels@, out_stride as int, y, 4 * x + c) == row_byte(self.pixels@, src_stride as int, r.y + y, skip + (4 * x + c)));
        }
        proof {
            assert(r.height * (r.width * 4) == r.height * out_stride);
        }
        out
    }

    /// Whether pixel (`px`, `py`) lies in the `w` x `h` rectangle at (`x`, `y`).
    pub open spec fn in_rect(px: int, py: int, x: int, y: int, w: int, h: int) -> bool {
        x <= px < x + w && y <= py < y + h
    }

    /// Overwrites the rectangle at (`x`, `y`) with the pixels of `src`, which
    /// must fit inside this frame. Every other pixel is left as it was.
    pub fn paste(&mut self, src: &Frame, x: u32, y: u32)
        requires
            old(self).wf(),
            src.wf(),
            x + src.width <= old(self).width,
            y + src.height <= old(self).height,
        ensures
            final(self).wf(),
            final(self).width == old(self).width,
            final(self).height == old(self).height,
            forall|px: int, py: int, c: int|
                0 <= px < old(self).width && 0 <= py < old(self).height && 0 <= c < 4
                    ==> #[trigger] final(self).pixel_byte(px, py, c) == if Frame::in_rect(
                    px,
                    py,
                    x as int,
                    y as int,
                    src.width as int,
                    src.height as int,
                ) {
                    src.pixel_byte(px - x, py - y, c)
                } else {
                    old(self).pixel_byte(px, py, c)
                },
    {
        let ghost orig = self.pixels@;
        let len: usize = self.pixels.len();
        if src.width == 0 || src.height == 0 {
            return;
        }
        proof {
            lemma_mul_le(1, self.height as int, self.stride());
            lemma_mul_le(1, src.height as int, src.stride());
        }
        let dst_stride: usize = (self.width as usize) * 4;
        let src_stride: usize = (src.width as usize) * 4;
        let skip: usize = (x as usize) * 4;
        let src_len: usize = src.pixels.len();
        proof {
            lemma_mul_le(y as int + src.height as int, self.height as int, dst_stride as int);
            lemma_mul_le(y as int, y as int + src.height as int, dst_stride as int);
        }
        let mut dst_row: usize = (y as usize) * dst_stride;
        let mut src_row: usize = 0;
        let mut j: u32 = 0;
        while j < src.height
            invariant
                self.wf(),
                src.wf(),
                self.width == old(self).width,
                self.height == old(self).height,
                orig == old(self).pixels@,
                len == self.pixels@.len(),
                src_len == src.pixels@.len(),
                x + src.width <= self.width,
                y + src.height <= self.height,
                dst_stride == self.stride(),
                src_stride == src.stride(),
                skip == x * 4,
                j <= src.height,
                dst_row == (y + j) * dst_stride,
                src_row == j * src_stride,
                forall|yy: int, bb: int|
                    0 <= yy < self.height && 0 <= bb < dst_stride ==> #[trigger] row_byte(
                        self.pixels@,
                        dst_stride as int,
                        yy,
                        bb,
                    ) == if y <= yy < y + j && skip <= bb < skip + src_stride {
                        row_byte(src.pixels@, src_stride as int, yy - y, bb - skip)
                    } else {
                        row_byte(orig, dst_stride as int, yy, bb)
                    },
            decreases src.height - j,
        {
            proof {
                lemma_mul_le(y as int + j + 1, self.height as int, dst_stride as int);
                lemma_mul_succ(y as int + j, dst_stride as int);
                lemma_mul_le(j as int + 1, src.height as int, src_stride as int);
                lemma_mul_succ(j as int, src_stride as int);
            }
            let mut i: usize = 0;
            while i < src_stride
                invariant
                    self.wf(),
                    src.wf(),
                    self.width == old(self).width,
                    self.height == old(self).height,
                    len == self.pixels@.len(),
                    src_len == src.pixels@.len(),
                    y + src.height <= self.height,
                    dst_stride == self.stride(),
                    src_stride == src.stride(),
                    skip + src_stride <= dst_stride,
                    j < src.height,
                    dst_row == (y + j) * dst_stride,
                    dst_row + dst_stride <= len,
                    src_row == j * src_stride,
                    src_row + src_stride <= src_len,
                    i <= src_stride,
                    forall|yy: int, bb: int|
                        0 <= yy < self.height && 0 <= bb < dst_stride ==> #[trigger] row_byte(
                            self.pixels@,
                            dst_stride as int,
                            yy,
                            bb,
                        ) == if (y <= yy < y + j && skip <= bb < skip + src_stride) || (yy == y + j
                            && skip <= bb < skip + i) {
                            row_byte(src.pixels@, src_stride as int, yy - y, bb - skip)
                        } else {
                            row_byte(orig, dst_stride as int, yy, bb)
                        },
                decreases src_stride - i,
            {
                let ghost before = self.pixels@;
                let target: usize = dst_row + skip + i;
                let v: u8 = src.pixels[src_row + i];
                self.pixels[target] = v;
                proof {
                    assert forall|yy: int, bb: int|
                        0 <= yy < self.height && 0 <= bb < dst_stride implies #[trigger] row_byte(
                            self.pixels@,
                            dst_stride as int,
                            yy,
                            bb,
                        ) == if (y <= yy < y + j && skip <= bb < skip + src_stride) || (yy == y
                            + j && skip <= bb < skip + i + 1) {
                            row_byte(src.pixels@, src_stride as int, yy - y, bb - skip)
                        } else {
                            row_byte(orig, dst_stride as int, yy, bb)
                        } by {
                        lemma_index_in_bounds(dst_stride as int, self.height as int, yy, bb);
                        if yy != y + j || bb != skip + i {
                            if yy * dst_stride + bb == target {
                                lemma_row_index_unique(
                                dst_stride as int,
                                yy,
                                bb,
                                y + j,
                                    (skip + i) as int,
                                );
                            }
                            assert(row_byte(self.pixels@, dst_stride as int, yy, bb) == row_byte(
                                before,
                                dst_stride as int,
                                yy,
                                bb,
                            ));
                        }
                    }
                }
                i = i + 1;
            }
            dst_row = dst_row + dst_stride;
            src_row = src_row + src_stride;
            j = j + 1;
        }
        assert forall|px: int, py: int, c: int|
            0 <= px < self.width && 0 <= py < self.height && 0 <= c < 4 implies #[trigger] self.pixel_byte(
            px,
            py,
            c,
        ) == if Frame::in_rect(px, py, x as int, y as int, src.width as int, src.height as int) {
            src.pixel_byte(px - x, py - y, c)
        } else {
            row_byte(orig, dst_stride as int, py, 4 * px + c)
        } by {
            assert(row_byte(self.pixels@, dst_stride as int, py, 4 * px + c) == if y <= py < y
                + src.height && skip <= 4 * px + c < skip + src_stride {
                row_byte(src.pixels@, src_stride as int, py - y, 4 * px + c - skip)
            } else {
                row_byte(orig, dst_stride as int, py, 4 * px + c)
            });
        }
    }
}

/// `a <= b` and `s >= 0` give `a * s <= b * s`.
pub proof fn lemma_mul_le(a: int, b: int, s: int)
    requires
        a <= b,
        s >= 0,
    ensures
        a * s <= b * s,
{
    vstd::arithmetic::mul::lemma_mul_inequality(a, b, s);
}

/// `(a + 1) * s == a * s + s`.
pub proof fn lemma_mul_succ(a: int, s: int)
    ensures
        (a + 1) * s == a * s + s,
{
    vstd::arithmetic::mul::lemma_mul_is_distributive_add_other_way(s, a, 1);
}

/// Two (row, byte) positions of one buffer meet at one index only when
/// they are the same position.
pub proof fn lemma_row_index_unique(stride: int, y1: int, b1: int, y2: int, b2: int)
    requires
        0 <= b1 < stride,
        0 <= b2 < stride,
        y1 * stride + b1 == y2 * stride + b2,
    ensures
        y1 == y2,
        b1 == b2,
{
    if y1 < y2 {
        lemma_mul_le(y1 + 1, y2, stride);
        lemma_mul_succ(y1, stride);
    } else if y2 < y1 {
        lemma_mul_le(y2 + 1, y1, stride);
        lemma_mul_succ(y2, stride);
    }
}

/// A byte of a row inside a buffer of `rows` rows lies inside the buffer.
pub proof fn lemma_index_in_bounds(stride: int, rows: int, y: int, b: int)
    requires
        0 <= y < rows,
        0 <= b < stride,
    ensures
        0 <= y * stride + b < rows * stride,
{
    lemma_mul_le(y + 1, rows, stride);
    lemma_mul_succ(y, stride);
    vstd::arithmetic::mul::lemma_mul_nonnegative(y, stride);
}

} // verus!
