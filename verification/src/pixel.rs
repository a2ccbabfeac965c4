//! The pixel-grid codec: bytes as black and white macropixels in a sequence
//! of lossless raster frames.

use vstd::prelude::*;
use vstd::arithmetic::div_mod::{lemma_fundamental_div_mod, lemma_fundamental_div_mod_converse};
use vstd::bytes::{
    lemma_auto_spec_u32_to_from_le_bytes, lemma_auto_spec_u64_to_from_le_bytes,
    spec_u32_from_le_bytes, spec_u32_to_le_bytes, spec_u64_from_le_bytes, spec_u64_to_le_bytes,
    u32_from_le_bytes, u64_from_le_bytes,
};
use vstd::slice::slice_subrange;
use crate::bits::{bit_stream, data_bit, get_bit, lemma_packed_stream, pack_bits, packed};
use crate::encoding::{saturate, EncodedData, Encoder, EncodingMetadata, EncodingStrategy};
use crate::error::Error;
use crate::frame::{
    append_blob, container, container_header, container_header_bytes, framed, lemma_framed_prefix,
    lemma_framed_take, png_decode, png_decoding, png_encode,
    png_encoding, Frame,
};

verus! {

/// A pixel index `y * w + x` of a raster of width `w` splits back into its
/// row and column.
proof fn lemma_row_major(w: int, x: int, y: int)
    requires
        0 <= x < w,
        0 <= y,
    ensures
        (y * w + x) / w == y,
        (y * w + x) % w == x,
        y * w + x >= 0,
{
    lemma_fundamental_div_mod_converse(y * w + x, w, y, x);
    assert(y * w >= 0) by (nonlinear_arith)
        requires
            y >= 0,
            w > 0,
    ;
}

/// A pixel of a `w` by `h` raster has an index below `w * h`.
proof fn lemma_pixel_in_raster(w: int, h: int, x: int, y: int)
    requires
        0 <= x < w,
        0 <= y < h,
    ensures
        0 <= y * w + x < w * h,
{
    assert(y * w + x < w * h && y * w >= 0) by (nonlinear_arith)
        requires
            0 <= x < w,
            0 <= y < h,
    ;
}

/// Offset `d` within cell `c` of a grid of cells of size `s` that fits
/// `limit / s` whole cells lies below `limit` and belongs to cell `c`.
proof fn lemma_cell(limit: int, s: int, c: int, d: int)
    requires
        s > 0,
        0 <= c < limit / s,
        0 <= d < s,
    ensures
        0 <= c * s + d < limit,
        (c * s + d) / s == c,
        c * s >= 0,
{
    lemma_fundamental_div_mod(limit, s);
    assert(c * s + d < s * (limit / s) && c * s >= 0) by (nonlinear_arith)
        requires
            s > 0,
            0 <= c < limit / s,
            0 <= d < s,
    ;
    lemma_fundamental_div_mod_converse(c * s + d, s, c, d);
}

/// The product of two 64-bit numbers, which always fits 128 bits.
fn wide_mul(a: u64, b: u64) -> (product: u128)
    ensures
        product == a * b,
        product <= 0xffff_ffff_ffff_ffff * 0xffff_ffff_ffff_ffff,
{
    assert(0 <= a * b <= 0xffff_ffff_ffff_ffff * 0xffff_ffff_ffff_ffff) by (nonlinear_arith)
        requires
            0 <= a <= 0xffff_ffff_ffff_ffff,
            0 <= b <= 0xffff_ffff_ffff_ffff,
    ;
    (a as u128) * (b as u128)
}

/// The number of pixels of a raster.
fn area(width: u32, height: u32) -> (pixels: u64)
    ensures
        pixels == width * height,
{
    assert(0 <= width * height <= 0xffff_ffff * 0xffff_ffff) by (nonlinear_arith)
        requires
            0 <= width <= 0xffff_ffff,
            0 <= height <= 0xffff_ffff,
    ;
    (width as u64) * (height as u64)
}

/// The luminance of pixel `(x, y)` of an RGBA raster of width `w`: the mean
/// of its three colour channels.
pub open spec fn brightness(px: Seq<u8>, w: int, x: int, y: int) -> int {
    let p = 4 * (y * w + x);
    (px[p] as int + px[p + 1] as int + px[p + 2] as int) / 3
}

/// The summed luminance of `n` pixels of row `y`, starting at column `x0`.
pub open spec fn row_sum(px: Seq<u8>, w: int, x0: int, y: int, n: int) -> int
    decreases n,
{
    if n <= 0 {
        0
    } else {
        row_sum(px, w, x0, y, n - 1) + brightness(px, w, x0 + n - 1, y)
    }
}

/// The summed luminance of `m` rows of `s` pixels, starting at `(x0, y0)`.
pub open spec fn block_sum(px: Seq<u8>, w: int, x0: int, y0: int, s: int, m: int) -> int
    decreases m,
{
    if m <= 0 {
        0
    } else {
        block_sum(px, w, x0, y0, s, m - 1) + row_sum(px, w, x0, y0 + m - 1, s)
    }
}

/// A row of pixels of one luminance sums to that luminance times its length.
proof fn lemma_row_sum_uniform(px: Seq<u8>, w: int, x0: int, y: int, n: int, v: int)
    requires
        n >= 0,
        forall|d: int| 0 <= d < n ==> #[trigger] brightness(px, w, x0 + d, y) == v,
    ensures
        row_sum(px, w, x0, y, n) == n * v,
    decreases n,
{
    if n > 0 {
        lemma_row_sum_uniform(px, w, x0, y, n - 1, v);
        assert(brightness(px, w, x0 + (n - 1), y) == v);
        assert((n - 1) * v + v == n * v) by (nonlinear_arith);
    } else {
        assert(0 * v == 0);
    }
}

/// A block of rows of one sum adds up to that sum times the number of rows.
proof fn lemma_block_sum_uniform(px: Seq<u8>, w: int, x0: int, y0: int, s: int, m: int, t: int)
    requires
        m >= 0,
        forall|d: int| 0 <= d < m ==> #[trigger] row_sum(px, w, x0, y0 + d, s) == t,
    ensures
        block_sum(px, w, x0, y0, s, m) == m * t,
    decreases m,
{
    if m > 0 {
        lemma_block_sum_uniform(px, w, x0, y0, s, m - 1, t);
        assert(row_sum(px, w, x0, y0 + (m - 1), s) == t);
        assert((m - 1) * t + t == m * t) by (nonlinear_arith);
    } else {
        assert(0 * t == 0);
    }
}

/// Bits read so far, followed by what the rest of an artifact yields.
pub open spec fn bits_then(head: Seq<bool>, rest: Result<Seq<bool>, Error>) -> Result<
    Seq<bool>,
    Error,
> {
    match rest {
        Ok(tail) => Ok(head + tail),
        Err(e) => Err(e),
    }
}

/// The pixel-grid codec and its parameters.
#[derive(Clone, Copy, Debug)]
pub struct PixelEncoder {
    /// Side of a square macropixel, in pixels.
    pub block_size: u32,
    /// Width and height of a frame, in pixels.
    pub resolution: (u32, u32),
    /// Advisory frame rate.
    pub fps: u32,
    /// Luminance below which the decoder reads a macropixel as a one.
    pub threshold: u8,
}

impl PixelEncoder {
    /// Frame width.
    pub open spec fn width(&self) -> int {
        self.resolution.0 as int
    }

    /// Frame height.
    pub open spec fn height(&self) -> int {
        self.resolution.1 as int
    }

    /// Macropixels per row of a frame.
    pub open spec fn blocks_x(&self) -> int {
        if self.block_size == 0 {
            0
        } else {
            self.width() / (self.block_size as int)
        }
    }

    /// Rows of macropixels per frame.
    pub open spec fn blocks_y(&self) -> int {
        if self.block_size == 0 {
            0
        } else {
            self.height() / (self.block_size as int)
        }
    }

    /// Bits carried by one frame: one per macropixel.
    pub open spec fn spec_bits_per_frame(&self) -> int {
        self.blocks_x() * self.blocks_y()
    }

    /// Whether the parameters describe frames that carry at least one bit
    /// and whose rasters fit in memory.
    pub open spec fn usable(&self) -> bool {
        &&& self.block_size >= 1
        &&& self.blocks_x() >= 1
        &&& self.blocks_y() >= 1
        &&& 4 * self.width() * self.height() <= usize::MAX
    }

    /// Channel `ch` of pixel `(x, y)` of frame `f` of the rendering of
    /// `data`: inside the grid a macropixel is black for a one and white for
    /// a zero, both opaque; the margin that no macropixel covers is
    /// transparent black.
    pub open spec fn rendered(&self, data: Seq<u8>, f: int, x: int, y: int, ch: int) -> u8 {
        let c = x / (self.block_size as int);
        let r = y / (self.block_size as int);
        if c < self.blocks_x() && r < self.blocks_y() {
            if ch == 3 || !data_bit(data, f * self.spec_bits_per_frame() + r * self.blocks_x() + c) {
                255u8
            } else {
                0u8
            }
        } else {
            0u8
        }
    }

    /// The RGBA bytes of frame `f` of the rendering of `data`.
    pub open spec fn frame_pixels(&self, data: Seq<u8>, f: int) -> Seq<u8> {
        Seq::new(
            (4 * self.width() * self.height()) as nat,
            |p: int|
                self.rendered(data, f, (p / 4) % self.width(), (p / 4) / self.width(), p % 4),
        )
    }

    /// The bit that the decoder reads off macropixel `(c, r)`: one exactly
    /// if the mean luminance of its pixels is strictly below the threshold.
    pub open spec fn block_bit(&self, px: Seq<u8>, c: int, r: int) -> bool {
        let s = self.block_size as int;
        block_sum(px, self.width(), c * s, r * s, s, s) / (s * s) < self.threshold as int
    }

    /// The bits that the decoder reads off a frame, row by row.
    pub open spec fn frame_bits(&self, px: Seq<u8>) -> Seq<bool> {
        Seq::new(
            self.spec_bits_per_frame() as nat,
            |i: int| self.block_bit(px, i % self.blocks_x(), i / self.blocks_x()),
        )
    }

    /// The default codec: macropixels of side 4 in frames of 1920 by 1080
    /// at 30 frames per second, read against a threshold of 128.
    pub open spec fn spec_default() -> PixelEncoder {
        PixelEncoder { block_size: 4, resolution: (1920u32, 1080u32), fps: 30, threshold: 128 }
    }

    /// The default codec.
    pub fn new() -> (encoder: PixelEncoder)
        ensures
            encoder == Self::spec_default(),
    {
        PixelEncoder { block_size: 4, resolution: (1920, 1080), fps: 30, threshold: 128 }
    }

    /// The same codec with another macropixel size.
    pub fn with_block_size(self, block_size: u32) -> (encoder: PixelEncoder)
        ensures
            encoder == (PixelEncoder { block_size, ..self }),
    {
        PixelEncoder { block_size, ..self }
    }

    /// The same codec with another frame size.
    pub fn with_resolution(self, width: u32, height: u32) -> (encoder: PixelEncoder)
        ensures
            encoder == (PixelEncoder { resolution: (width, height), ..self }),
    {
        PixelEncoder { resolution: (width, height), ..self }
    }

    /// The same codec with another frame rate.
    pub fn with_fps(self, fps: u32) -> (encoder: PixelEncoder)
        ensures
            encoder == (PixelEncoder { fps, ..self }),
    {
        PixelEncoder { fps, ..self }
    }

    /// Tells whether the parameters are usable.
    pub fn is_usable(&self) -> (ok: bool)
        ensures
            ok == self.usable(),
    {
        if self.block_size == 0 {
            return false;
        }
        let (width, height) = self.resolution;
        if width / self.block_size == 0 || height / self.block_size == 0 {
            return false;
        }
        let pixels = area(width, height);
        assert(4 * self.width() * self.height() == 4 * (width * height)) by (nonlinear_arith)
            requires
                width == self.width(),
                height == self.height(),
        ;
        pixels <= (usize::MAX / 4) as u64
    }

    /// Bits carried by one frame.
    pub fn bits_per_frame(&self) -> (bits: u64)
        ensures
            bits == self.spec_bits_per_frame(),
    {
        if self.block_size == 0 {
            assert(0 * 0 == 0);
            return 0;
        }
        let (width, height) = self.resolution;
        let bx = (width / self.block_size) as u64;
        let by = (height / self.block_size) as u64;
        assert(bx * by <= 0xffff_ffff * 0xffff_ffff) by (nonlinear_arith)
            requires
                0 <= bx <= 0xffff_ffff,
                0 <= by <= 0xffff_ffff,
        ;
        bx * by
    }

    /// Renders frame `frame_index` of `data`.
    pub fn create_frame(&self, data: &[u8], frame_index: u32) -> (frame: Frame)
        requires
            self.usable(),
        ensures
            frame.wf(),
            frame.width == self.resolution.0,
            frame.height == self.resolution.1,
            frame.pixels@ == self.frame_pixels(data@, frame_index as int),
    {
        let (width, height) = self.resolution;
        let size = self.block_size;
        let bx = width / size;
        let by = height / size;
        let per_frame = self.bits_per_frame();
        let first: u128 = wide_mul(frame_index as u64, per_frame);
        let ghost w = self.width();
        let ghost h = self.height();
        let ghost f = frame_index as int;
        let ghost expected = self.frame_pixels(data@, f);
        assert(first == f * self.spec_bits_per_frame());
        assert(4 * w * h == 4 * (h * w)) by (nonlinear_arith);
        let mut pixels: Vec<u8> = Vec::new();
        let mut y: u32 = 0;
        assert(0 * w == 0 && 0 <= h * w) by (nonlinear_arith)
            requires
                h >= 0,
                w >= 0,
        ;
        while y < height
            invariant
                self.usable(),
                width == self.resolution.0,
                height == self.resolution.1,
                w == self.width(),
                h == self.height(),
                size == self.block_size,
                bx == self.blocks_x(),
                by == self.blocks_y(),
                per_frame == self.spec_bits_per_frame(),
                first == f * self.spec_bits_per_frame(),
                first <= 0xffff_ffff_ffff_ffff * 0xffff_ffff_ffff_ffff,
                f == frame_index,
                expected == self.frame_pixels(data@, f),
                expected.len() == 4 * (h * w),
                y <= height,
                0 <= y * w <= h * w,
                pixels@ == expected.subrange(0, 4 * (y * w)),
            decreases height - y,
        {
            let r = y / size;
            let mut x: u32 = 0;
            proof {
                assert(0 <= y * w <= (h - 1) * w && (h - 1) * w + w == h * w) by (nonlinear_arith)
                    requires
                        0 <= y < h,
                        w > 0,
                ;
            }
            while x < width
                invariant
                    self.usable(),
                    width == self.resolution.0,
                    height == self.resolution.1,
                    w == self.width(),
                    h == self.height(),
                    size == self.block_size,
                    bx == self.blocks_x(),
                    by == self.blocks_y(),
                    per_frame == self.spec_bits_per_frame(),
                    first == f * self.spec_bits_per_frame(),
                    first <= 0xffff_ffff_ffff_ffff * 0xffff_ffff_ffff_ffff,
                    f == frame_index,
                    expected == self.frame_pixels(data@, f),
                    expected.len() == 4 * (h * w),
                    y < height,
                    r == y / size,
                    x <= width,
                    0 <= y * w <= (h - 1) * w,
                    (h - 1) * w + w == h * w,
                    pixels@ == expected.subrange(0, 4 * (y * w + x)),
                decreases width - x,
            {
                let c = x / size;
                let inside = c < bx && r < by;
                let mut shade: u8 = 0;
                let mut alpha: u8 = 0;
                if inside {
                    assert(r * bx + c < bx * by && r * bx >= 0) by (nonlinear_arith)
                        requires
                            0 <= r < by,
                            0 <= c < bx,
                    ;
                    let index: u128 = first + wide_mul(r as u64, bx as u64) + (c as u128);
                    assert(index == f * self.spec_bits_per_frame() + r * self.blocks_x() + c);
                    shade = if get_bit(data, index) { 0 } else { 255 };
                    alpha = 255;
                }
                proof {
                    let q = y * w + x;
                    lemma_row_major(w, x as int, y as int);
                    assert(expected[4 * q] == shade);
                    assert(expected[4 * q + 1] == shade);
                    assert(expected[4 * q + 2] == shade);
                    assert(expected[4 * q + 3] == alpha);
                }
                pixels.push(shade);
                pixels.push(shade);
                pixels.push(shade);
                pixels.push(alpha);
                assert(pixels@ =~= expected.subrange(0, 4 * (y * w + x + 1)));
                x += 1;
            }
            assert(y * w + w == (y + 1) * w && 0 <= (y + 1) * w <= h * w) by (nonlinear_arith)
                requires
                    0 <= y < h,
                    w > 0,
            ;
            y += 1;
        }
        assert(pixels@ == expected);
        Frame { width, height, pixels }
    }

    /// Reads the bit of macropixel `(c, r)` off a frame by averaging.
    pub fn read_block(&self, frame: &Frame, c: u32, r: u32) -> (bit: bool)
        requires
            self.usable(),
            frame.wf(),
            frame.width == self.resolution.0,
            frame.height == self.resolution.1,
            c < self.blocks_x(),
            r < self.blocks_y(),
        ensures
            bit == self.block_bit(frame.pixels@, c as int, r as int),
    {
        let size = self.block_size;
        let width = frame.width as usize;
        let ghost px = frame.pixels@;
        let ghost w = self.width();
        let ghost h = self.height();
        let ghost s = size as int;
        proof {
            lemma_cell(w, s, c as int, 0);
            lemma_cell(h, s, r as int, 0);
            assert(4 * w * h == 4 * (w * h)) by (nonlinear_arith);
        }
        let x0 = c * size;
        let y0 = r * size;
        let mut sum: u128 = 0;
        let mut dy: u32 = 0;
        while dy < size
            invariant
                self.usable(),
                frame.wf(),
                frame.width == self.resolution.0,
                frame.height == self.resolution.1,
                px == frame.pixels@,
                px.len() == 4 * (w * h),
                4 * (w * h) <= usize::MAX,
                w == self.width(),
                h == self.height(),
                s == self.block_size,
                size == self.block_size,
                width == w,
                c < self.blocks_x(),
                r < self.blocks_y(),
                x0 == c * s,
                y0 == r * s,
                dy <= size,
                sum == block_sum(px, w, x0 as int, y0 as int, s, dy as int),
                sum <= dy * 0x100_0000_0000,
            decreases size - dy,
        {
            proof {
                lemma_cell(h, s, r as int, dy as int);
            }
            let y = y0 + dy;
            proof {
                lemma_pixel_in_raster(w, h, 0, y as int);
            }
            let row = (y as usize) * width;
            let mut line: u128 = 0;
            let mut dx: u32 = 0;
            while dx < size
                invariant
                    self.usable(),
                    px == frame.pixels@,
                    px.len() == 4 * (w * h),
                4 * (w * h) <= usize::MAX,
                    w == self.width(),
                    h == self.height(),
                    s == self.block_size,
                    size == self.block_size,
                    width == w,
                    c < self.blocks_x(),
                    x0 == c * s,
                    y < h,
                    row == y * w,
                    dx <= size,
                    line == row_sum(px, w, x0 as int, y as int, dx as int),
                    line <= 255 * dx,
                decreases size - dx,
            {
                proof {
                    lemma_cell(w, s, c as int, dx as int);
                }
                let x = x0 + dx;
                proof {
                    lemma_pixel_in_raster(w, h, x as int, y as int);
                }
                let p = 4 * (row + x as usize);
                let mean = (frame.pixels[p] as u32 + frame.pixels[p + 1] as u32 + frame.pixels[p
                    + 2] as u32) / 3;
                assert(mean == brightness(px, w, x0 + dx, y as int));
                line = line + mean as u128;
                dx += 1;
            }
            sum = sum + line;
            dy += 1;
        }
        let area = wide_mul(size as u64, size as u64);
        assert(area > 0) by (nonlinear_arith)
            requires
                area == size * size,
                size >= 1,
        ;
        sum / area < self.threshold as u128
    }

    /// Reads the bits of every macropixel of a frame, row by row.
    pub fn read_frame(&self, frame: &Frame) -> (bits: Vec<bool>)
        requires
            self.usable(),
            frame.wf(),
            frame.width == self.resolution.0,
            frame.height == self.resolution.1,
        ensures
            bits@ == self.frame_bits(frame.pixels@),
    {
        let size = self.block_size;
        let bx = frame.width / size;
        let by = frame.height / size;
        let ghost expected = self.frame_bits(frame.pixels@);
        let mut bits: Vec<bool> = Vec::new();
        let mut r: u32 = 0;
        assert(0 * bx == 0 && 0 <= by * bx) by (nonlinear_arith)
            requires
                bx >= 0,
                by >= 0,
        ;
        assert(self.blocks_x() * self.blocks_y() == by * bx) by (nonlinear_arith)
            requires
                self.blocks_x() == bx,
                self.blocks_y() == by,
        ;
        while r < by
            invariant
                self.usable(),
                frame.wf(),
                frame.width == self.resolution.0,
                frame.height == self.resolution.1,
                bx == self.blocks_x(),
                by == self.blocks_y(),
                expected == self.frame_bits(frame.pixels@),
                expected.len() == by * bx,
                r <= by,
                0 <= r * bx <= by * bx,
                bits@ == expected.subrange(0, r * bx),
            decreases by - r,
        {
            let mut c: u32 = 0;
            proof {
                assert(r * bx + bx <= by * bx) by (nonlinear_arith)
                    requires
                        0 <= r < by,
                        bx > 0,
                ;
            }
            while c < bx
                invariant
                    self.usable(),
                    frame.wf(),
                    frame.width == self.resolution.0,
                    frame.height == self.resolution.1,
                    bx == self.blocks_x(),
                    by == self.blocks_y(),
                    expected == self.frame_bits(frame.pixels@),
                    expected.len() == by * bx,
                    r < by,
                    c <= bx,
                    0 <= r * bx,
                    r * bx + bx <= by * bx,
                    bits@ == expected.subrange(0, r * bx + c),
                decreases bx - c,
            {
                let bit = self.read_block(frame, c, r);
                proof {
                    lemma_row_major(bx as int, c as int, r as int);
                    assert(expected[r * bx + c] == bit);
                }
                bits.push(bit);
                assert(bits@ =~= expected.subrange(0, r * bx + c + 1));
                c += 1;
            }
            assert(r * bx + bx == (r + 1) * bx && 0 <= (r + 1) * bx <= by * bx) by (nonlinear_arith)
                requires
                    0 <= r < by,
                    bx > 0,
            ;
            r += 1;
        }
        assert(bits@ == expected);
        bits
    }

    /// What the decoder reads off a rendered frame is the stretch of the
    /// data's bit stream that the frame carries, whenever the threshold is
    /// not zero.
    pub proof fn lemma_frame_roundtrip(&self, data: Seq<u8>, f: int)
        requires
            self.usable(),
            self.threshold >= 1,
            f >= 0,
        ensures
            self.frame_bits(self.frame_pixels(data, f)).len() == self.spec_bits_per_frame(),
            forall|i: int|
                0 <= i < self.spec_bits_per_frame() ==> #[trigger] self.frame_bits(
                    self.frame_pixels(data, f),
                )[i] == data_bit(data, f * self.spec_bits_per_frame() + i),
    {
        let px = self.frame_pixels(data, f);
        let w = self.width();
        let h = self.height();
        let s = self.block_size as int;
        let bx = self.blocks_x();
        let by = self.blocks_y();
        assert(bx * by >= 0) by (nonlinear_arith)
            requires
                bx >= 0,
                by >= 0,
        ;
        assert forall|i: int| 0 <= i < self.spec_bits_per_frame() implies #[trigger] self.frame_bits(
            px,
        )[i] == data_bit(data, f * self.spec_bits_per_frame() + i) by {
            let c = i % bx;
            let r = i / bx;
            lemma_fundamental_div_mod(i, bx);
            assert(r < by && r >= 0 && bx * r == r * bx) by (nonlinear_arith)
                requires
                    0 <= i < bx * by,
                    r == i / bx,
                    bx > 0,
                    i == bx * r + c,
                    0 <= c < bx,
            ;
            let bit = data_bit(data, f * self.spec_bits_per_frame() + r * bx + c);
            let v: int = if bit {
                0
            } else {
                255
            };
            assert forall|dy: int| 0 <= dy < s implies #[trigger] row_sum(
                px,
                w,
                c * s,
                r * s + dy,
                s,
            ) == s * v by {
                let y = r * s + dy;
                lemma_cell(h, s, r, dy);
                assert forall|dx: int| 0 <= dx < s implies #[trigger] brightness(
                    px,
                    w,
                    c * s + dx,
                    y,
                ) == v by {
                    let x = c * s + dx;
                    lemma_cell(w, s, c, dx);
                    lemma_row_major(w, x, y);
                    lemma_pixel_in_raster(w, h, x, y);
                    let q = y * w + x;
                    assert(4 * w * h == 4 * (w * h)) by (nonlinear_arith);
                    assert(px[4 * q] == self.rendered(data, f, x, y, 0));
                    assert(px[4 * q + 1] == self.rendered(data, f, x, y, 1));
                    assert(px[4 * q + 2] == self.rendered(data, f, x, y, 2));
                }
                lemma_row_sum_uniform(px, w, c * s, y, s, v);
            }
            lemma_block_sum_uniform(px, w, c * s, r * s, s, s, s * v);
            assert(s * (s * v) == (s * s) * v && s * s > 0) by (nonlinear_arith)
                requires
                    s > 0,
            ;
            assert(((s * s) * v) / (s * s) == v) by (nonlinear_arith)
                requires
                    s * s > 0,
                    v >= 0,
            ;
        }
    }

    /// Frames needed for an input of `len` bytes: eight bits a byte, rounded
    /// up to whole frames.
    pub open spec fn spec_frame_count(&self, len: nat) -> int {
        (8 * len + self.spec_bits_per_frame() - 1) / self.spec_bits_per_frame()
    }

    /// The PNG file of frame `f` of `data`, where the PNG encoder emits one.
    pub open spec fn frame_blob(&self, data: Seq<u8>, f: int) -> Option<Seq<u8>> {
        png_encoding(self.resolution.0, self.resolution.1, self.frame_pixels(data, f))
    }

    /// The PNG files of all frames of `data`, in order.
    pub open spec fn blobs(&self, data: Seq<u8>) -> Seq<Seq<u8>> {
        Seq::new(
            self.spec_frame_count(data.len()) as nat,
            |f: int| self.frame_blob(data, f).unwrap(),
        )
    }

    /// Whether a container can carry the frames of `data`: the size of the
    /// data fits eight bytes, the number of frames fits four, and every
    /// frame has a PNG file whose length fits four.
    pub open spec fn encodable(&self, data: Seq<u8>) -> bool {
        &&& data.len() <= u64::MAX
        &&& self.spec_frame_count(data.len()) <= u32::MAX
        &&& forall|f: int|
            0 <= f < self.spec_frame_count(data.len()) ==> {
                &&& (#[trigger] self.frame_blob(data, f)) is Some
                &&& self.frame_blob(data, f).unwrap().len() <= u32::MAX
            }
    }

    /// The artifact for `data`, or the reason there is none.
    pub open spec fn spec_encode(&self, data: Seq<u8>) -> Result<Seq<u8>, Error> {
        if !self.usable() {
            Err(Error::Config)
        } else if !self.encodable(data) {
            Err(Error::CodecFormat)
        } else {
            Ok(container(data.len() as u64, self.blobs(data)))
        }
    }

    /// Renders every frame of `data`, in order.
    pub fn encode_to_frames(&self, data: &[u8]) -> (r: Result<Vec<Frame>, Error>)
        ensures
            match r {
                Ok(frames) => {
                    &&& self.usable()
                    &&& frames@.len() == self.spec_frame_count(data@.len())
                    &&& frames@.len() <= u32::MAX
                    &&& forall|f: int|
                        0 <= f < frames@.len() ==> {
                            &&& (#[trigger] frames@[f]).wf()
                            &&& frames@[f].width == self.resolution.0
                            &&& frames@[f].height == self.resolution.1
                            &&& frames@[f].pixels@ == self.frame_pixels(data@, f)
                        }
                },
                Err(e) => if self.usable() {
                    e == Error::CodecFormat && self.spec_frame_count(data@.len()) > u32::MAX
                } else {
                    e == Error::Config
                },
            },
    {
        if !self.is_usable() {
            return Err(Error::Config);
        }
        let count = match self.frame_count(data.len()) {
            Some(count) => count,
            None => {
                return Err(Error::CodecFormat);
            },
        };
        let mut frames: Vec<Frame> = Vec::new();
        let mut f: u32 = 0;
        while f < count
            invariant
                self.usable(),
                f <= count,
                frames@.len() == f,
                forall|g: int|
                    0 <= g < f ==> {
                        &&& (#[trigger] frames@[g]).wf()
                        &&& frames@[g].width == self.resolution.0
                        &&& frames@[g].height == self.resolution.1
                        &&& frames@[g].pixels@ == self.frame_pixels(data@, g)
                    },
            decreases count - f,
        {
            frames.push(self.create_frame(data, f));
            f += 1;
        }
        Ok(frames)
    }

    /// Counts the frames needed for `len` bytes, if the count fits the
    /// container's four-byte field.
    fn frame_count(&self, len: usize) -> (count: Option<u32>)
        requires
            self.usable(),
        ensures
            match count {
                Some(n) => n == self.spec_frame_count(len as nat),
                None => self.spec_frame_count(len as nat) > u32::MAX,
            },
    {
        let per_frame = self.bits_per_frame() as u128;
        assert(per_frame >= 1) by (nonlinear_arith)
            requires
                per_frame == self.blocks_x() * self.blocks_y(),
                self.blocks_x() >= 1,
                self.blocks_y() >= 1,
        ;
        let total: u128 = 8 * (len as u128);
        let count = (total + (per_frame - 1)) / per_frame;
        if count > u32::MAX as u128 {
            None
        } else {
            Some(count as u32)
        }
    }

    /// The bits of `count` frames read from an artifact at offset `pos`,
    /// frame after frame: a length prefix or a blob that overruns the
    /// artifact is a truncation; a blob that is no PNG file of a frame of
    /// this codec's resolution is a format error.
    pub open spec fn frames_bits(&self, bytes: Seq<u8>, pos: int, count: nat) -> Result<
        Seq<bool>,
        Error,
    >
        decreases count,
    {
        if count == 0 {
            Ok(Seq::<bool>::empty())
        } else if pos + 4 > bytes.len() {
            Err(Error::CodecTruncated)
        } else {
            let size = spec_u32_from_le_bytes(bytes.subrange(pos, pos + 4)) as int;
            if pos + 4 + size > bytes.len() {
                Err(Error::CodecTruncated)
            } else {
                match png_decoding(bytes.subrange(pos + 4, pos + 4 + size)) {
                    Some((width, height, px)) => {
                        if width == self.resolution.0 && height == self.resolution.1 {
                            bits_then(
                                self.frame_bits(px),
                                self.frames_bits(bytes, pos + 4 + size, (count - 1) as nat),
                            )
                        } else {
                            Err(Error::CodecFormat)
                        }
                    },
                    None => Err(Error::CodecFormat),
                }
            }
        }
    }

    /// What an artifact decodes to: the bits of its frames packed into
    /// bytes and cut to the size that its header announces, or the reason
    /// there is no such thing.
    pub open spec fn spec_decode(&self, bytes: Seq<u8>) -> Result<Seq<u8>, Error> {
        if !self.usable() {
            Err(Error::Config)
        } else if bytes.len() < 12 {
            Err(Error::CodecTruncated)
        } else {
            let count = spec_u32_from_le_bytes(bytes.subrange(0, 4));
            let original = spec_u64_from_le_bytes(bytes.subrange(4, 12));
            match self.frames_bits(bytes, 12, count as nat) {
                Err(e) => Err(e),
                Ok(bits) => {
                    if packed(bits).len() < original {
                        Err(Error::CodecTruncated)
                    } else {
                        Ok(packed(bits).subrange(0, original as int))
                    }
                },
            }
        }
    }

    /// While decoding the artifact of `data`: after `i` frames the cursor
    /// stands behind the first `i` blobs and the bits read are the first
    /// `i` frames' worth of the data's stream.
    pub open spec fn tracks(&self, data: Seq<u8>, i: int, cursor: int, bits: Seq<bool>) -> bool {
        &&& 0 <= i <= self.blobs(data).len()
        &&& cursor == 12 + framed(self.blobs(data).take(i)).len()
        &&& bits == bit_stream(data, i * self.spec_bits_per_frame())
    }

    /// A usable codec carries at least one bit a frame, and never needs a
    /// negative number of frames.
    proof fn lemma_frame_count(&self, len: nat)
        requires
            self.usable(),
        ensures
            self.spec_bits_per_frame() >= 1,
            self.spec_frame_count(len) >= 0,
            self.spec_frame_count(len) * self.spec_bits_per_frame() >= 8 * len,
    {
        let per_frame = self.spec_bits_per_frame();
        let count = self.spec_frame_count(len);
        assert(per_frame >= 1) by (nonlinear_arith)
            requires
                per_frame == self.blocks_x() * self.blocks_y(),
                self.blocks_x() >= 1,
                self.blocks_y() >= 1,
        ;
        lemma_fundamental_div_mod(8 * len + per_frame - 1, per_frame);
        assert(count * per_frame >= 8 * len && count >= 0) by (nonlinear_arith)
            requires
                per_frame >= 1,
                len >= 0,
                8 * len + per_frame - 1 == per_frame * count + (8 * len + per_frame - 1)
                    % per_frame,
                0 <= (8 * len + per_frame - 1) % per_frame < per_frame,
        ;
    }

    /// The header of the artifact of `data` announces its frames and its
    /// size, and decoding starts behind it.
    proof fn lemma_decode_start(&self, data: Seq<u8>, bytes: Seq<u8>)
        requires
            self.spec_encode(data) == Ok::<Seq<u8>, Error>(bytes),
        ensures
            bytes.len() >= 12,
            spec_u32_from_le_bytes(bytes.subrange(0, 4)) == self.blobs(data).len(),
            spec_u64_from_le_bytes(bytes.subrange(4, 12)) == data.len(),
            self.tracks(data, 0, 12, Seq::<bool>::empty()),
    {
        lemma_auto_spec_u32_to_from_le_bytes();
        lemma_auto_spec_u64_to_from_le_bytes();
        self.lemma_frame_count(data.len());
        let blobs = self.blobs(data);
        let count = blobs.len() as u32;
        let size = data.len() as u64;
        assert(bytes.subrange(0, 4) =~= spec_u32_to_le_bytes(count));
        assert(bytes.subrange(4, 12) =~= spec_u64_to_le_bytes(size));
        assert(blobs.take(0) =~= Seq::<Seq<u8>>::empty());
        assert(0 * self.spec_bits_per_frame() == 0);
        assert(bit_stream(data, 0) =~= Seq::<bool>::empty());
    }

    /// In the artifact of `data`, frame `i` sits at the cursor: its length,
    /// then the PNG file of its rendering; and reading that rendering
    /// yields the next stretch of the data's bit stream.
    proof fn lemma_decode_step(
        &self,
        data: Seq<u8>,
        bytes: Seq<u8>,
        i: int,
        cursor: int,
        bits: Seq<bool>,
    )
        requires
            self.threshold >= 1,
            self.spec_encode(data) == Ok::<Seq<u8>, Error>(bytes),
            self.tracks(data, i, cursor, bits),
            i < self.blobs(data).len(),
        ensures
            cursor + 4 <= bytes.len(),
            spec_u32_from_le_bytes(bytes.subrange(cursor, cursor + 4)) == self.blobs(data)[i].len(),
            cursor + 4 + self.blobs(data)[i].len() <= bytes.len(),
            bytes.subrange(cursor + 4, cursor + 4 + self.blobs(data)[i].len()) == self.blobs(
                data,
            )[i],
            self.frame_blob(data, i) == Some(self.blobs(data)[i]),
            self.tracks(
                data,
                i + 1,
                cursor + 4 + self.blobs(data)[i].len(),
                bits + self.frame_bits(self.frame_pixels(data, i)),
            ),
    {
        lemma_auto_spec_u32_to_from_le_bytes();
        lemma_auto_spec_u64_to_from_le_bytes();
        self.lemma_frame_count(data.len());
        let blobs = self.blobs(data);
        let blob = blobs[i];
        let whole = framed(blobs);
        let before = framed(blobs.take(i));
        let after = framed(blobs.take(i + 1));
        let prefix = spec_u32_to_le_bytes(blob.len() as u32);
        lemma_framed_take(blobs, i);
        lemma_framed_prefix(blobs, i + 1);
        assert(self.frame_blob(data, i) is Some);
        assert(after.len() == before.len() + 4 + blob.len());
        assert(whole.subrange(0, after.len() as int) == after);
        let header = container_header_bytes(blobs.len() as u32, data.len() as u64);
        assert(header.len() == 12);
        assert(bytes == header + whole);
        assert(prefix.len() == 4);
        assert(after == (before + prefix) + blob);
        assert forall|t: int| 0 <= t < after.len() implies bytes[12 + t] == after[t] by {
            assert(whole.subrange(0, after.len() as int)[t] == whole[t]);
            assert(bytes[12 + t] == whole[t]);
        }
        assert forall|t: int| 0 <= t < 4 implies bytes.subrange(cursor, cursor + 4)[t]
            == prefix[t] by {
            assert(bytes[12 + (before.len() + t)] == after[before.len() + t]);
            assert(after[before.len() + t] == prefix[t]);
        }
        assert(bytes.subrange(cursor, cursor + 4) =~= prefix);
        assert forall|t: int| 0 <= t < blob.len() implies bytes.subrange(
            cursor + 4,
            cursor + 4 + blob.len(),
        )[t] == blob[t] by {
            assert(bytes[12 + (before.len() + 4 + t)] == after[before.len() + 4 + t]);
            assert(after[before.len() + 4 + t] == blob[t]);
        }
        assert(bytes.subrange(cursor + 4, cursor + 4 + blob.len()) =~= blob);
        let per_frame = self.spec_bits_per_frame();
        self.lemma_frame_roundtrip(data, i);
        assert((i + 1) * per_frame == i * per_frame + per_frame && i * per_frame >= 0
            && per_frame >= 0) by (nonlinear_arith)
            requires
                i >= 0,
                per_frame == self.blocks_x() * self.blocks_y(),
                self.blocks_x() >= 1,
                self.blocks_y() >= 1,
        ;
        assert(bits + self.frame_bits(self.frame_pixels(data, i)) =~= bit_stream(
            data,
            (i + 1) * per_frame,
        ));
    }

    /// Once every frame of the artifact of `data` is read, the bits pack
    /// back into the data.
    proof fn lemma_decode_end(&self, data: Seq<u8>, bytes: Seq<u8>, cursor: int, bits: Seq<bool>)
        requires
            self.spec_encode(data) == Ok::<Seq<u8>, Error>(bytes),
            self.tracks(data, self.blobs(data).len() as int, cursor, bits),
        ensures
            packed(bits).len() >= data.len(),
            packed(bits).subrange(0, data.len() as int) == data,
    {
        self.lemma_frame_count(data.len());
        lemma_packed_stream(data, self.spec_frame_count(data.len()) * self.spec_bits_per_frame());
    }

    /// What decoding knows, `i` frames in, if the artifact is the encoding
    /// of `data` and the threshold is not zero: the header announced the
    /// data's frames and size, and the decoder is on track.
    pub open spec fn decoding(
        &self,
        data: Seq<u8>,
        bytes: Seq<u8>,
        count: u32,
        original: u64,
        i: int,
        cursor: int,
        bits: Seq<bool>,
    ) -> bool {
        self.threshold >= 1 && self.spec_encode(data) == Ok::<Seq<u8>, Error>(bytes) ==> {
            &&& count == self.blobs(data).len()
            &&& original == data.len()
            &&& self.tracks(data, i, cursor, bits)
        }
    }

    /// The bits of a list of frames, frame after frame.
    pub open spec fn all_bits(&self, frames: Seq<Frame>) -> Seq<bool>
        decreases frames.len(),
    {
        if frames.len() == 0 {
            Seq::<bool>::empty()
        } else {
            self.all_bits(frames.drop_last()) + self.frame_bits(frames.last().pixels@)
        }
    }

    /// Whether every frame is well formed and of this codec's resolution.
    pub open spec fn frames_fit(&self, frames: Seq<Frame>) -> bool {
        forall|i: int|
            0 <= i < frames.len() ==> {
                &&& (#[trigger] frames[i]).wf()
                &&& frames[i].width == self.resolution.0
                &&& frames[i].height == self.resolution.1
            }
    }

    /// What a list of frames decodes to: `Config` for an unusable codec,
    /// `CodecFormat` for a frame that does not fit, `CodecTruncated` where
    /// the frames carry fewer than `expected_size` bytes; otherwise their
    /// bits packed into bytes and cut to that size.
    pub open spec fn spec_decode_from_frames(&self, frames: Seq<Frame>, expected_size: usize) -> Result<
        Seq<u8>,
        Error,
    > {
        if !self.usable() {
            Err(Error::Config)
        } else if !self.frames_fit(frames) {
            Err(Error::CodecFormat)
        } else if packed(self.all_bits(frames)).len() < expected_size {
            Err(Error::CodecTruncated)
        } else {
            Ok(packed(self.all_bits(frames)).subrange(0, expected_size as int))
        }
    }

    /// Reads the bits of decoded frames and packs them into bytes.
    pub fn decode_from_frames(&self, frames: &Vec<Frame>, expected_size: usize) -> (r: Result<
        Vec<u8>,
        Error,
    >)
        ensures
            match r {
                Ok(data) => self.spec_decode_from_frames(frames@, expected_size) == Ok::<
                    Seq<u8>,
                    Error,
                >(data@),
                Err(e) => self.spec_decode_from_frames(frames@, expected_size) == Err::<
                    Seq<u8>,
                    Error,
                >(e),
            },
    {
        if !self.is_usable() {
            return Err(Error::Config);
        }
        let mut i: usize = 0;
        while i < frames.len()
            invariant
                self.usable(),
                i <= frames@.len(),
                self.frames_fit(frames@.take(i as int)),
            decreases frames@.len() - i,
        {
            let frame = &frames[i];
            let fits = frame.width == self.resolution.0 && frame.height == self.resolution.1
                && frame.pixels.len() as u128 == 4 * (area(frame.width, frame.height) as u128);
            proof {
                assert(4 * frame.width * frame.height == 4 * (frame.width * frame.height))
                    by (nonlinear_arith);
            }
            if !fits {
                assert(!(frames@[i as int].wf() && frames@[i as int].width == self.resolution.0
                    && frames@[i as int].height == self.resolution.1));
                return Err(Error::CodecFormat);
            }
            assert(self.frames_fit(frames@.take(i + 1))) by {
                assert forall|j: int| 0 <= j < i + 1 implies {
                    &&& (#[trigger] frames@.take(i + 1)[j]).wf()
                    &&& frames@.take(i + 1)[j].width == self.resolution.0
                    &&& frames@.take(i + 1)[j].height == self.resolution.1
                } by {
                    if j < i {
                        assert(frames@.take(i as int)[j] == frames@.take(i + 1)[j]);
                    }
                }
            }
            i += 1;
        }
        assert(frames@.take(i as int) =~= frames@);
        let mut bits: Vec<bool> = Vec::new();
        let mut f: usize = 0;
        assert(frames@.take(0) =~= Seq::<Frame>::empty());
        while f < frames.len()
            invariant
                self.usable(),
                self.frames_fit(frames@),
                f <= frames@.len(),
                bits@ == self.all_bits(frames@.take(f as int)),
            decreases frames@.len() - f,
        {
            let mut read = self.read_frame(&frames[f]);
            proof {
                let upto = frames@.take(f + 1);
                assert(upto.drop_last() =~= frames@.take(f as int));
                assert(upto.last() == frames@[f as int]);
            }
            bits.append(&mut read);
            f += 1;
        }
        assert(frames@.take(f as int) =~= frames@);
        let available = bits.len() / 8 + (if bits.len() % 8 == 0 { 0usize } else { 1usize });
        assert(available == packed(bits@).len());
        if available < expected_size {
            return Err(Error::CodecTruncated);
        }
        Ok(pack_bits(&bits, expected_size))
    }

    /// The estimate for an input of the given size: every frame at one and
    /// a half times its raw size, plus the header and one length prefix a
    /// frame; saturating, and zero for a codec whose frames carry no bit.
    pub open spec fn spec_estimate_size(&self, input_size: usize) -> int {
        if self.spec_bits_per_frame() < 1 {
            0
        } else {
            let frames = self.spec_frame_count(input_size as nat);
            let estimate = frames * (4 * (self.width() * self.height())) * 3 / 2 + 12 + frames * 4;
            if estimate <= usize::MAX {
                estimate
            } else {
                usize::MAX as int
            }
        }
    }
}

impl Default for PixelEncoder {
    /// The default codec.
    fn default() -> (encoder: PixelEncoder)
        ensures
            encoder == PixelEncoder::spec_default(),
    {
        PixelEncoder::new()
    }
}

impl Encoder for PixelEncoder {
    /// Encodes `data` as a container of PNG frames.
    fn encode(&self, data: &[u8]) -> (r: Result<EncodedData, Error>)
        ensures
            match r {
                Ok(encoded) => {
                    &&& self.spec_encode(data@) == Ok::<Seq<u8>, Error>(encoded.data@)
                    &&& encoded.metadata.original_size == data@.len()
                    &&& encoded.metadata.encoded_size == encoded.data@.len()
                    &&& encoded.format@ == "png_sequence"@
                    &&& encoded.metadata.strategy@ == "pixel"@
                },
                Err(e) => self.spec_encode(data@) == Err::<Seq<u8>, Error>(e),
            },
    {
        if !self.is_usable() {
            return Err(Error::Config);
        }
        let count = match self.frame_count(data.len()) {
            Some(count) => count,
            None => {
                return Err(Error::CodecFormat);
            },
        };
        let ghost blobs = self.blobs(data@);
        let ghost header = container_header_bytes(count, data@.len() as u64);
        let mut out = container_header(count, data.len() as u64);
        let mut f: u32 = 0;
        assert(blobs.take(0) =~= Seq::<Seq<u8>>::empty());
        assert(out@ =~= header + framed(blobs.take(0)));
        while f < count
            invariant
                self.usable(),
                count == self.spec_frame_count(data@.len()),
                blobs == self.blobs(data@),
                header == container_header_bytes(count, data@.len() as u64),
                f <= count,
                out@ == header + framed(blobs.take(f as int)),
                forall|g: int|
                    0 <= g < f ==> {
                        &&& (#[trigger] self.frame_blob(data@, g)) is Some
                        &&& self.frame_blob(data@, g).unwrap().len() <= u32::MAX
                    },
            decreases count - f,
        {
            let frame = self.create_frame(data, f);
            let mut blob = match png_encode(&frame) {
                Ok(blob) => blob,
                Err(_) => {
                    assert(self.frame_blob(data@, f as int) is None);
                    return Err(Error::CodecFormat);
                },
            };
            assert(self.frame_blob(data@, f as int) == Some(blob@));
            if blob.len() > u32::MAX as usize {
                return Err(Error::CodecFormat);
            }
            proof {
                let next = blobs.take(f + 1);
                assert(next.drop_last() =~= blobs.take(f as int));
                assert(next.last() == blob@);
            }
            append_blob(&mut out, &mut blob);
            assert(out@ =~= header + framed(blobs.take(f + 1)));
            f += 1;
        }
        assert(blobs.take(count as int) =~= blobs);
        let encoded_size = out.len();
        let mut parameters: Vec<(String, u64)> = Vec::new();
        parameters.push(("block_size".to_owned(), self.block_size as u64));
        parameters.push(("width".to_owned(), self.resolution.0 as u64));
        parameters.push(("height".to_owned(), self.resolution.1 as u64));
        parameters.push(("fps".to_owned(), self.fps as u64));
        parameters.push(("frame_count".to_owned(), count as u64));
        Ok(
            EncodedData {
                data: out,
                format: "png_sequence".to_owned(),
                metadata: EncodingMetadata {
                    original_size: data.len(),
                    encoded_size,
                    strategy: "pixel".to_owned(),
                    parameters,
                },
            },
        )
    }

    /// Decodes an artifact of this codec.
    ///
    /// The result is exactly what `spec_decode` describes. In particular,
    /// with a threshold of at least one, the artifact that this codec emits
    /// for a byte string decodes to that byte string.
    fn decode(&self, encoded: &EncodedData) -> (r: Result<Vec<u8>, Error>)
        ensures
            match r {
                Ok(data) => self.spec_decode(encoded.data@) == Ok::<Seq<u8>, Error>(data@),
                Err(e) => self.spec_decode(encoded.data@) == Err::<Seq<u8>, Error>(e),
            },
            forall|data: Seq<u8>|
                #![trigger self.spec_encode(data)]
                self.threshold >= 1 && self.spec_encode(data) == Ok::<Seq<u8>, Error>(
                    encoded.data@,
                ) ==> r is Ok && r.unwrap()@ == data,
    {
        if !self.is_usable() {
            return Err(Error::Config);
        }
        let bytes = encoded.data.as_slice();
        let len = bytes.len();
        if len < 12 {
            proof {
                assert forall|data: Seq<u8>|
                    self.spec_encode(data) == Ok::<Seq<u8>, Error>(bytes@) implies false by {
                    self.lemma_decode_start(data, bytes@);
                }
            }
            return Err(Error::CodecTruncated);
        }
        let count = u32_from_le_bytes(slice_subrange(bytes, 0, 4));
        let original = u64_from_le_bytes(slice_subrange(bytes, 4, 12));
        let mut bits: Vec<bool> = Vec::new();
        let mut cursor: usize = 12;
        let mut i: u32 = 0;
        proof {
            assert(bits@ + Seq::<bool>::empty() =~= bits@);
            assert(bits@ =~= Seq::<bool>::empty());
            assert forall|data: Seq<u8>| #[trigger]
                self.decoding(data, bytes@, count, original, 0, 12, bits@) by {
                if self.spec_encode(data) == Ok::<Seq<u8>, Error>(bytes@) {
                    self.lemma_decode_start(data, bytes@);
                }
            }
        }
        while i < count
            invariant
                self.usable(),
                bytes@ == encoded.data@,
                len == bytes@.len(),
                12 <= cursor <= len,
                i <= count,
                count == spec_u32_from_le_bytes(bytes@.subrange(0, 4)),
                self.frames_bits(bytes@, 12, count as nat) == bits_then(
                    bits@,
                    self.frames_bits(bytes@, cursor as int, (count - i) as nat),
                ),
                forall|data: Seq<u8>| #[trigger]
                    self.decoding(data, bytes@, count, original, i as int, cursor as int, bits@),
            decreases count - i,
        {
            let ghost before = bits@;
            proof {
                assert forall|data: Seq<u8>|
                    self.threshold >= 1 && self.spec_encode(data) == Ok::<Seq<u8>, Error>(
                        bytes@,
                    ) implies self.tracks(data, i as int, cursor as int, before) && i
                    < self.blobs(data).len() && cursor + 4 + self.blobs(data)[i as int].len()
                    <= len && spec_u32_from_le_bytes(bytes@.subrange(cursor as int, cursor + 4))
                    == self.blobs(data)[i as int].len() && bytes@.subrange(
                    cursor + 4,
                    cursor + 4 + self.blobs(data)[i as int].len(),
                ) == self.blobs(data)[i as int] && self.frame_blob(data, i as int) == Some(
                    self.blobs(data)[i as int],
                ) by {
                    assert(self.decoding(
                        data,
                        bytes@,
                        count,
                        original,
                        i as int,
                        cursor as int,
                        before,
                    ));
                    self.lemma_decode_step(data, bytes@, i as int, cursor as int, before);
                }
            }
            if len - cursor < 4 {
                return Err(Error::CodecTruncated);
            }
            let size = u32_from_le_bytes(slice_subrange(bytes, cursor, cursor + 4)) as usize;
            if len - cursor - 4 < size {
                return Err(Error::CodecTruncated);
            }
            let start = cursor + 4;
            let blob = slice_subrange(bytes, start, start + size);
            let frame = match png_decode(blob) {
                Ok(frame) => frame,
                Err(_) => {
                    return Err(Error::CodecFormat);
                },
            };
            proof {
                assert forall|data: Seq<u8>|
                    self.threshold >= 1 && self.spec_encode(data) == Ok::<Seq<u8>, Error>(
                        bytes@,
                    ) implies frame.width == self.resolution.0 && frame.height
                    == self.resolution.1 && frame.pixels@ == self.frame_pixels(data, i as int) by {
                    assert(self.frame_blob(data, i as int) == Some(blob@));
                }
            }
            if frame.width != self.resolution.0 || frame.height != self.resolution.1 {
                return Err(Error::CodecFormat);
            }
            let mut read = self.read_frame(&frame);
            let ghost rest = self.frames_bits(bytes@, (start + size) as int, (count - i - 1) as nat);
            bits.append(&mut read);
            proof {
                match rest {
                    Ok(tail) => {
                        assert(before + (self.frame_bits(frame.pixels@) + tail) =~= bits@ + tail);
                    },
                    Err(_) => {},
                }
                assert forall|data: Seq<u8>| #[trigger]
                    self.decoding(data, bytes@, count, original, i + 1, start + size, bits@) by {
                    if self.threshold >= 1 && self.spec_encode(data) == Ok::<Seq<u8>, Error>(
                        bytes@,
                    ) {
                        assert(self.decoding(
                            data,
                            bytes@,
                            count,
                            original,
                            i as int,
                            cursor as int,
                            before,
                        ));
                        self.lemma_decode_step(data, bytes@, i as int, cursor as int, before);
                    }
                }
            }
            cursor = start + size;
            i += 1;
        }
        assert(bits@ + Seq::<bool>::empty() =~= bits@);
        proof {
            assert forall|data: Seq<u8>|
                self.threshold >= 1 && self.spec_encode(data) == Ok::<Seq<u8>, Error>(
                    bytes@,
                ) implies original == data.len() && packed(bits@).len() >= data.len() && packed(
                bits@,
            ).subrange(0, data.len() as int) == data by {
                assert(self.decoding(
                    data,
                    bytes@,
                    count,
                    original,
                    i as int,
                    cursor as int,
                    bits@,
                ));
                self.lemma_decode_end(data, bytes@, cursor as int, bits@);
            }
        }
        let available = bits.len() / 8 + (if bits.len() % 8 == 0 { 0usize } else { 1usize });
        assert(available == packed(bits@).len());
        if (available as u64) < original {
            return Err(Error::CodecTruncated);
        }
        Ok(pack_bits(&bits, original as usize))
    }

    /// Pixel encoding with the default parameters.
    fn strategy(&self) -> (s: EncodingStrategy)
        ensures
            s == (EncodingStrategy::PixelEncoding {
                block_size: 4,
                fps: 30,
                resolution: (1920u32, 1080u32),
            }),
    {
        EncodingStrategy::PixelEncoding { block_size: 4, fps: 30, resolution: (1920, 1080) }
    }

    /// Estimates the size of the artifact.
    fn estimate_size(&self, input_size: usize) -> (n: usize)
        ensures
            n == self.spec_estimate_size(input_size),
    {
        let per_frame = self.bits_per_frame() as u128;
        if per_frame == 0 {
            return 0;
        }
        let frames = (8 * (input_size as u128) + (per_frame - 1)) / per_frame;
        let raw = 4 * (area(self.resolution.0, self.resolution.1) as u128);
        let ghost exact = frames * raw * 3 / 2 + 12 + frames * 4;
        assert(frames * raw >= 0 && (frames * raw > usize::MAX ==> exact > usize::MAX)) by (nonlinear_arith)
            requires
                frames >= 0,
                raw >= 0,
                exact == frames * raw * 3 / 2 + 12 + frames * 4,
        ;
        let body = match frames.checked_mul(raw) {
            Some(product) => product,
            None => {
                return usize::MAX;
            },
        };
        if body > usize::MAX as u128 {
            return usize::MAX;
        }
        saturate(body * 3 / 2 + 12 + frames * 4)
    }
}

} // verus!
