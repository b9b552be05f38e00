//! Where the pixels of a raster lie in its byte buffer, and the library's errors.
use vstd::prelude::*;
use crate::traversal::{coordinate_count_spec, TraversalStrategy};

verus! {

/// Why an operation on an image failed.
#[derive(Clone, Copy, Debug, PartialEq, Eq, Structural)]
pub enum StegoError {
    /// A file could not be opened, read or written.
    IoError,
    /// The magic bytes are not "BM", or the DIB header is not 40 bytes long.
    UnsupportedFormat,
    /// Bits per pixel are neither 24 nor 32.
    UnsupportedPixelDepth,
    /// The buffer is shorter than its geometry requires, or the geometry is
    /// inconsistent.
    InvalidGeometry,
    /// The payload has more bits than the strategy can place in the image.
    CapacityExceeded,
    /// The encoding is not implemented.
    UnsupportedEncoding,
}

/// The layout of a raster inside its byte buffer.
///
/// Row `r` starts `pixel_data_offset + r * row_stride` bytes into the buffer;
/// pixel `(r, c)` occupies the `channels` bytes from `c * channels` on in that
/// row, and `row_padding` bytes end each row. Rows are numbered in storage
/// order; `top_down` tells whether the first stored row is the top of the
/// picture.
#[derive(Clone, Copy, Debug, PartialEq, Eq, Structural)]
pub struct Geometry {
    pub width: usize,
    pub height: usize,
    pub row_stride: usize,
    pub row_padding: usize,
    pub channels: usize,
    pub pixel_data_offset: usize,
    pub top_down: bool,
}

impl Geometry {
    pub open spec fn wf(&self) -> bool {
        &&& (self.channels == 3 || self.channels == 4)
        &&& self.row_stride == self.width * self.channels + self.row_padding
    }

    /// Bytes that a buffer must hold for this geometry.
    pub open spec fn required_len(&self) -> int {
        self.pixel_data_offset + self.row_stride * self.height
    }

    /// Whether a buffer of `len` bytes holds all the pixel rows.
    pub open spec fn fits(&self, len: int) -> bool {
        self.required_len() <= len
    }

    /// Index of the first byte of pixel `(r, c)`.
    pub open spec fn pixel_start(&self, r: int, c: int) -> int {
        self.pixel_data_offset + r * self.row_stride + c * self.channels
    }

    /// The payload bits a strategy can place: one per channel of each pixel it
    /// visits.
    pub open spec fn capacity(&self, s: TraversalStrategy) -> int {
        coordinate_count_spec(s, self.height as int, self.width as int) * self.channels
    }

    /// Bytes that a buffer must hold, or `None` where that number exceeds `usize`.
    pub fn required_length(&self) -> (n: Option<usize>)
        ensures
            n matches Some(v) ==> v == self.required_len(),
            n is None ==> self.required_len() > usize::MAX,
    {
        match self.row_stride.checked_mul(self.height) {
            Some(rows) => self.pixel_data_offset.checked_add(rows),
            None => {
                assert(self.row_stride * self.height >= 0) by (nonlinear_arith);
                None
            },
        }
    }

    /// Index of the first byte of pixel `(r, c)`.
    pub fn pixel_offset(&self, r: usize, c: usize) -> (at: usize)
        requires
            self.wf(),
            self.required_len() <= usize::MAX,
            r < self.height,
            c < self.width,
        ensures
            at == self.pixel_start(r as int, c as int),
            self.pixel_data_offset <= at,
            at + self.channels <= self.required_len(),
    {
        proof {
            lemma_pixel_in_rows(*self, r as int, c as int);
        }
        self.pixel_data_offset + r * self.row_stride + c * self.channels
    }
}

/// A pixel inside the image lies inside the pixel rows.
pub proof fn lemma_pixel_in_rows(g: Geometry, r: int, c: int)
    requires
        g.wf(),
        0 <= r < g.height,
        0 <= c < g.width,
    ensures
        g.pixel_data_offset <= g.pixel_start(r, c),
        g.pixel_start(r, c) + g.channels <= g.required_len(),
        0 <= r * g.row_stride,
        0 <= c * g.channels,
{
    let s = g.row_stride as int;
    let ch = g.channels as int;
    let w = g.width as int;
    let h = g.height as int;
    assert(0 <= c * ch && c * ch + ch <= w * ch) by (nonlinear_arith)
        requires
            0 <= c < w,
            ch > 0,
    ;
    assert(0 <= r * s && r * s + s <= h * s) by (nonlinear_arith)
        requires
            0 <= r < h,
            s >= 0,
    ;
    assert(s * h == h * s) by (nonlinear_arith);
}

/// Two distinct pixels of the image share no byte.
pub proof fn lemma_pixels_disjoint(g: Geometry, r1: int, c1: int, r2: int, c2: int)
    requires
        g.wf(),
        0 <= r1 < g.height,
        0 <= c1 < g.width,
        0 <= r2 < g.height,
        0 <= c2 < g.width,
        (r1, c1) != (r2, c2),
    ensures
        g.pixel_start(r1, c1) + g.channels <= g.pixel_start(r2, c2) || g.pixel_start(r2, c2)
            + g.channels <= g.pixel_start(r1, c1),
{
    let s = g.row_stride as int;
    let ch = g.channels as int;
    let w = g.width as int;
    if r1 == r2 {
        if c1 < c2 {
            assert(c1 * ch + ch <= c2 * ch) by (nonlinear_arith)
                requires
                    c1 < c2,
                    ch > 0,
            ;
        } else {
            assert(c2 * ch + ch <= c1 * ch) by (nonlinear_arith)
                requires
                    c2 < c1,
                    ch > 0,
            ;
        }
    } else {
        assert(c1 * ch + ch <= w * ch && c2 * ch + ch <= w * ch && 0 <= c1 * ch && 0 <= c2 * ch)
            by (nonlinear_arith)
            requires
                0 <= c1 < w,
                0 <= c2 < w,
                ch > 0,
        ;
        if r1 < r2 {
            assert(r1 * s + s <= r2 * s) by (nonlinear_arith)
                requires
                    r1 < r2,
                    s >= 0,
            ;
        } else {
            assert(r2 * s + s <= r1 * s) by (nonlinear_arith)
                requires
                    r2 < r1,
                    s >= 0,
            ;
        }
    }
}

/// A geometry that fits in a buffer keeps the image's pixel count and its
/// capacity within `usize`.
pub proof fn lemma_fitting_sizes(g: Geometry, s: TraversalStrategy, len: int)
    requires
        g.wf(),
        g.fits(len),
        len <= usize::MAX,
    ensures
        g.height * g.width <= usize::MAX,
        0 <= coordinate_count_spec(s, g.height as int, g.width as int) <= g.height * g.width,
        0 <= g.capacity(s) <= g.height * g.width * g.channels,
        g.capacity(s) <= usize::MAX,
{
    let h = g.height as int;
    let w = g.width as int;
    let ch = g.channels as int;
    let st = g.row_stride as int;
    assert(h * w <= h * w * ch && h * w * ch <= st * h && 0 <= h * w) by (nonlinear_arith)
        requires
            st == w * ch + g.row_padding,
            g.row_padding >= 0,
            ch >= 1,
            h >= 0,
            w >= 0,
    ;
    let n = coordinate_count_spec(s, h, w);
    assert(0 <= n <= h * w) by {
        if h > 0 && w > 0 {
            assert(h <= h * w && w <= h * w) by (nonlinear_arith)
                requires
                    h > 0,
                    w > 0,
            ;
        }
    }
    assert(n * ch <= h * w * ch && 0 <= n * ch) by (nonlinear_arith)
        requires
            0 <= n <= h * w,
            ch >= 1,
    ;
}

/// The geometry of a bare pixel map: `length` rows of `width` pixels of
/// `pixel_size_bytes` bytes, each row followed by `padding` bytes, from the
/// map's first byte on.
pub open spec fn pixel_map_geometry(width: u64, length: u64, padding: u64, pixel_size_bytes: u64) -> Geometry {
    Geometry {
        width: width as usize,
        height: length as usize,
        row_stride: (width * pixel_size_bytes + padding) as usize,
        row_padding: padding as usize,
        channels: pixel_size_bytes as usize,
        pixel_data_offset: 0,
        top_down: false,
    }
}

/// Whether those numbers describe a pixel map that `usize` can index.
pub open spec fn pixel_map_geometry_ok(width: u64, length: u64, padding: u64, pixel_size_bytes: u64) -> bool {
    &&& (pixel_size_bytes == 3 || pixel_size_bytes == 4)
    &&& width * pixel_size_bytes + padding <= usize::MAX
    &&& length <= usize::MAX
}

/// The geometry of a bare pixel map, or `None` where the numbers describe none.
pub fn make_pixel_map_geometry(width: u64, length: u64, padding: u64, pixel_size_bytes: u64) -> (g:
    Option<Geometry>)
    ensures
        pixel_map_geometry_ok(width, length, padding, pixel_size_bytes) ==> g == Some(
            pixel_map_geometry(width, length, padding, pixel_size_bytes),
        ),
        !pixel_map_geometry_ok(width, length, padding, pixel_size_bytes) ==> g is None,
        g matches Some(v) ==> v.wf(),
{
    if pixel_size_bytes != 3 && pixel_size_bytes != 4 {
        return None;
    }
    let stride = match width.checked_mul(pixel_size_bytes) {
        None => {
            return None;
        },
        Some(row_bytes) => match row_bytes.checked_add(padding) {
            None => {
                return None;
            },
            Some(stride) => stride,
        },
    };
    if stride > usize::MAX as u64 || length > usize::MAX as u64 {
        return None;
    }
    assert(width <= stride) by (nonlinear_arith)
        requires
            stride == width * pixel_size_bytes + padding,
            pixel_size_bytes >= 3,
    ;
    Some(
        Geometry {
            width: width as usize,
            height: length as usize,
            row_stride: stride as usize,
            row_padding: padding as usize,
            channels: pixel_size_bytes as usize,
            pixel_data_offset: 0,
            top_down: false,
        },
    )
}

} // verus!
