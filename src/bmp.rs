//! The BMP container: a 14-byte file header, a 40-byte BITMAPINFOHEADER at
//! offset 14, and 24- or 32-bit pixel rows padded to four bytes.
use vstd::prelude::*;
use crate::encoding::{FileEncoding, FileEncodingSupport};
use crate::engine::{embed_lsb, embed_outcome, extract_lsb, extract_outcome};
use crate::geometry::{Geometry, StegoError};
use crate::pixel::{RgbPixel, RgbaPixel};
use crate::traversal::TraversalStrategy;

verus! {

/// "BM", read little-endian.
pub const BMP_MAGIC: u16 = 0x4D42;

/// Size of the one DIB header variant read here.
pub const DIB_HEADER_SIZE: u32 = 40;

/// Offset of the DIB header.
pub const FILE_HEADER_SIZE: usize = 14;

/// Bytes taken by both headers.
pub const HEADERS_SIZE: usize = 54;

/// The 16-bit little-endian number at `at`.
pub open spec fn u16_le(b: Seq<u8>, at: int) -> int {
    b[at] + 256 * b[at + 1]
}

/// The 32-bit little-endian number at `at`.
pub open spec fn u32_le(b: Seq<u8>, at: int) -> int {
    b[at] + 256 * b[at + 1] + 65536 * b[at + 2] + 16777216 * b[at + 3]
}

/// The 32-bit little-endian two's-complement number at `at`.
pub open spec fn i32_le(b: Seq<u8>, at: int) -> int {
    if u32_le(b, at) >= 0x8000_0000 {
        u32_le(b, at) - 0x1_0000_0000
    } else {
        u32_le(b, at)
    }
}

fn read_u16_le(b: &[u8], at: usize) -> (v: u16)
    requires
        at + 2 <= b@.len(),
    ensures
        v == u16_le(b@, at as int),
{
    b[at] as u16 + (b[at + 1] as u16) * 256
}

fn read_u32_le(b: &[u8], at: usize) -> (v: u32)
    requires
        at + 4 <= b@.len(),
    ensures
        v == u32_le(b@, at as int),
{
    b[at] as u32 + (b[at + 1] as u32) * 256 + (b[at + 2] as u32) * 65536 + (b[at + 3] as u32)
        * 16777216
}

fn read_i32_le(b: &[u8], at: usize) -> (v: i32)
    requires
        at + 4 <= b@.len(),
    ensures
        v == i32_le(b@, at as int),
{
    let u = read_u32_le(b, at);
    if u >= 0x8000_0000 {
        let w: i64 = u as i64 - 0x1_0000_0000i64;
        w as i32
    } else {
        u as i32
    }
}

/// The fixed 14-byte file header.
#[derive(Clone, Copy, Debug, PartialEq, Eq, Structural)]
pub struct BitmapFileHeader {
    /// "BM" for a bitmap.
    pub bf_type: u16,
    /// Size of the file in bytes.
    pub bf_size: u32,
    pub bf_reserved1: u16,
    pub bf_reserved2: u16,
    /// Offset of the pixel data.
    pub bf_off_bits: u32,
}

/// The 40-byte BITMAPINFOHEADER.
#[derive(Clone, Copy, Debug, PartialEq, Eq, Structural)]
pub struct BitmapDIBHeader {
    /// Size of this header: 40.
    pub bi_size: u32,
    pub bi_width: i32,
    /// Height in pixels: positive for bottom-up rows, negative for top-down.
    pub bi_height: i32,
    pub bi_planes: u16,
    /// Bits per pixel.
    pub bi_bit_count: u16,
    pub bi_compression: u32,
    pub bi_size_image: u32,
    pub bi_x_pels_per_meter: i32,
    pub bi_y_pels_per_meter: i32,
    pub bi_clr_used: u32,
    pub bi_clr_important: u32,
}

/// A colour-table entry; palette images are not read here.
#[derive(Clone, Copy, Debug, PartialEq, Eq, Structural)]
pub struct BitmapColorTable {
    pub blue: u8,
    pub green: u8,
    pub red: u8,
    pub reserved: u8,
}

/// Size and place of the pixel map.
#[derive(Clone, Copy, Debug, PartialEq, Eq, Structural)]
pub struct BmpBitmap {
    pub width: u32,
    pub height: u32,
    /// Offset in the file where the pixel rows begin.
    pub pixel_map_start: u64,
}

/// The file header that the first 14 bytes encode.
pub open spec fn file_header_of(b: Seq<u8>) -> BitmapFileHeader {
    BitmapFileHeader {
        bf_type: u16_le(b, 0) as u16,
        bf_size: u32_le(b, 2) as u32,
        bf_reserved1: u16_le(b, 6) as u16,
        bf_reserved2: u16_le(b, 8) as u16,
        bf_off_bits: u32_le(b, 10) as u32,
    }
}

/// The DIB header that the 40 bytes from offset 14 encode.
pub open spec fn dib_header_of(b: Seq<u8>) -> BitmapDIBHeader {
    BitmapDIBHeader {
        bi_size: u32_le(b, 14) as u32,
        bi_width: i32_le(b, 18) as i32,
        bi_height: i32_le(b, 22) as i32,
        bi_planes: u16_le(b, 26) as u16,
        bi_bit_count: u16_le(b, 28) as u16,
        bi_compression: u32_le(b, 30) as u32,
        bi_size_image: u32_le(b, 34) as u32,
        bi_x_pels_per_meter: i32_le(b, 38) as i32,
        bi_y_pels_per_meter: i32_le(b, 42) as i32,
        bi_clr_used: u32_le(b, 46) as u32,
        bi_clr_important: u32_le(b, 50) as u32,
    }
}

impl BitmapFileHeader {
    pub open spec fn empty_spec() -> BitmapFileHeader {
        BitmapFileHeader { bf_type: 0, bf_size: 0, bf_reserved1: 0, bf_reserved2: 0, bf_off_bits: 0 }
    }

    /// A header of zeros.
    pub fn empty() -> (h: BitmapFileHeader)
        ensures
            h == Self::empty_spec(),
    {
        BitmapFileHeader { bf_type: 0, bf_size: 0, bf_reserved1: 0, bf_reserved2: 0, bf_off_bits: 0 }
    }

    /// Decodes the file header from the first 14 bytes.
    pub fn decode(b: &[u8]) -> (h: BitmapFileHeader)
        requires
            b@.len() >= 14,
        ensures
            h == file_header_of(b@),
    {
        BitmapFileHeader {
            bf_type: read_u16_le(b, 0),
            bf_size: read_u32_le(b, 2),
            bf_reserved1: read_u16_le(b, 6),
            bf_reserved2: read_u16_le(b, 8),
            bf_off_bits: read_u32_le(b, 10),
        }
    }
}

impl BitmapDIBHeader {
    pub open spec fn empty_spec() -> BitmapDIBHeader {
        BitmapDIBHeader {
            bi_size: 0,
            bi_width: 0,
            bi_height: 0,
            bi_planes: 0,
            bi_bit_count: 0,
            bi_compression: 0,
            bi_size_image: 0,
            bi_x_pels_per_meter: 0,
            bi_y_pels_per_meter: 0,
            bi_clr_used: 0,
            bi_clr_important: 0,
        }
    }

    /// A header of zeros.
    pub fn empty() -> (h: BitmapDIBHeader)
        ensures
            h == Self::empty_spec(),
    {
        BitmapDIBHeader {
            bi_size: 0,
            bi_width: 0,
            bi_height: 0,
            bi_planes: 0,
            bi_bit_count: 0,
            bi_compression: 0,
            bi_size_image: 0,
            bi_x_pels_per_meter: 0,
            bi_y_pels_per_meter: 0,
            bi_clr_used: 0,
            bi_clr_important: 0,
        }
    }

    /// Decodes the DIB header from the 40 bytes at offset 14.
    pub fn decode(b: &[u8]) -> (h: BitmapDIBHeader)
        requires
            b@.len() >= 54,
        ensures
            h == dib_header_of(b@),
    {
        BitmapDIBHeader {
            bi_size: read_u32_le(b, 14),
            bi_width: read_i32_le(b, 18),
            bi_height: read_i32_le(b, 22),
            bi_planes: read_u16_le(b, 26),
            bi_bit_count: read_u16_le(b, 28),
            bi_compression: read_u32_le(b, 30),
            bi_size_image: read_u32_le(b, 34),
            bi_x_pels_per_meter: read_i32_le(b, 38),
            bi_y_pels_per_meter: read_i32_le(b, 42),
            bi_clr_used: read_u32_le(b, 46),
            bi_clr_important: read_u32_le(b, 50),
        }
    }
}

/// Bytes per row: the row's pixel bytes rounded up to a multiple of four.
pub open spec fn row_stride_of(width: int, channels: int) -> int {
    ((width * channels + 3) / 4) * 4
}

/// What parsing a file of bytes `b` yields: its geometry, or the first check
/// that fails, in this order: the magic is "BM"; the DIB header is 40 bytes;
/// the width is positive; bits per pixel are 24 or 32; the row stride fits a
/// `usize`; the buffer holds the pixel data offset plus the row stride times
/// the height's absolute value.
pub open spec fn parse_spec(b: Seq<u8>) -> Result<Geometry, StegoError> {
    if b.len() < 14 || u16_le(b, 0) != 0x4D42 {
        Err(StegoError::UnsupportedFormat)
    } else if b.len() < 54 || u32_le(b, 14) != 40 {
        Err(StegoError::UnsupportedFormat)
    } else if i32_le(b, 18) <= 0 {
        Err(StegoError::InvalidGeometry)
    } else if u16_le(b, 28) != 24 && u16_le(b, 28) != 32 {
        Err(StegoError::UnsupportedPixelDepth)
    } else {
        let w = i32_le(b, 18);
        let h = if i32_le(b, 22) < 0 {
            -i32_le(b, 22)
        } else {
            i32_le(b, 22)
        };
        let ch = u16_le(b, 28) / 8;
        let stride = row_stride_of(w, ch);
        let offset = u32_le(b, 10);
        if stride > usize::MAX || offset + stride * h > b.len() {
            Err(StegoError::InvalidGeometry)
        } else {
            Ok(
                Geometry {
                    width: w as usize,
                    height: h as usize,
                    row_stride: stride as usize,
                    row_padding: (stride - w * ch) as usize,
                    channels: ch as usize,
                    pixel_data_offset: offset as usize,
                    top_down: i32_le(b, 22) < 0,
                },
            )
        }
    }
}

/// Parses the headers of a BMP file held in `b` and derives where its pixels
/// lie. The length check runs before any pixel is read.
pub fn parse_geometry(b: &[u8]) -> (r: Result<Geometry, StegoError>)
    ensures
        r == parse_spec(b@),
        r matches Ok(g) ==> g.wf() && g.fits(b@.len() as int) && g.row_stride % 4 == 0
            && g.row_padding < 4,
{
    let len = b.len();
    if len < FILE_HEADER_SIZE || read_u16_le(b, 0) != BMP_MAGIC {
        return Err(StegoError::UnsupportedFormat);
    }
    if len < HEADERS_SIZE || read_u32_le(b, 14) != DIB_HEADER_SIZE {
        return Err(StegoError::UnsupportedFormat);
    }
    let width = read_i32_le(b, 18);
    if width <= 0 {
        return Err(StegoError::InvalidGeometry);
    }
    let bits = read_u16_le(b, 28);
    if bits != 24 && bits != 32 {
        return Err(StegoError::UnsupportedPixelDepth);
    }
    let dib_height = read_i32_le(b, 22);
    let height: u64 = if dib_height < 0 {
        (-(dib_height as i64)) as u64
    } else {
        dib_height as u64
    };
    let channels: u64 = (bits / 8) as u64;
    assert(channels == 3 || channels == 4);
    assert(1 <= width as u64 * channels <= 0x2_0000_0000) by (nonlinear_arith)
        requires
            1 <= width <= 0x7fff_ffff,
            3 <= channels <= 4,
    ;
    let row_bytes: u64 = width as u64 * channels;
    let stride: u64 = (row_bytes + 3) / 4 * 4;
    assert(4 <= stride <= 0x2_0000_0004);
    assert(height <= 0x8000_0000);
    assert(stride as u128 * height as u128 <= 0x2_0000_0004 * 0x8000_0000) by (nonlinear_arith)
        requires
            stride <= 0x2_0000_0004,
            height <= 0x8000_0000,
    ;
    let offset = read_u32_le(b, 10);
    let required: u128 = offset as u128 + stride as u128 * height as u128;
    if stride > usize::MAX as u64 || required > len as u128 {
        return Err(StegoError::InvalidGeometry);
    }
    proof {
        assert(stride * height <= len);
        assert(height <= len) by (nonlinear_arith)
            requires
                stride * height <= len,
                stride >= 4,
        ;
    }
    let g = Geometry {
        width: width as usize,
        height: height as usize,
        row_stride: stride as usize,
        row_padding: (stride - row_bytes) as usize,
        channels: channels as usize,
        pixel_data_offset: offset as usize,
        top_down: dib_height < 0,
    };
    Ok(g)
}

/// A BMP file held in memory, with its decoded headers.
///
/// `new` gives an empty parser; `parse_file` reads the headers of a file's
/// bytes and derives its geometry; the embedding methods then change the
/// pixel bytes in place, and `file_data` is the file to write back.
#[derive(Debug)]
pub struct BmpImageParser {
    pub bmp_header: BitmapFileHeader,
    pub bmp_dib_header: BitmapDIBHeader,
    /// Bytes per pixel: 3 or 4.
    pub pixel_size: u8,
    /// Bytes of padding at the end of each row.
    pub padding_size: u8,
    pub pixel_map: BmpBitmap,
    /// The whole file.
    pub file_data: Vec<u8>,
    /// Whether a file was parsed.
    pub ready: bool,
}

impl BmpImageParser {
    /// Whether the fields describe a geometry that the engine can use.
    pub open spec fn has_geometry(&self) -> bool {
        &&& self.ready
        &&& (self.pixel_size == 3 || self.pixel_size == 4)
        &&& self.pixel_map.width * self.pixel_size + self.padding_size <= usize::MAX
        &&& self.pixel_map.pixel_map_start <= usize::MAX
    }

    /// The geometry that the fields describe.
    pub open spec fn spec_geometry(&self) -> Geometry {
        Geometry {
            width: self.pixel_map.width as usize,
            height: self.pixel_map.height as usize,
            row_stride: (self.pixel_map.width * self.pixel_size + self.padding_size) as usize,
            row_padding: self.padding_size as usize,
            channels: self.pixel_size as usize,
            pixel_data_offset: self.pixel_map.pixel_map_start as usize,
            top_down: self.bmp_dib_header.bi_height < 0,
        }
    }

    /// The geometry of the parsed file, or `None` before a file was parsed.
    pub fn geometry(&self) -> (g: Option<Geometry>)
        ensures
            self.has_geometry() ==> g == Some(self.spec_geometry()),
            !self.has_geometry() ==> g is None,
            g matches Some(v) ==> v.wf(),
    {
        if !self.ready || (self.pixel_size != 3 && self.pixel_size != 4) {
            return None;
        }
        let ps = self.pixel_size as u64;
        let row = self.pixel_map.width as u64 * ps + self.padding_size as u64;
        if row > usize::MAX as u64 || self.pixel_map.pixel_map_start > usize::MAX as u64 {
            return None;
        }
        Some(
            Geometry {
                width: self.pixel_map.width as usize,
                height: self.pixel_map.height as usize,
                row_stride: row as usize,
                row_padding: self.padding_size as usize,
                channels: self.pixel_size as usize,
                pixel_data_offset: self.pixel_map.pixel_map_start as usize,
                top_down: self.bmp_dib_header.bi_height < 0,
            },
        )
    }
}

impl FileEncodingSupport for BmpImageParser {
    open spec fn parsed(&self) -> bool {
        self.ready
    }

    open spec fn contents(&self) -> Seq<u8> {
        self.file_data@
    }

    /// An empty parser: every header field zero, no file data, not ready.
    fn new() -> (c: Self)
        ensures
            c.bmp_header == BitmapFileHeader::empty_spec(),
            c.bmp_dib_header == BitmapDIBHeader::empty_spec(),
            c.pixel_size == 0,
            c.padding_size == 0,
            c.pixel_map == (BmpBitmap { width: 0, height: 0, pixel_map_start: 0 }),
            c.file_data@.len() == 0,
    {
        BmpImageParser {
            bmp_header: BitmapFileHeader::empty(),
            bmp_dib_header: BitmapDIBHeader::empty(),
            pixel_size: 0,
            padding_size: 0,
            pixel_map: BmpBitmap { width: 0, height: 0, pixel_map_start: 0 },
            file_data: Vec::new(),
            ready: false,
        }
    }

    /// Parses the bytes of a BMP file: the outcome is `parse_spec` of them; on
    /// success the headers are decoded and the fields give the parsed geometry.
    fn parse_file(&mut self, file_data: Vec<u8>) -> (r: Result<(), StegoError>)
        ensures
            r is Ok <==> parse_spec(file_data@) is Ok,
            r matches Err(e) ==> parse_spec(file_data@) == Err::<Geometry, StegoError>(e),
            r is Ok ==> final(self).has_geometry() && parse_spec(file_data@) == Ok::<
                Geometry,
                StegoError,
            >(final(self).spec_geometry()) && final(self).bmp_header == file_header_of(
                file_data@,
            ) && final(self).bmp_dib_header == dib_header_of(file_data@),
    {
        let parsed = parse_geometry(file_data.as_slice());
        match parsed {
            Err(e) => Err(e),
            Ok(g) => {
                self.bmp_header = BitmapFileHeader::decode(file_data.as_slice());
                self.bmp_dib_header = BitmapDIBHeader::decode(file_data.as_slice());
                self.pixel_size = g.channels as u8;
                self.padding_size = g.row_padding as u8;
                self.pixel_map = BmpBitmap {
                    width: g.width as u32,
                    height: g.height as u32,
                    pixel_map_start: g.pixel_data_offset as u64,
                };
                self.file_data = file_data;
                self.ready = true;
                Ok(())
            },
        }
    }

    /// Hides `data` with the least-significant-bit encoding along `strategy`:
    /// the outcome is `embed_outcome` on the file's bytes and geometry. Other
    /// encodings fail with `UnsupportedEncoding`, an unparsed file with
    /// `InvalidGeometry`.
    fn embed_data(
        &mut self,
        data: &[u8],
        encoding: FileEncoding,
        strategy: &TraversalStrategy,
    ) -> (r: Result<(), StegoError>)
        ensures
            encoding != FileEncoding::Lsb ==> r == Err::<(), StegoError>(
                StegoError::UnsupportedEncoding,
            ),
            encoding == FileEncoding::Lsb && !old(self).has_geometry() ==> r == Err::<
                (),
                StegoError,
            >(StegoError::InvalidGeometry),
            encoding == FileEncoding::Lsb && old(self).has_geometry() ==> match embed_outcome(
                old(self).file_data@,
                data@,
                *strategy,
                old(self).spec_geometry(),
            ) {
                Ok(bytes) => r is Ok && final(self).file_data@ == bytes,
                Err(e) => r == Err::<(), StegoError>(e),
            },
            final(self).bmp_header == old(self).bmp_header,
            final(self).bmp_dib_header == old(self).bmp_dib_header,
            final(self).pixel_size == old(self).pixel_size,
            final(self).padding_size == old(self).padding_size,
            final(self).pixel_map == old(self).pixel_map,
            final(self).ready == old(self).ready,
    {
        if encoding != FileEncoding::Lsb {
            return Err(StegoError::UnsupportedEncoding);
        }
        let g = match self.geometry() {
            Some(g) => g,
            None => {
                return Err(StegoError::InvalidGeometry);
            },
        };
        if self.pixel_size == 3 {
            embed_lsb::<RgbPixel>(data, self.file_data.as_mut_slice(), &g, strategy)
        } else {
            embed_lsb::<RgbaPixel>(data, self.file_data.as_mut_slice(), &g, strategy)
        }
    }

    /// Recovers `bit_count` bits hidden with the least-significant-bit
    /// encoding along `strategy`: the outcome is `extract_outcome` on the file's
    /// bytes and geometry. Other encodings fail with `UnsupportedEncoding`, an
    /// unparsed file with `InvalidGeometry`.
    fn retrieve_data(
        &self,
        bit_count: usize,
        encoding: FileEncoding,
        strategy: &TraversalStrategy,
    ) -> (r: Result<Vec<u8>, StegoError>)
        ensures
            encoding != FileEncoding::Lsb ==> r == Err::<Vec<u8>, StegoError>(
                StegoError::UnsupportedEncoding,
            ),
            encoding == FileEncoding::Lsb && !self.has_geometry() ==> r == Err::<
                Vec<u8>,
                StegoError,
            >(StegoError::InvalidGeometry),
            encoding == FileEncoding::Lsb && self.has_geometry() ==> match extract_outcome(
                self.file_data@,
                *strategy,
                self.spec_geometry(),
                bit_count as nat,
            ) {
                Ok(bytes) => r matches Ok(out) && out@ == bytes,
                Err(e) => r == Err::<Vec<u8>, StegoError>(e),
            },
    {
        if encoding != FileEncoding::Lsb {
            return Err(StegoError::UnsupportedEncoding);
        }
        let g = match self.geometry() {
            Some(g) => g,
            None => {
                return Err(StegoError::InvalidGeometry);
            },
        };
        if self.pixel_size == 3 {
            extract_lsb::<RgbPixel>(self.file_data.as_slice(), &g, strategy, bit_count)
        } else {
            extract_lsb::<RgbaPixel>(self.file_data.as_slice(), &g, strategy, bit_count)
        }
    }
}

} // verus!
