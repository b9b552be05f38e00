//! Pixel views: a pixel record of three or four channel bytes, read and written
//! by semantic name (red, green, blue, alpha) or by position (first to fourth).
use vstd::prelude::*;

verus! {

/// `s` with the bytes at `at .. at + part.len()` replaced by `part`.
pub open spec fn splice(s: Seq<u8>, at: int, part: Seq<u8>) -> Seq<u8> {
    s.subrange(0, at) + part + s.subrange(at + part.len(), s.len() as int)
}

/// A pixel record of `layout_size()` channel bytes.
///
/// Positional accessors are stable for a layout but say nothing of which colour
/// a position holds. On a layout without a fourth channel the fourth and alpha
/// accessors read 255 and their setters leave the pixel as it is.
pub trait Pixel: Sized {
    /// The channel bytes in positional order, first to last.
    spec fn channels(&self) -> Seq<u8>;

    /// Number of channels of every pixel of this layout.
    spec fn layout_size() -> nat;

    spec fn spec_red(&self) -> u8;

    spec fn spec_green(&self) -> u8;

    spec fn spec_blue(&self) -> u8;

    spec fn spec_alpha(&self) -> u8;

    proof fn lemma_layout(&self)
        ensures
            self.channels().len() == Self::layout_size(),
            Self::layout_size() == 3 || Self::layout_size() == 4,
    ;

    /// Number of channels of this layout.
    fn layout_channels() -> (n: usize)
        ensures
            n == Self::layout_size(),
    ;

    /// Decodes the pixel whose channels are the bytes at `at ..`.
    fn read_at(bytes: &[u8], at: usize) -> (p: Self)
        requires
            at + Self::layout_size() <= bytes@.len(),
        ensures
            p.channels() == bytes@.subrange(at as int, at + Self::layout_size()),
    ;

    /// Encodes the pixel into the bytes at `at ..`; no other byte changes.
    fn write_at(&self, bytes: &mut [u8], at: usize)
        requires
            at + Self::layout_size() <= old(bytes)@.len(),
        ensures
            final(bytes)@ == splice(old(bytes)@, at as int, self.channels()),
    ;

    fn red(&self) -> (v: u8)
        ensures
            v == self.spec_red(),
    ;

    fn green(&self) -> (v: u8)
        ensures
            v == self.spec_green(),
    ;

    fn blue(&self) -> (v: u8)
        ensures
            v == self.spec_blue(),
    ;

    /// The alpha channel, or 255 on a layout without one.
    fn alpha(&self) -> (v: u8)
        ensures
            v == self.spec_alpha(),
    ;

    fn first(&self) -> (v: u8)
        ensures
            v == self.channels()[0],
    ;

    fn second(&self) -> (v: u8)
        ensures
            v == self.channels()[1],
    ;

    fn third(&self) -> (v: u8)
        ensures
            v == self.channels()[2],
    ;

    /// The fourth channel, or 255 on a three-channel layout.
    fn fourth(&self) -> (v: u8)
        ensures
            v == (if self.channels().len() == 4 {
                self.channels()[3]
            } else {
                255u8
            }),
    ;

    fn set_red(&mut self, value: u8)
        ensures
            final(self).spec_red() == value,
            final(self).spec_green() == old(self).spec_green(),
            final(self).spec_blue() == old(self).spec_blue(),
            final(self).spec_alpha() == old(self).spec_alpha(),
    ;

    fn set_green(&mut self, value: u8)
        ensures
            final(self).spec_green() == value,
            final(self).spec_red() == old(self).spec_red(),
            final(self).spec_blue() == old(self).spec_blue(),
            final(self).spec_alpha() == old(self).spec_alpha(),
    ;

    fn set_blue(&mut self, value: u8)
        ensures
            final(self).spec_blue() == value,
            final(self).spec_red() == old(self).spec_red(),
            final(self).spec_green() == old(self).spec_green(),
            final(self).spec_alpha() == old(self).spec_alpha(),
    ;

    /// Sets the alpha channel; does nothing on a layout without one.
    fn set_alpha(&mut self, value: u8)
        ensures
            old(self).channels().len() == 4 ==> final(self).spec_alpha() == value
                && final(self).spec_red() == old(self).spec_red() && final(self).spec_green()
                == old(self).spec_green() && final(self).spec_blue() == old(self).spec_blue(),
            old(self).channels().len() != 4 ==> *final(self) == *old(self),
    ;

    fn set_first(&mut self, value: u8)
        ensures
            final(self).channels() == old(self).channels().update(0, value),
    ;

    fn set_second(&mut self, value: u8)
        ensures
            final(self).channels() == old(self).channels().update(1, value),
    ;

    fn set_third(&mut self, value: u8)
        ensures
            final(self).channels() == old(self).channels().update(2, value),
    ;

    /// Sets the fourth channel; does nothing on a three-channel layout.
    fn set_fourth(&mut self, value: u8)
        ensures
            old(self).channels().len() == 4 ==> final(self).channels() == old(
                self,
            ).channels().update(3, value),
            old(self).channels().len() != 4 ==> *final(self) == *old(self),
    ;

    /// Number of channels of this pixel.
    fn pixel_size(&self) -> (n: usize)
        ensures
            n == self.channels().len(),
    ;
}

/// A 24-bit pixel, stored blue, green, red.
#[derive(Clone, Copy, Debug, Default, PartialEq, Eq, Structural)]
pub struct RgbPixel {
    pub blue: u8,
    pub green: u8,
    pub red: u8,
}

/// A 32-bit pixel, stored blue, green, red, alpha.
#[derive(Clone, Copy, Debug, Default, PartialEq, Eq, Structural)]
pub struct RgbaPixel {
    pub blue: u8,
    pub green: u8,
    pub red: u8,
    pub alpha: u8,
}

impl Pixel for RgbPixel {
    open spec fn channels(&self) -> Seq<u8> {
        seq![self.blue, self.green, self.red]
    }

    open spec fn layout_size() -> nat {
        3
    }

    open spec fn spec_red(&self) -> u8 {
        self.red
    }

    open spec fn spec_green(&self) -> u8 {
        self.green
    }

    open spec fn spec_blue(&self) -> u8 {
        self.blue
    }

    open spec fn spec_alpha(&self) -> u8 {
        255
    }

    proof fn lemma_layout(&self) {
    }

    fn layout_channels() -> (n: usize) {
        3
    }

    fn read_at(bytes: &[u8], at: usize) -> (p: Self) {
        let p = RgbPixel { blue: bytes[at], green: bytes[at + 1], red: bytes[at + 2] };
        assert(p.channels() =~= bytes@.subrange(at as int, at + 3));
        p
    }

    fn write_at(&self, bytes: &mut [u8], at: usize) {
        bytes[at] = self.blue;
        bytes[at + 1] = self.green;
        bytes[at + 2] = self.red;
        assert(bytes@ =~= splice(old(bytes)@, at as int, self.channels()));
    }

    fn red(&self) -> (v: u8) {
        self.red
    }

    fn green(&self) -> (v: u8) {
        self.green
    }

    fn blue(&self) -> (v: u8) {
        self.blue
    }

    fn alpha(&self) -> (v: u8) {
        255
    }

    fn first(&self) -> (v: u8) {
        self.blue
    }

    fn second(&self) -> (v: u8) {
        self.green
    }

    fn third(&self) -> (v: u8) {
        self.red
    }

    fn fourth(&self) -> (v: u8) {
        255
    }

    fn set_red(&mut self, value: u8) {
        self.red = value;
    }

    fn set_green(&mut self, value: u8) {
        self.green = value;
    }

    fn set_blue(&mut self, value: u8) {
        self.blue = value;
    }

    fn set_alpha(&mut self, value: u8) {
    }

    fn set_first(&mut self, value: u8) {
        self.blue = value;
        assert(self.channels() =~= old(self).channels().update(0, value));
    }

    fn set_second(&mut self, value: u8) {
        self.green = value;
        assert(self.channels() =~= old(self).channels().update(1, value));
    }

    fn set_third(&mut self, value: u8) {
        self.red = value;
        assert(self.channels() =~= old(self).channels().update(2, value));
    }

    fn set_fourth(&mut self, value: u8) {
    }

    fn pixel_size(&self) -> (n: usize) {
        3
    }
}

impl Pixel for RgbaPixel {
    open spec fn channels(&self) -> Seq<u8> {
        seq![self.blue, self.green, self.red, self.alpha]
    }

    open spec fn layout_size() -> nat {
        4
    }

    open spec fn spec_red(&self) -> u8 {
        self.red
    }

    open spec fn spec_green(&self) -> u8 {
        self.green
    }

    open spec fn spec_blue(&self) -> u8 {
        self.blue
    }

    open spec fn spec_alpha(&self) -> u8 {
        self.alpha
    }

    proof fn lemma_layout(&self) {
    }

    fn layout_channels() -> (n: usize) {
        4
    }

    fn read_at(bytes: &[u8], at: usize) -> (p: Self) {
        let p = RgbaPixel {
            blue: bytes[at],
            green: bytes[at + 1],
            red: bytes[at + 2],
            alpha: bytes[at + 3],
        };
        assert(p.channels() =~= bytes@.subrange(at as int, at + 4));
        p
    }

    fn write_at(&self, bytes: &mut [u8], at: usize) {
        bytes[at] = self.blue;
        bytes[at + 1] = self.green;
        bytes[at + 2] = self.red;
        bytes[at + 3] = self.alpha;
        assert(bytes@ =~= splice(old(bytes)@, at as int, self.channels()));
    }

    fn red(&self) -> (v: u8) {
        self.red
    }

    fn green(&self) -> (v: u8) {
        self.green
    }

    fn blue(&self) -> (v: u8) {
        self.blue
    }

    fn alpha(&self) -> (v: u8) {
        self.alpha
    }

    fn first(&self) -> (v: u8) {
        self.blue
    }

    fn second(&self) -> (v: u8) {
        self.green
    }

    fn third(&self) -> (v: u8) {
        self.red
    }

    fn fourth(&self) -> (v: u8) {
        self.alpha
    }

    fn set_red(&mut self, value: u8) {
        self.red = value;
    }

    fn set_green(&mut self, value: u8) {
        self.green = value;
    }

    fn set_blue(&mut self, value: u8) {
        self.blue = value;
    }

    fn set_alpha(&mut self, value: u8) {
        self.alpha = value;
    }

    fn set_first(&mut self, value: u8) {
        self.blue = value;
        assert(self.channels() =~= old(self).channels().update(0, value));
    }

    fn set_second(&mut self, value: u8) {
        self.green = value;
        assert(self.channels() =~= old(self).channels().update(1, value));
    }

    fn set_third(&mut self, value: u8) {
        self.red = value;
        assert(self.channels() =~= old(self).channels().update(2, value));
    }

    fn set_fourth(&mut self, value: u8) {
        self.alpha = value;
        assert(self.channels() =~= old(self).channels().update(3, value));
    }

    fn pixel_size(&self) -> (n: usize) {
        4
    }
}

/// The pixel layouts a bitmap can have here: 24 or 32 bits per pixel.
#[derive(Clone, Copy, Debug, PartialEq, Eq, Structural)]
pub enum BmpPixelType {
    Rgb,
    Rgba,
}

impl BmpPixelType {
    pub open spec fn spec_channel_count(&self) -> nat {
        match self {
            BmpPixelType::Rgb => 3,
            BmpPixelType::Rgba => 4,
        }
    }

    /// The layout for a bits-per-pixel value, if it is 24 or 32.
    pub fn from_bits_per_pixel(bits: u16) -> (t: Option<BmpPixelType>)
        ensures
            bits == 24 ==> t == Some(BmpPixelType::Rgb),
            bits == 32 ==> t == Some(BmpPixelType::Rgba),
            bits != 24 && bits != 32 ==> t.is_none(),
    {
        if bits == 24 {
            Some(BmpPixelType::Rgb)
        } else if bits == 32 {
            Some(BmpPixelType::Rgba)
        } else {
            None
        }
    }

    /// Number of channel bytes of a pixel of this layout.
    pub fn channel_count(&self) -> (n: usize)
        ensures
            n == self.spec_channel_count(),
    {
        match self {
            BmpPixelType::Rgb => 3,
            BmpPixelType::Rgba => 4,
        }
    }
}

/// Replaces every pixel of `pixel_map` by `transform_function` of it.
pub fn transform_pixels<P: Pixel + Copy, F: Fn(P) -> P>(
    pixel_map: &mut Vec<P>,
    transform_function: F,
)
    requires
        forall|p: P| transform_function.requires((p,)),
    ensures
        final(pixel_map).len() == old(pixel_map).len(),
        forall|i: int|
            0 <= i < old(pixel_map).len() ==> transform_function.ensures(
                (old(pixel_map)[i],),
                #[trigger] final(pixel_map)[i],
            ),
{
    let n = pixel_map.len();
    for i in 0..n
        invariant
            pixel_map.len() == n,
            forall|p: P| transform_function.requires((p,)),
            forall|j: int| i <= j < n ==> pixel_map[j] == old(pixel_map)[j],
            forall|j: int|
                0 <= j < i ==> transform_function.ensures(
                    (old(pixel_map)[j],),
                    #[trigger] pixel_map[j],
                ),
    {
        let p = transform_function(pixel_map[i]);
        pixel_map[i] = p;
    }
}

/// Replaces each of the `quadrant_size` pixels from index
/// `coordinates.0 * coordinates.1` on by `transform_function` of it; the other
/// pixels stay as they are.
pub fn transform_pixel_quadrants<P: Pixel + Copy, F: Fn(P) -> P>(
    pixel_map: &mut Vec<P>,
    transform_function: F,
    coordinates: (u64, u64),
    quadrant_size: u64,
)
    requires
        forall|p: P| transform_function.requires((p,)),
        coordinates.0 * coordinates.1 + quadrant_size <= old(pixel_map).len(),
    ensures
        final(pixel_map).len() == old(pixel_map).len(),
        forall|i: int|
            0 <= i < old(pixel_map).len() ==> {
                let start = coordinates.0 * coordinates.1;
                if start <= i < start + quadrant_size {
                    transform_function.ensures((old(pixel_map)[i],), #[trigger] final(pixel_map)[i])
                } else {
                    final(pixel_map)[i] == old(pixel_map)[i]
                }
            },
{
    let start = (coordinates.0 * coordinates.1) as usize;
    let end = start + quadrant_size as usize;
    let n = pixel_map.len();
    for i in start..end
        invariant
            start == coordinates.0 * coordinates.1,
            end == start + quadrant_size,
            end <= n,
            pixel_map.len() == n,
            forall|p: P| transform_function.requires((p,)),
            forall|j: int|
                0 <= j < n && !(start <= j < i) ==> pixel_map[j] == old(pixel_map)[j],
            forall|j: int|
                start <= j < i ==> transform_function.ensures(
                    (old(pixel_map)[j],),
                    #[trigger] pixel_map[j],
                ),
    {
        let p = transform_function(pixel_map[i]);
        pixel_map[i] = p;
    }
}

} // verus!
