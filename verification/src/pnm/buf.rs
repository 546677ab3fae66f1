//! An image buffer of one PNM kind: dimensions, sample maximum, comments and
//! pixels.

use vstd::prelude::*;
use super::bits::BitData;
use super::content::{P1, P2, P3, P4, P5, P6, Pbm, Pgm, PnmContent, PnmKindTrait, Ppm};
use super::data::{widen_rgb, GrayData, PnmPixelData, RgbData};
use super::error::{coords_out_of_bounds_error, is_invalid_pixel, msg_coords_out_of_bounds, PnmResult};
use super::iter::{enumerated, DataPixels, EnumeratePixels, GrayPixels, PbmPixels, RgbPixels};
use super::maxval::MaxValTrait;

verus! {

/// A PNM buffer of kind `T`.
pub struct PnmBuf<T: PnmKindTrait> {
    pub width: usize,
    pub height: usize,
    pub max_val: T::MaxVal,
    pub comments: Vec<String>,
    pub data: <T::Content as PnmContent>::DataType,
}

impl<T: PnmKindTrait> PnmBuf<T> {
    /// `(x, y)` lies inside the image.
    pub open spec fn spec_contains(&self, x: nat, y: nat) -> bool {
        x < self.width && y < self.height
    }

    /// The index of `(x, y)` in row-major order.
    pub open spec fn spec_index(&self, x: nat, y: nat) -> nat {
        y * (self.width as nat) + x
    }

    /// The index of every pixel inside the image fits in a `usize`.
    pub open spec fn index_fits(&self, x: nat, y: nat) -> bool {
        self.spec_contains(x, y) ==> self.spec_index(x, y) <= usize::MAX
    }

    /// The pixel at `(x, y)`, if the image holds one there.
    pub open spec fn spec_pixel(&self, x: nat, y: nat) -> Option<
        <<T::Content as PnmContent>::DataType as PnmPixelData>::Pixel,
    > {
        if self.spec_contains(x, y) && self.spec_index(x, y) < self.data.pixel_seq().len() {
            Some(self.data.pixel_seq()[self.spec_index(x, y) as int])
        } else {
            None
        }
    }

    pub fn new(
        width: usize,
        height: usize,
        max_val: T::MaxVal,
        comments: Vec<String>,
        data: <T::Content as PnmContent>::DataType,
    ) -> (r: Self)
        ensures
            r.width == width,
            r.height == height,
            r.max_val == max_val,
            r.comments == comments,
            r.data == data,
    {
        Self { width, height, max_val, comments, data }
    }

    /// `width * height`.
    pub fn pixel_count(&self) -> (r: usize)
        requires
            self.width * self.height <= usize::MAX,
        ensures
            r == self.width * self.height,
    {
        self.width * self.height
    }

    pub fn contains_pixel(&self, x: usize, y: usize) -> (r: bool)
        ensures
            r == self.spec_contains(x as nat, y as nat),
    {
        x < self.width && y < self.height
    }

    /// The row-major index of `(x, y)`, if it lies inside the image.
    pub fn pixel_index(&self, x: usize, y: usize) -> (r: Option<usize>)
        requires
            self.index_fits(x as nat, y as nat),
        ensures
            r == (if self.spec_contains(x as nat, y as nat) {
                Some(self.spec_index(x as nat, y as nat) as usize)
            } else {
                None
            }),
    {
        if self.contains_pixel(x, y) {
            proof {
                vstd::arithmetic::mul::lemma_mul_inequality(y as int, self.height as int, self.width as int);
            }
            Some(y * self.width + x)
        } else {
            None
        }
    }

    pub fn data(&self) -> (r: &<T::Content as PnmContent>::DataType)
        ensures
            *r == self.data,
    {
        &self.data
    }

    pub fn data_mut(&mut self) -> (r: &mut <T::Content as PnmContent>::DataType)
        ensures
            *r == old(self).data,
            final(self).data == *final(r),
            final(self).width == old(self).width,
            final(self).height == old(self).height,
            final(self).max_val == old(self).max_val,
            final(self).comments == old(self).comments,
    {
        &mut self.data
    }

    /// The number of stored pixels.
    pub fn len(&self) -> (r: usize)
        ensures
            r == self.data.pixel_seq().len(),
    {
        self.data.len()
    }

    pub fn is_empty(&self) -> (r: bool)
        ensures
            r == (self.data.pixel_seq().len() == 0),
    {
        self.data.is_empty()
    }

    /// The pixel at `(x, y)`, or `None` outside the image or past the data.
    pub fn pixel(&self, x: usize, y: usize) -> (r: Option<
        <<T::Content as PnmContent>::DataType as PnmPixelData>::Pixel,
    >)
        requires
            self.index_fits(x as nat, y as nat),
        ensures
            r == self.spec_pixel(x as nat, y as nat),
    {
        match self.pixel_index(x, y) {
            Some(index) => self.data.pixel_at(index),
            None => None,
        }
    }

    /// Writes `pixel` at `(x, y)`. Refuses coordinates outside the image, a
    /// pixel above the sample maximum, and a pixel that the storage cannot
    /// hold or whose index lies past the data; a refusal changes nothing.
    pub fn set_pixel(
        &mut self,
        x: usize,
        y: usize,
        pixel: <<T::Content as PnmContent>::DataType as PnmPixelData>::Pixel,
    ) -> (r: PnmResult<()>)
        requires
            old(self).index_fits(x as nat, y as nat),
        ensures
            final(self).width == old(self).width,
            final(self).height == old(self).height,
            final(self).max_val == old(self).max_val,
            final(self).comments == old(self).comments,
            forall|p| #[trigger] final(self).data.holds(p) == old(self).data.holds(p),
            !old(self).spec_contains(x as nat, y as nat) ==> final(self).data == old(self).data
                && is_invalid_pixel(
                r,
                msg_coords_out_of_bounds(
                    x as nat,
                    y as nat,
                    old(self).width as nat,
                    old(self).height as nat,
                ),
            ),
            old(self).spec_contains(x as nat, y as nat)
                && !<<T::Content as PnmContent>::DataType as PnmPixelData>::within(
                pixel,
                old(self).max_val.limit_spec(),
            ) ==> final(self).data == old(self).data && is_invalid_pixel(
                r,
                <<T::Content as PnmContent>::DataType as PnmPixelData>::excess(
                    pixel,
                    old(self).max_val.limit_spec(),
                ),
            ),
            old(self).spec_contains(x as nat, y as nat)
                && <<T::Content as PnmContent>::DataType as PnmPixelData>::within(
                pixel,
                old(self).max_val.limit_spec(),
            ) ==> {
                let i = old(self).spec_index(x as nat, y as nat);
                &&& r is Ok <==> i < old(self).data.pixel_seq().len() && old(self).data.holds(pixel)
                &&& r is Ok ==> final(self).data.pixel_seq() == old(self).data.pixel_seq().update(
                    i as int,
                    pixel,
                )
                &&& r is Err ==> final(self).data == old(self).data && is_invalid_pixel(
                    r,
                    old(self).data.refusal(i, pixel),
                )
            },
    {
        let index = match self.pixel_index(x, y) {
            Some(index) => index,
            None => {
                return Err(coords_out_of_bounds_error(x, y, self.width, self.height));
            },
        };
        let limit = self.max_val.limit();
        <T::Content as PnmContent>::DataType::validate_pixel(pixel, limit)?;
        self.data.set_pixel_at(index, pixel)
    }
}

impl<T: PnmKindTrait<Content = Pbm>> PnmBuf<T> {
    /// A cursor over the bits.
    pub fn pixels(&self) -> (r: PbmPixels<'_>)
        ensures
            r.remaining() == self.data@,
    {
        DataPixels::new(&self.data)
    }

    /// A cursor over the bits with their coordinates.
    pub fn enumerate_pixels(&self) -> (r: EnumeratePixels<bool>)
        ensures
            r.remaining() == enumerated(self.width, self.data@, 0),
            r.row_width() == self.width,
            r.left() == self.data@.len(),
    {
        EnumeratePixels::new(self.width, self.pixels().into_vec())
    }
}

impl<T: PnmKindTrait<Content = Pgm>> PnmBuf<T> {
    /// The 8-bit samples, if the storage is 8-bit.
    pub fn gray_pixels_u8(&self) -> (r: Option<Vec<u8>>)
        ensures
            match self.data {
                GrayData::U8(v) => r matches Some(c) && c@ == v@,
                GrayData::U16(_) => r is None,
            },
    {
        self.data.pixels_u8()
    }

    /// The 16-bit samples, if the storage is 16-bit.
    pub fn gray_pixels_u16(&self) -> (r: Option<Vec<u16>>)
        ensures
            match self.data {
                GrayData::U8(_) => r is None,
                GrayData::U16(v) => r matches Some(c) && c@ == v@,
            },
    {
        self.data.pixels_u16()
    }

    /// A cursor over the samples, each widened to 16 bits.
    pub fn normalized_gray_pixels(&self) -> (r: GrayPixels<'_>)
        ensures
            r.remaining() == self.data.pixel_seq(),
    {
        self.data.normalized_pixels()
    }

    /// The 8-bit samples with their coordinates, if the storage is 8-bit.
    pub fn enumerate_gray_pixels_u8(&self) -> (r: Option<EnumeratePixels<u8>>)
        ensures
            match self.data {
                GrayData::U8(v) => r matches Some(e) && e.remaining() == enumerated(self.width, v@, 0)
                    && e.row_width() == self.width && e.left() == v@.len(),
                GrayData::U16(_) => r is None,
            },
    {
        match self.gray_pixels_u8() {
            Some(pixels) => Some(EnumeratePixels::new(self.width, pixels)),
            None => None,
        }
    }

    /// The 16-bit samples with their coordinates, if the storage is 16-bit.
    pub fn enumerate_gray_pixels_u16(&self) -> (r: Option<EnumeratePixels<u16>>)
        ensures
            match self.data {
                GrayData::U8(_) => r is None,
                GrayData::U16(v) => r matches Some(e) && e.remaining() == enumerated(self.width, v@, 0)
                    && e.row_width() == self.width && e.left() == v@.len(),
            },
    {
        match self.gray_pixels_u16() {
            Some(pixels) => Some(EnumeratePixels::new(self.width, pixels)),
            None => None,
        }
    }

    /// The samples, widened to 16 bits, with their coordinates.
    pub fn enumerate_normalized_gray_pixels(&self) -> (r: EnumeratePixels<u16>)
        ensures
            r.remaining() == enumerated(self.width, self.data.pixel_seq(), 0),
            r.row_width() == self.width,
            r.left() == self.data.pixel_seq().len(),
    {
        EnumeratePixels::new(self.width, self.normalized_gray_pixels().into_vec())
    }
}

impl<T: PnmKindTrait<Content = Ppm>> PnmBuf<T> {
    /// The 8-bit colors, if the storage is 8-bit.
    pub fn rgb_pixels_u8(&self) -> (r: Option<Vec<[u8; 3]>>)
        ensures
            match self.data {
                RgbData::U8(v) => r matches Some(c) && c@ == v@,
                RgbData::U16(_) => r is None,
            },
    {
        self.data.pixels_u8()
    }

    /// The 16-bit colors, if the storage is 16-bit.
    pub fn rgb_pixels_u16(&self) -> (r: Option<Vec<[u16; 3]>>)
        ensures
            match self.data {
                RgbData::U8(_) => r is None,
                RgbData::U16(v) => r matches Some(c) && c@ == v@,
            },
    {
        self.data.pixels_u16()
    }

    /// A cursor over the colors, each widened to 16 bits.
    pub fn normalized_rgb_pixels(&self) -> (r: RgbPixels<'_>)
        ensures
            r.remaining() == self.data.pixel_seq(),
    {
        self.data.normalized_pixels()
    }

    /// The 8-bit colors with their coordinates, if the storage is 8-bit.
    pub fn enumerate_rgb_pixels_u8(&self) -> (r: Option<EnumeratePixels<[u8; 3]>>)
        ensures
            match self.data {
                RgbData::U8(v) => r matches Some(e) && e.remaining() == enumerated(self.width, v@, 0)
                    && e.row_width() == self.width && e.left() == v@.len(),
                RgbData::U16(_) => r is None,
            },
    {
        match self.rgb_pixels_u8() {
            Some(pixels) => Some(EnumeratePixels::new(self.width, pixels)),
            None => None,
        }
    }

    /// The 16-bit colors with their coordinates, if the storage is 16-bit.
    pub fn enumerate_rgb_pixels_u16(&self) -> (r: Option<EnumeratePixels<[u16; 3]>>)
        ensures
            match self.data {
                RgbData::U8(_) => r is None,
                RgbData::U16(v) => r matches Some(e) && e.remaining() == enumerated(self.width, v@, 0)
                    && e.row_width() == self.width && e.left() == v@.len(),
            },
    {
        match self.rgb_pixels_u16() {
            Some(pixels) => Some(EnumeratePixels::new(self.width, pixels)),
            None => None,
        }
    }

    /// The colors, widened to 16 bits, with their coordinates.
    pub fn enumerate_normalized_rgb_pixels(&self) -> (r: EnumeratePixels<[u16; 3]>)
        ensures
            r.remaining() == enumerated(self.width, self.data.pixel_seq(), 0),
            r.row_width() == self.width,
            r.left() == self.data.pixel_seq().len(),
    {
        EnumeratePixels::new(self.width, self.normalized_rgb_pixels().into_vec())
    }
}

/// ASCII PBM (P1)
pub type AsciiPbmBuf = PnmBuf<P1>;

/// ASCII PGM (P2)
pub type AsciiPgmBuf = PnmBuf<P2>;

/// ASCII PPM (P3)
pub type AsciiPpmBuf = PnmBuf<P3>;

/// Binary PBM (P4)
pub type BinaryPbmBuf = PnmBuf<P4>;

/// Binary PGM (P5)
pub type BinaryPgmBuf = PnmBuf<P5>;

/// Binary PPM (P6)
pub type BinaryPpmBuf = PnmBuf<P6>;

} // verus!
