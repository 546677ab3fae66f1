//! Pixel storage of graymaps and pixmaps, and the trait that all pixel
//! storages share.

use vstd::prelude::*;
use super::error::{
    exceeds_max_error, exceeds_u8_error, index_out_of_bounds_error, is_invalid_pixel,
    msg_exceeds_max, msg_exceeds_u8, msg_index_out_of_bounds, PnmResult,
};
use super::maxval::MaxValue;
use super::iter::{DataPixels, GrayPixels, RgbPixels};

verus! {

/// A pixel storage: a sequence of pixels, each widened to `Pixel`.
pub trait PnmPixelData: Sized {
    type Pixel: Copy;

    /// The stored pixels, each widened to `Pixel`.
    spec fn pixel_seq(&self) -> Seq<Self::Pixel>;

    /// Whether the storage can hold `pixel` (an 8-bit storage holds only
    /// values up to 255).
    spec fn holds(&self, pixel: Self::Pixel) -> bool;

    /// The message of the error that refuses to store `pixel` at `index`.
    spec fn refusal(&self, index: nat, pixel: Self::Pixel) -> Seq<char>;

    /// Whether `pixel` keeps to the sample maximum `max_val`.
    spec fn within(pixel: Self::Pixel, max_val: Option<MaxValue>) -> bool;

    /// The message of the error that refuses `pixel` for exceeding `max_val`.
    spec fn excess(pixel: Self::Pixel, max_val: Option<MaxValue>) -> Seq<char>;

    fn len(&self) -> (r: usize)
        ensures
            r == self.pixel_seq().len(),
    ;

    fn is_empty(&self) -> (r: bool)
        ensures
            r == (self.pixel_seq().len() == 0),
    {
        self.len() == 0
    }

    /// The pixel at `index`, or `None` past the end.
    fn pixel_at(&self, index: usize) -> (r: Option<Self::Pixel>)
        ensures
            r == (if index < self.pixel_seq().len() {
                Some(self.pixel_seq()[index as int])
            } else {
                None
            }),
    ;

    /// Stores `pixel` at `index`; refuses a pixel that the storage cannot hold
    /// and an index past the end, and then changes nothing.
    fn set_pixel_at(&mut self, index: usize, pixel: Self::Pixel) -> (r: PnmResult<()>)
        ensures
            r is Ok <==> index < old(self).pixel_seq().len() && old(self).holds(pixel),
            r is Ok ==> final(self).pixel_seq() == old(self).pixel_seq().update(index as int, pixel),
            r is Err ==> *final(self) == *old(self) && is_invalid_pixel(
                r,
                old(self).refusal(index as nat, pixel),
            ),
            forall|p: Self::Pixel| #[trigger] final(self).holds(p) == old(self).holds(p),
    ;

    /// Refuses a pixel that exceeds `max_val`.
    fn validate_pixel(pixel: Self::Pixel, max_val: Option<MaxValue>) -> (r: PnmResult<()>)
        ensures
            r is Ok <==> Self::within(pixel, max_val),
            r is Err ==> is_invalid_pixel(r, Self::excess(pixel, max_val)),
    ;
}

/// Whether `value` keeps to `max_val`.
pub open spec fn within_max(value: u16, max_val: Option<MaxValue>) -> bool {
    match max_val {
        Some(m) => value <= m@,
        None => true,
    }
}

/// Refuses a value above `max_val`.
pub fn validate_max_val(value: u16, max_val: Option<MaxValue>) -> (r: PnmResult<()>)
    ensures
        r is Ok <==> within_max(value, max_val),
        r is Err ==> is_invalid_pixel(r, msg_exceeds_max(value as nat, max_val->0@ as nat)),
{
    if let Some(m) = max_val {
        let limit = m.get();
        if value > limit {
            return Err(exceeds_max_error(value, limit));
        }
    }
    Ok(())
}

/// Gray data enum for PGM files
#[derive(Debug, Clone, PartialEq)]
pub enum GrayData {
    U8(Vec<u8>),
    U16(Vec<u16>),
}

/// RGB data for PPM files
#[derive(Debug, Clone, PartialEq)]
pub enum RgbData {
    U8(Vec<[u8; 3]>),
    U16(Vec<[u16; 3]>),
}

/// An 8-bit color widened to 16 bits.
pub open spec fn widen_rgb(c: [u8; 3]) -> [u16; 3] {
    [c[0] as u16, c[1] as u16, c[2] as u16]
}

/// The first channel of `c` above 255 (`c[2]` if none is).
pub open spec fn first_wide_channel(c: [u16; 3]) -> u16 {
    if c[0] > 255 { c[0] } else if c[1] > 255 { c[1] } else { c[2] }
}

/// The first channel of `c` above `max_val` (`c[2]` if none is).
pub open spec fn first_excess_channel(c: [u16; 3], max_val: Option<MaxValue>) -> u16 {
    if !within_max(c[0], max_val) { c[0] }
    else if !within_max(c[1], max_val) { c[1] }
    else { c[2] }
}

impl GrayData {
    pub fn len(&self) -> (r: usize)
        ensures
            r == self.pixel_seq().len(),
    {
        match self {
            GrayData::U8(v) => v.len(),
            GrayData::U16(v) => v.len(),
        }
    }

    pub fn is_empty(&self) -> (r: bool)
        ensures
            r == (self.pixel_seq().len() == 0),
    {
        self.len() == 0
    }

    /// The 8-bit samples, if the storage is 8-bit.
    pub fn as_u8_slice(&self) -> (r: Option<&[u8]>)
        ensures
            match self {
                GrayData::U8(v) => r matches Some(s) && s@ == v@,
                GrayData::U16(_) => r is None,
            },
    {
        match self {
            GrayData::U8(data) => Some(data.as_slice()),
            GrayData::U16(_) => None,
        }
    }

    /// The 16-bit samples, if the storage is 16-bit.
    pub fn as_u16_slice(&self) -> (r: Option<&[u16]>)
        ensures
            match self {
                GrayData::U8(_) => r is None,
                GrayData::U16(v) => r matches Some(s) && s@ == v@,
            },
    {
        match self {
            GrayData::U8(_) => None,
            GrayData::U16(data) => Some(data.as_slice()),
        }
    }

    pub fn pixel_at(&self, index: usize) -> (r: Option<u16>)
        ensures
            r == (if index < self.pixel_seq().len() {
                Some(self.pixel_seq()[index as int])
            } else {
                None
            }),
    {
        <Self as PnmPixelData>::pixel_at(self, index)
    }

    pub fn set_pixel_at(&mut self, index: usize, pixel: u16) -> (r: PnmResult<()>)
        ensures
            r is Ok <==> index < old(self).pixel_seq().len() && old(self).holds(pixel),
            r is Ok ==> final(self).pixel_seq() == old(self).pixel_seq().update(index as int, pixel),
            r is Ok ==> (*final(self) is U8 <==> *old(self) is U8),
            r is Err ==> *final(self) == *old(self) && is_invalid_pixel(
                r,
                old(self).refusal(index as nat, pixel),
            ),
    {
        <Self as PnmPixelData>::set_pixel_at(self, index, pixel)
    }

    /// A copy of the 8-bit samples, if the storage is 8-bit.
    pub fn pixels_u8(&self) -> (r: Option<Vec<u8>>)
        ensures
            match self {
                GrayData::U8(v) => r matches Some(c) && c@ == v@,
                GrayData::U16(_) => r is None,
            },
    {
        match self {
            GrayData::U8(data) => Some(copy_vec(data)),
            GrayData::U16(_) => None,
        }
    }

    /// A copy of the 16-bit samples, if the storage is 16-bit.
    pub fn pixels_u16(&self) -> (r: Option<Vec<u16>>)
        ensures
            match self {
                GrayData::U8(_) => r is None,
                GrayData::U16(v) => r matches Some(c) && c@ == v@,
            },
    {
        match self {
            GrayData::U8(_) => None,
            GrayData::U16(data) => Some(copy_vec(data)),
        }
    }

    /// A cursor over the samples, each widened to 16 bits.
    pub fn normalized_pixels(&self) -> (r: GrayPixels<'_>)
        ensures
            r.remaining() == self.pixel_seq(),
    {
        DataPixels::new(self)
    }
}

/// A copy of `v`.
pub fn copy_vec<T: Copy>(v: &Vec<T>) -> (r: Vec<T>)
    ensures
        r@ == v@,
{
    let mut out: Vec<T> = Vec::new();
    for i in 0..v.len()
        invariant
            out@ == v@.take(i as int),
    {
        out.push(v[i]);
        assert(out@ =~= v@.take(i + 1));
    }
    assert(v@.take(v.len() as int) =~= v@);
    out
}

impl PnmPixelData for GrayData {
    type Pixel = u16;

    open spec fn pixel_seq(&self) -> Seq<u16> {
        match self {
            GrayData::U8(v) => v@.map_values(|p: u8| p as u16),
            GrayData::U16(v) => v@,
        }
    }

    open spec fn holds(&self, pixel: u16) -> bool {
        match self {
            GrayData::U8(_) => pixel <= 255,
            GrayData::U16(_) => true,
        }
    }

    open spec fn refusal(&self, index: nat, pixel: u16) -> Seq<char> {
        if !self.holds(pixel) {
            msg_exceeds_u8(pixel as nat)
        } else {
            msg_index_out_of_bounds(index)
        }
    }

    open spec fn within(pixel: u16, max_val: Option<MaxValue>) -> bool {
        within_max(pixel, max_val)
    }

    open spec fn excess(pixel: u16, max_val: Option<MaxValue>) -> Seq<char> {
        msg_exceeds_max(pixel as nat, max_val->0@ as nat)
    }

    fn len(&self) -> (r: usize) {
        match self {
            GrayData::U8(v) => v.len(),
            GrayData::U16(v) => v.len(),
        }
    }

    fn pixel_at(&self, index: usize) -> (r: Option<u16>) {
        match self {
            GrayData::U8(data) => if index < data.len() {
                Some(data[index] as u16)
            } else {
                None
            },
            GrayData::U16(data) => if index < data.len() {
                Some(data[index])
            } else {
                None
            },
        }
    }

    fn set_pixel_at(&mut self, index: usize, pixel: u16) -> (r: PnmResult<()>)
        ensures
            r is Ok ==> (*final(self) is U8 <==> *old(self) is U8),
    {
        match self {
            GrayData::U8(data) => {
                if pixel > 255 {
                    return Err(exceeds_u8_error(pixel));
                }
                if index >= data.len() {
                    return Err(index_out_of_bounds_error(index));
                }
                data.set(index, pixel as u8);
                assert(data@.map_values(|p: u8| p as u16) =~= old(self).pixel_seq().update(
                    index as int,
                    pixel,
                ));
            },
            GrayData::U16(data) => {
                if index >= data.len() {
                    return Err(index_out_of_bounds_error(index));
                }
                data.set(index, pixel);
            },
        }
        Ok(())
    }

    fn validate_pixel(pixel: u16, max_val: Option<MaxValue>) -> (r: PnmResult<()>) {
        validate_max_val(pixel, max_val)
    }
}

impl RgbData {
    pub fn len(&self) -> (r: usize)
        ensures
            r == self.pixel_seq().len(),
    {
        match self {
            RgbData::U8(v) => v.len(),
            RgbData::U16(v) => v.len(),
        }
    }

    pub fn is_empty(&self) -> (r: bool)
        ensures
            r == (self.pixel_seq().len() == 0),
    {
        self.len() == 0
    }

    /// The 8-bit colors, if the storage is 8-bit.
    pub fn as_u8_slice(&self) -> (r: Option<&[[u8; 3]]>)
        ensures
            match self {
                RgbData::U8(v) => r matches Some(s) && s@ == v@,
                RgbData::U16(_) => r is None,
            },
    {
        match self {
            RgbData::U8(data) => Some(data.as_slice()),
            RgbData::U16(_) => None,
        }
    }

    /// The 16-bit colors, if the storage is 16-bit.
    pub fn as_u16_slice(&self) -> (r: Option<&[[u16; 3]]>)
        ensures
            match self {
                RgbData::U8(_) => r is None,
                RgbData::U16(v) => r matches Some(s) && s@ == v@,
            },
    {
        match self {
            RgbData::U8(_) => None,
            RgbData::U16(data) => Some(data.as_slice()),
        }
    }

    pub fn pixel_at(&self, index: usize) -> (r: Option<[u16; 3]>)
        ensures
            r == (if index < self.pixel_seq().len() {
                Some(self.pixel_seq()[index as int])
            } else {
                None
            }),
    {
        <Self as PnmPixelData>::pixel_at(self, index)
    }

    pub fn set_pixel_at(&mut self, index: usize, pixel: [u16; 3]) -> (r: PnmResult<()>)
        ensures
            r is Ok <==> index < old(self).pixel_seq().len() && old(self).holds(pixel),
            r is Ok ==> final(self).pixel_seq() == old(self).pixel_seq().update(index as int, pixel),
            r is Ok ==> (*final(self) is U8 <==> *old(self) is U8),
            r is Err ==> *final(self) == *old(self) && is_invalid_pixel(
                r,
                old(self).refusal(index as nat, pixel),
            ),
    {
        <Self as PnmPixelData>::set_pixel_at(self, index, pixel)
    }

    /// A copy of the 8-bit colors, if the storage is 8-bit.
    pub fn pixels_u8(&self) -> (r: Option<Vec<[u8; 3]>>)
        ensures
            match self {
                RgbData::U8(v) => r matches Some(c) && c@ == v@,
                RgbData::U16(_) => r is None,
            },
    {
        match self {
            RgbData::U8(data) => Some(copy_vec(data)),
            RgbData::U16(_) => None,
        }
    }

    /// A copy of the 16-bit colors, if the storage is 16-bit.
    pub fn pixels_u16(&self) -> (r: Option<Vec<[u16; 3]>>)
        ensures
            match self {
                RgbData::U8(_) => r is None,
                RgbData::U16(v) => r matches Some(c) && c@ == v@,
            },
    {
        match self {
            RgbData::U8(_) => None,
            RgbData::U16(data) => Some(copy_vec(data)),
        }
    }

    /// A cursor over the colors, each widened to 16 bits.
    pub fn normalized_pixels(&self) -> (r: RgbPixels<'_>)
        ensures
            r.remaining() == self.pixel_seq(),
    {
        DataPixels::new(self)
    }
}

impl PnmPixelData for RgbData {
    type Pixel = [u16; 3];

    open spec fn pixel_seq(&self) -> Seq<[u16; 3]> {
        match self {
            RgbData::U8(v) => v@.map_values(|c: [u8; 3]| widen_rgb(c)),
            RgbData::U16(v) => v@,
        }
    }

    open spec fn holds(&self, pixel: [u16; 3]) -> bool {
        match self {
            RgbData::U8(_) => pixel[0] <= 255 && pixel[1] <= 255 && pixel[2] <= 255,
            RgbData::U16(_) => true,
        }
    }

    open spec fn refusal(&self, index: nat, pixel: [u16; 3]) -> Seq<char> {
        if !self.holds(pixel) {
            msg_exceeds_u8(first_wide_channel(pixel) as nat)
        } else {
            msg_index_out_of_bounds(index)
        }
    }

    open spec fn within(pixel: [u16; 3], max_val: Option<MaxValue>) -> bool {
        within_max(pixel[0], max_val) && within_max(pixel[1], max_val) && within_max(pixel[2], max_val)
    }

    open spec fn excess(pixel: [u16; 3], max_val: Option<MaxValue>) -> Seq<char> {
        msg_exceeds_max(first_excess_channel(pixel, max_val) as nat, max_val->0@ as nat)
    }

    fn len(&self) -> (r: usize) {
        match self {
            RgbData::U8(v) => v.len(),
            RgbData::U16(v) => v.len(),
        }
    }

    fn pixel_at(&self, index: usize) -> (r: Option<[u16; 3]>) {
        match self {
            RgbData::U8(data) => if index < data.len() {
                let c = data[index];
                Some([c[0] as u16, c[1] as u16, c[2] as u16])
            } else {
                None
            },
            RgbData::U16(data) => if index < data.len() {
                Some(data[index])
            } else {
                None
            },
        }
    }

    fn set_pixel_at(&mut self, index: usize, pixel: [u16; 3]) -> (r: PnmResult<()>)
        ensures
            r is Ok ==> (*final(self) is U8 <==> *old(self) is U8),
    {
        match self {
            RgbData::U8(data) => {
                if pixel[0] > 255 {
                    return Err(exceeds_u8_error(pixel[0]));
                }
                if pixel[1] > 255 {
                    return Err(exceeds_u8_error(pixel[1]));
                }
                if pixel[2] > 255 {
                    return Err(exceeds_u8_error(pixel[2]));
                }
                if index >= data.len() {
                    return Err(index_out_of_bounds_error(index));
                }
                let stored = [pixel[0] as u8, pixel[1] as u8, pixel[2] as u8];
                data.set(index, stored);
                assert(widen_rgb(stored) =~= pixel);
                assert(data@.map_values(|c: [u8; 3]| widen_rgb(c)) =~= old(self).pixel_seq().update(
                    index as int,
                    pixel,
                ));
            },
            RgbData::U16(data) => {
                if index >= data.len() {
                    return Err(index_out_of_bounds_error(index));
                }
                data.set(index, pixel);
            },
        }
        Ok(())
    }

    fn validate_pixel(pixel: [u16; 3], max_val: Option<MaxValue>) -> (r: PnmResult<()>) {
        validate_max_val(pixel[0], max_val)?;
        validate_max_val(pixel[1], max_val)?;
        validate_max_val(pixel[2], max_val)
    }
}

} // verus!
