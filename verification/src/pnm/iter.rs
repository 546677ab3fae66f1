//! Cursors over the pixels of a buffer, one pixel per call of `next`.

use vstd::prelude::*;
use super::bits::BitData;
use super::data::{GrayData, PnmPixelData, RgbData};
use super::pixel::PnmPixel;

verus! {

/// A cursor over the pixels of a storage, in order.
pub struct DataPixels<'a, D: PnmPixelData> {
    data: &'a D,
    pos: usize,
}

/// Pixels of a bitmap.
pub type PbmPixels<'a> = DataPixels<'a, BitData>;

/// Gray levels of a graymap, each widened to 16 bits.
pub type GrayPixels<'a> = DataPixels<'a, GrayData>;

/// Colors of a pixmap, each widened to 16 bits.
pub type RgbPixels<'a> = DataPixels<'a, RgbData>;

impl<'a, D: PnmPixelData> DataPixels<'a, D> {
    #[verifier::type_invariant]
    closed spec fn in_range(self) -> bool {
        self.pos <= self.data.pixel_seq().len()
    }

    /// The pixels that `next` has yet to give.
    pub closed spec fn remaining(self) -> Seq<D::Pixel> {
        self.data.pixel_seq().skip(self.pos as int)
    }

    /// A cursor at the first pixel of `data`.
    pub fn new(data: &'a D) -> (r: Self)
        ensures
            r.remaining() == data.pixel_seq(),
    {
        let r = DataPixels { data, pos: 0 };
        assert(data.pixel_seq().skip(0) =~= data.pixel_seq());
        r
    }

    /// The next pixel, or `None` at the end.
    pub fn next(&mut self) -> (r: Option<D::Pixel>)
        ensures
            old(self).remaining().len() > 0 ==> r == Some(old(self).remaining()[0])
                && final(self).remaining() == old(self).remaining().drop_first(),
            old(self).remaining().len() == 0 ==> r is None && final(self).remaining() == old(self).remaining(),
    {
        proof {
            use_type_invariant(&*self);
        }
        if self.pos < self.data.len() {
            let r = self.data.pixel_at(self.pos);
            self.pos = self.pos + 1;
            assert(self.remaining() =~= old(self).remaining().drop_first());
            r
        } else {
            None
        }
    }

    /// The number of pixels left.
    pub fn len(&self) -> (r: usize)
        ensures
            r == self.remaining().len(),
    {
        proof {
            use_type_invariant(self);
        }
        self.data.len() - self.pos
    }

    /// The pixels left, collected.
    pub fn into_vec(self) -> (r: Vec<D::Pixel>)
        ensures
            r@ == self.remaining(),
    {
        proof {
            use_type_invariant(&self);
        }
        let mut out: Vec<D::Pixel> = Vec::new();
        let mut cur = self;
        while cur.len() > 0
            invariant
                out@ + cur.remaining() == self.remaining(),
            decreases cur.remaining().len(),
        {
            match cur.next() {
                Some(p) => {
                    out.push(p);
                    assert(out@ + cur.remaining() =~= self.remaining());
                },
                None => {},
            }
        }
        assert(out@ =~= self.remaining());
        out
    }
}

/// A cursor over the pixels of any PNM image.
pub enum PnmPixels<'a> {
    Pbm(PbmPixels<'a>),
    Pgm(GrayPixels<'a>),
    Ppm(RgbPixels<'a>),
}

impl<'a> PnmPixels<'a> {
    /// The pixels that `next` has yet to give.
    pub open spec fn remaining(self) -> Seq<PnmPixel> {
        match self {
            PnmPixels::Pbm(it) => it.remaining().map_values(|b: bool| PnmPixel::Bit(b)),
            PnmPixels::Pgm(it) => it.remaining().map_values(|v: u16| PnmPixel::Gray(v)),
            PnmPixels::Ppm(it) => it.remaining().map_values(|c: [u16; 3]| PnmPixel::Rgb(c)),
        }
    }

    /// The next pixel, or `None` at the end.
    pub fn next(&mut self) -> (r: Option<PnmPixel>)
        ensures
            old(self).remaining().len() > 0 ==> r == Some(old(self).remaining()[0])
                && final(self).remaining() == old(self).remaining().drop_first(),
            old(self).remaining().len() == 0 ==> r is None && final(self).remaining() == old(self).remaining(),
    {
        match self {
            PnmPixels::Pbm(it) => {
                let r = it.next();
                match r {
                    Some(b) => Some(PnmPixel::Bit(b)),
                    None => None,
                }
            },
            PnmPixels::Pgm(it) => {
                let r = it.next();
                match r {
                    Some(v) => Some(PnmPixel::Gray(v)),
                    None => None,
                }
            },
            PnmPixels::Ppm(it) => {
                let r = it.next();
                match r {
                    Some(c) => Some(PnmPixel::Rgb(c)),
                    None => None,
                }
            },
        }
    }

    /// The number of pixels left.
    pub fn len(&self) -> (r: usize)
        ensures
            r == self.remaining().len(),
    {
        match self {
            PnmPixels::Pbm(it) => it.len(),
            PnmPixels::Pgm(it) => it.len(),
            PnmPixels::Ppm(it) => it.len(),
        }
    }

    /// The pixels left, collected.
    pub fn into_vec(self) -> (r: Vec<PnmPixel>)
        ensures
            r@ == self.remaining(),
    {
        let mut out: Vec<PnmPixel> = Vec::new();
        let mut cur = self;
        while cur.len() > 0
            invariant
                out@ + cur.remaining() == self.remaining(),
            decreases cur.remaining().len(),
        {
            match cur.next() {
                Some(p) => {
                    out.push(p);
                    assert(out@ + cur.remaining() =~= self.remaining());
                },
                None => {},
            }
        }
        assert(out@ =~= self.remaining());
        out
    }
}

/// The items `(x, y, pixel)` of `items[from..]`, where pixel `i` stands at
/// column `i % width` of row `i / width`; none when `width` is zero.
pub open spec fn enumerated<P>(width: usize, items: Seq<P>, from: nat) -> Seq<(usize, usize, P)> {
    if width == 0 || from > items.len() {
        Seq::empty()
    } else {
        Seq::new(
            (items.len() - from) as nat,
            |k: int| (((from + k) % (width as int)) as usize, ((from + k) / (width as int)) as usize, items[from + k]),
        )
    }
}

/// A cursor over pixels with their coordinates; at a row width of zero it
/// gives none.
pub struct EnumeratePixels<P: Copy> {
    width: usize,
    items: Vec<P>,
    index: usize,
}

impl<P: Copy> EnumeratePixels<P> {
    #[verifier::type_invariant]
    closed spec fn in_range(self) -> bool {
        self.index <= self.items@.len()
    }

    /// The items that `next` has yet to give.
    pub closed spec fn remaining(self) -> Seq<(usize, usize, P)> {
        enumerated(self.width, self.items@, self.index as nat)
    }

    /// The number of pixels not yet passed, whatever the row width.
    pub closed spec fn left(self) -> nat {
        (self.items@.len() - self.index) as nat
    }

    /// The width of the rows.
    pub closed spec fn row_width(self) -> usize {
        self.width
    }

    /// A cursor over `items` laid out in rows of `width`.
    pub fn new(width: usize, items: Vec<P>) -> (r: Self)
        ensures
            r.remaining() == enumerated(width, items@, 0),
            r.row_width() == width,
            r.left() == items@.len(),
    {
        EnumeratePixels { width, items, index: 0 }
    }

    /// The next pixel with its column and row, or `None` at the end and at
    /// a row width of zero.
    pub fn next(&mut self) -> (r: Option<(usize, usize, P)>)
        ensures
            final(self).row_width() == old(self).row_width(),
            old(self).remaining().len() > 0 ==> r == Some(old(self).remaining()[0])
                && final(self).remaining() == old(self).remaining().drop_first()
                && final(self).left() == old(self).left() - 1,
            old(self).remaining().len() == 0 ==> r is None && final(self).remaining() == old(self).remaining()
                && final(self).left() == old(self).left(),
    {
        proof {
            use_type_invariant(&*self);
        }
        if self.width == 0 {
            return None;
        }
        if self.index < self.items.len() {
            let i = self.index;
            let item = (i % self.width, i / self.width, self.items[i]);
            self.index = i + 1;
            assert(self.remaining() =~= old(self).remaining().drop_first());
            Some(item)
        } else {
            None
        }
    }

    /// The number of pixels not yet passed, whatever the row width.
    pub fn len(&self) -> (r: usize)
        ensures
            r == self.left(),
            self.row_width() > 0 ==> r == self.remaining().len(),
    {
        proof {
            use_type_invariant(self);
        }
        self.items.len() - self.index
    }

    /// The items left, collected.
    pub fn into_vec(self) -> (r: Vec<(usize, usize, P)>)
        ensures
            r@ == self.remaining(),
    {
        let mut out: Vec<(usize, usize, P)> = Vec::new();
        let mut cur = self;
        loop
            invariant
                out@ + cur.remaining() == self.remaining(),
            ensures
                out@ == self.remaining(),
            decreases cur.remaining().len(),
        {
            match cur.next() {
                Some(p) => {
                    out.push(p);
                    assert(out@ + cur.remaining() =~= self.remaining());
                },
                None => {
                    assert(out@ =~= self.remaining());
                    break;
                },
            }
        }
        out
    }
}

} // verus!
