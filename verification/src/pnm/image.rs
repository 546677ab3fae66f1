//! A PNM image of any of the six kinds.

use vstd::prelude::*;
use vstd::string::StringExecFns;
use vstd::utf8::{encode_utf8, valid_utf8};
use crate::bindings::string_from_utf8;
use crate::text::{ascii_bytes, decimal_bytes, push_bytes, push_decimal_bytes};
use super::buf::{
    AsciiPbmBuf, AsciiPgmBuf, AsciiPpmBuf, BinaryPbmBuf, BinaryPgmBuf, BinaryPpmBuf, PnmBuf,
};
use super::bits::max_bits;
use super::decode::{
    bits_result, comment_views, data_error_matches, gray_result, header_error_matches, header_view,
    pbm_ascii_stage, pbm_binary_view, pgm_ascii_view, pgm_binary_view, ppm_ascii_view,
    ppm_binary_view, read_header, rgb_result, DataView, HeaderView, PnmHeader,
};
use super::content::{added, lemma_kind_consts, sample_bytes, data_writable, data_written, extends, PnmContent, PnmKindTrait, P1, P2, P3, P4, P5, P6};
use super::data::PnmPixelData;
use super::error::{is_invalid_pixel, PnmError, PnmResult};
use super::iter::{enumerated, EnumeratePixels, PnmPixels};
use super::kind::PnmKind;
use super::maxval::{MaxValTrait, MaxValue};
use super::pixel::{pixel_debug_text, push_pixel_debug_text, PnmPixel};

verus! {

broadcast use vstd::string::group_string_axioms;

/// Portable AnyMap Format(PNM)
pub enum Pnm {
    AsciiPbm(AsciiPbmBuf),
    AsciiPgm(AsciiPgmBuf),
    AsciiPpm(AsciiPpmBuf),
    BinaryPbm(BinaryPbmBuf),
    BinaryPgm(BinaryPgmBuf),
    BinaryPpm(BinaryPpmBuf),
}

/// "pixel kind mismatch for {kind} image: {pixel:?}"
pub open spec fn msg_kind_mismatch(kind: PnmKind, pixel: PnmPixel) -> Seq<char> {
    "pixel kind mismatch for "@ + kind.name() + " image: "@ + pixel_debug_text(pixel)
}

/// Whether a pixel of this variant belongs in an image of `kind`.
pub open spec fn kind_takes(kind: PnmKind, pixel: PnmPixel) -> bool {
    match pixel {
        PnmPixel::Bit(_) => kind.spec_is_pbm(),
        PnmPixel::Gray(_) => kind.spec_is_pgm(),
        PnmPixel::Rgb(_) => kind.spec_is_ppm(),
    }
}

/// The comment lines of the header: `# {comment}` each.
pub open spec fn comment_bytes(comments: Seq<String>) -> Seq<u8>
    decreases comments.len(),
{
    if comments.len() == 0 {
        Seq::empty()
    } else {
        comment_bytes(comments.drop_last()) + seq![35u8, 32u8] + encode_utf8(comments.last()@)
            + seq![10u8]
    }
}

/// The header: magic line, comments, size line and sample-maximum line.
pub open spec fn header_bytes(
    kind: PnmKind,
    comments: Seq<String>,
    width: nat,
    height: nat,
    max_val_text: Seq<u8>,
) -> Seq<u8> {
    ascii_bytes(kind.name()) + seq![10u8] + comment_bytes(comments) + decimal_bytes(width) + seq![32u8]
        + decimal_bytes(height) + seq![10u8] + max_val_text + seq![10u8]
}

/// The header of a buffer of kind `T`.
pub open spec fn buf_header<T: PnmKindTrait>(buf: PnmBuf<T>) -> Seq<u8> {
    header_bytes(T::KIND, buf.comments@, buf.width as nat, buf.height as nat, buf.max_val.header_text())
}

/// Whether `out` is what a buffer of kind `T` writes: its header, then its
/// data section.
pub open spec fn buf_encodes<T: PnmKindTrait>(buf: PnmBuf<T>, out: Seq<u8>) -> bool {
    let h = buf_header(buf);
    &&& out.len() >= h.len()
    &&& out.take(h.len() as int) == h
    &&& data_written::<T>(buf.data, buf.width as nat, buf.height as nat, out.skip(h.len() as int))
}

/// Mapping a sequence commutes with replacing one of its items.
pub proof fn lemma_map_update<A, B>(s: Seq<A>, i: int, a: A, f: spec_fn(A) -> B)
    requires
        0 <= i < s.len(),
    ensures
        s.update(i, a).map_values(f) == s.map_values(f).update(i, f(a)),
{
    assert(s.update(i, a).map_values(f) =~= s.map_values(f).update(i, f(a)));
}

/// Bytes appended after `start + head` are appended after `start`, led by `head`.
pub proof fn lemma_split(start: Seq<u8>, head: Seq<u8>, end: Seq<u8>)
    requires
        extends(start + head, end),
    ensures
        extends(start, end),
        added(start, end).len() >= head.len(),
        added(start, end).take(head.len() as int) == head,
        added(start, end).skip(head.len() as int) == added(start + head, end),
{
    let a = added(start, end);
    let sh = start + head;
    assert forall|k: int| 0 <= k < head.len() implies #[trigger] a[k] == head[k] by {
        assert(end[start.len() + k] == end.take(sh.len() as int)[start.len() + k]);
        assert(sh[start.len() + k] == head[k]);
    }
    assert(a.take(head.len() as int) =~= head);
    assert forall|k: int| 0 <= k < start.len() implies #[trigger] end[k] == start[k] by {
        assert(end[k] == end.take(sh.len() as int)[k]);
        assert(sh[k] == start[k]);
    }
    assert(end.take(start.len() as int) =~= start);
    assert(a.skip(head.len() as int) =~= added(sh, end));
}

impl Pnm {
    pub open spec fn spec_kind(self) -> PnmKind {
        match self {
            Pnm::AsciiPbm(_) => PnmKind::P1,
            Pnm::AsciiPgm(_) => PnmKind::P2,
            Pnm::AsciiPpm(_) => PnmKind::P3,
            Pnm::BinaryPbm(_) => PnmKind::P4,
            Pnm::BinaryPgm(_) => PnmKind::P5,
            Pnm::BinaryPpm(_) => PnmKind::P6,
        }
    }

    pub open spec fn spec_width(self) -> usize {
        match self {
            Pnm::AsciiPbm(b) => b.width,
            Pnm::AsciiPgm(b) => b.width,
            Pnm::AsciiPpm(b) => b.width,
            Pnm::BinaryPbm(b) => b.width,
            Pnm::BinaryPgm(b) => b.width,
            Pnm::BinaryPpm(b) => b.width,
        }
    }

    pub open spec fn spec_height(self) -> usize {
        match self {
            Pnm::AsciiPbm(b) => b.height,
            Pnm::AsciiPgm(b) => b.height,
            Pnm::AsciiPpm(b) => b.height,
            Pnm::BinaryPbm(b) => b.height,
            Pnm::BinaryPgm(b) => b.height,
            Pnm::BinaryPpm(b) => b.height,
        }
    }

    pub open spec fn spec_comments(self) -> Seq<String> {
        match self {
            Pnm::AsciiPbm(b) => b.comments@,
            Pnm::AsciiPgm(b) => b.comments@,
            Pnm::AsciiPpm(b) => b.comments@,
            Pnm::BinaryPbm(b) => b.comments@,
            Pnm::BinaryPgm(b) => b.comments@,
            Pnm::BinaryPpm(b) => b.comments@,
        }
    }

    pub open spec fn spec_max_val(self) -> Option<MaxValue> {
        match self {
            Pnm::AsciiPbm(_) => None,
            Pnm::AsciiPgm(b) => Some(b.max_val),
            Pnm::AsciiPpm(b) => Some(b.max_val),
            Pnm::BinaryPbm(_) => None,
            Pnm::BinaryPgm(b) => Some(b.max_val),
            Pnm::BinaryPpm(b) => Some(b.max_val),
        }
    }

    /// The pixels, in row-major order.
    pub open spec fn spec_pixels(self) -> Seq<PnmPixel> {
        match self {
            Pnm::AsciiPbm(b) => b.data@.map_values(|v: bool| PnmPixel::Bit(v)),
            Pnm::AsciiPgm(b) => b.data.pixel_seq().map_values(|v: u16| PnmPixel::Gray(v)),
            Pnm::AsciiPpm(b) => b.data.pixel_seq().map_values(|v: [u16; 3]| PnmPixel::Rgb(v)),
            Pnm::BinaryPbm(b) => b.data@.map_values(|v: bool| PnmPixel::Bit(v)),
            Pnm::BinaryPgm(b) => b.data.pixel_seq().map_values(|v: u16| PnmPixel::Gray(v)),
            Pnm::BinaryPpm(b) => b.data.pixel_seq().map_values(|v: [u16; 3]| PnmPixel::Rgb(v)),
        }
    }

    /// The pixel at `(x, y)`, if the image holds one there.
    pub open spec fn spec_pixel(self, x: nat, y: nat) -> Option<PnmPixel> {
        let i = y * (self.spec_width() as nat) + x;
        if x < self.spec_width() && y < self.spec_height() && i < self.spec_pixels().len() {
            Some(self.spec_pixels()[i as int])
        } else {
            None
        }
    }

    /// The index of every pixel inside the image fits in a `usize`.
    pub open spec fn index_fits(self, x: nat, y: nat) -> bool {
        x < self.spec_width() && y < self.spec_height() ==> y * (self.spec_width() as nat) + x
            <= usize::MAX
    }

    /// Whether the storage can hold `pixel` (of the image's variant).
    pub open spec fn holds(self, pixel: PnmPixel) -> bool {
        match (self, pixel) {
            (Pnm::AsciiPgm(b), PnmPixel::Gray(v)) => b.data.holds(v),
            (Pnm::BinaryPgm(b), PnmPixel::Gray(v)) => b.data.holds(v),
            (Pnm::AsciiPpm(b), PnmPixel::Rgb(v)) => b.data.holds(v),
            (Pnm::BinaryPpm(b), PnmPixel::Rgb(v)) => b.data.holds(v),
            _ => true,
        }
    }

    /// Whether `pixel` keeps to the sample maximum.
    pub open spec fn within(self, pixel: PnmPixel) -> bool {
        match pixel {
            PnmPixel::Bit(_) => true,
            PnmPixel::Gray(v) => <super::data::GrayData as PnmPixelData>::within(v, self.spec_max_val()),
            PnmPixel::Rgb(v) => <super::data::RgbData as PnmPixelData>::within(v, self.spec_max_val()),
        }
    }

    /// The message that refuses `pixel` for exceeding the sample maximum.
    pub open spec fn excess(self, pixel: PnmPixel) -> Seq<char> {
        match pixel {
            PnmPixel::Bit(_) => Seq::empty(),
            PnmPixel::Gray(v) => <super::data::GrayData as PnmPixelData>::excess(v, self.spec_max_val()),
            PnmPixel::Rgb(v) => <super::data::RgbData as PnmPixelData>::excess(v, self.spec_max_val()),
        }
    }

    /// The message that refuses to store `pixel` at `index`.
    pub open spec fn refusal(self, index: nat, pixel: PnmPixel) -> Seq<char> {
        match (self, pixel) {
            (Pnm::AsciiPbm(b), PnmPixel::Bit(v)) => b.data.refusal(index, v),
            (Pnm::BinaryPbm(b), PnmPixel::Bit(v)) => b.data.refusal(index, v),
            (Pnm::AsciiPgm(b), PnmPixel::Gray(v)) => b.data.refusal(index, v),
            (Pnm::BinaryPgm(b), PnmPixel::Gray(v)) => b.data.refusal(index, v),
            (Pnm::AsciiPpm(b), PnmPixel::Rgb(v)) => b.data.refusal(index, v),
            (Pnm::BinaryPpm(b), PnmPixel::Rgb(v)) => b.data.refusal(index, v),
            _ => Seq::empty(),
        }
    }

    /// Whether `write` accepts the image.
    pub open spec fn writable(self) -> bool {
        match self {
            Pnm::AsciiPbm(b) => data_writable::<P1>(b.data, b.width as nat, b.height as nat),
            Pnm::AsciiPgm(b) => data_writable::<P2>(b.data, b.width as nat, b.height as nat),
            Pnm::AsciiPpm(b) => data_writable::<P3>(b.data, b.width as nat, b.height as nat),
            Pnm::BinaryPbm(b) => data_writable::<P4>(b.data, b.width as nat, b.height as nat),
            Pnm::BinaryPgm(b) => data_writable::<P5>(b.data, b.width as nat, b.height as nat),
            Pnm::BinaryPpm(b) => data_writable::<P6>(b.data, b.width as nat, b.height as nat),
        }
    }

    /// The header that `write` writes.
    pub open spec fn header(self) -> Seq<u8> {
        match self {
            Pnm::AsciiPbm(b) => buf_header(b),
            Pnm::AsciiPgm(b) => buf_header(b),
            Pnm::AsciiPpm(b) => buf_header(b),
            Pnm::BinaryPbm(b) => buf_header(b),
            Pnm::BinaryPgm(b) => buf_header(b),
            Pnm::BinaryPpm(b) => buf_header(b),
        }
    }

    /// Whether `out` is what `write` may write: the header, then the data.
    pub open spec fn encodes(self, out: Seq<u8>) -> bool {
        match self {
            Pnm::AsciiPbm(b) => buf_encodes(b, out),
            Pnm::AsciiPgm(b) => buf_encodes(b, out),
            Pnm::AsciiPpm(b) => buf_encodes(b, out),
            Pnm::BinaryPbm(b) => buf_encodes(b, out),
            Pnm::BinaryPgm(b) => buf_encodes(b, out),
            Pnm::BinaryPpm(b) => buf_encodes(b, out),
        }
    }

    /// The text of the sample maximum in the header.
    pub open spec fn max_val_text(self) -> Seq<u8> {
        match self.spec_max_val() {
            Some(m) => m.header_text(),
            None => Seq::empty(),
        }
    }

    pub fn kind(&self) -> (r: PnmKind)
        ensures
            r == self.spec_kind(),
    {
        match self {
            Pnm::AsciiPbm(_) => PnmKind::P1,
            Pnm::AsciiPgm(_) => PnmKind::P2,
            Pnm::AsciiPpm(_) => PnmKind::P3,
            Pnm::BinaryPbm(_) => PnmKind::P4,
            Pnm::BinaryPgm(_) => PnmKind::P5,
            Pnm::BinaryPpm(_) => PnmKind::P6,
        }
    }

    pub fn comments(&self) -> (r: &[String])
        ensures
            r@ == self.spec_comments(),
    {
        match self {
            Pnm::AsciiPbm(buf) => buf.comments.as_slice(),
            Pnm::AsciiPgm(buf) => buf.comments.as_slice(),
            Pnm::AsciiPpm(buf) => buf.comments.as_slice(),
            Pnm::BinaryPbm(buf) => buf.comments.as_slice(),
            Pnm::BinaryPgm(buf) => buf.comments.as_slice(),
            Pnm::BinaryPpm(buf) => buf.comments.as_slice(),
        }
    }

    pub fn width(&self) -> (r: usize)
        ensures
            r == self.spec_width(),
    {
        match self {
            Pnm::AsciiPbm(buf) => buf.width,
            Pnm::AsciiPgm(buf) => buf.width,
            Pnm::AsciiPpm(buf) => buf.width,
            Pnm::BinaryPbm(buf) => buf.width,
            Pnm::BinaryPgm(buf) => buf.width,
            Pnm::BinaryPpm(buf) => buf.width,
        }
    }

    pub fn height(&self) -> (r: usize)
        ensures
            r == self.spec_height(),
    {
        match self {
            Pnm::AsciiPbm(buf) => buf.height,
            Pnm::AsciiPgm(buf) => buf.height,
            Pnm::AsciiPpm(buf) => buf.height,
            Pnm::BinaryPbm(buf) => buf.height,
            Pnm::BinaryPgm(buf) => buf.height,
            Pnm::BinaryPpm(buf) => buf.height,
        }
    }

    /// `width * height`.
    pub fn pixel_count(&self) -> (r: usize)
        requires
            self.spec_width() * self.spec_height() <= usize::MAX,
        ensures
            r == self.spec_width() * self.spec_height(),
    {
        self.width() * self.height()
    }

    /// The number of stored pixels.
    pub fn len(&self) -> (r: usize)
        ensures
            r == self.spec_pixels().len(),
    {
        match self {
            Pnm::AsciiPbm(buf) => buf.len(),
            Pnm::AsciiPgm(buf) => buf.len(),
            Pnm::AsciiPpm(buf) => buf.len(),
            Pnm::BinaryPbm(buf) => buf.len(),
            Pnm::BinaryPgm(buf) => buf.len(),
            Pnm::BinaryPpm(buf) => buf.len(),
        }
    }

    pub fn is_empty(&self) -> (r: bool)
        ensures
            r == (self.spec_pixels().len() == 0),
    {
        self.len() == 0
    }

    pub fn contains_pixel(&self, x: usize, y: usize) -> (r: bool)
        ensures
            r == (x < self.spec_width() && y < self.spec_height()),
    {
        x < self.width() && y < self.height()
    }

    /// The row-major index of `(x, y)`, if it lies inside the image.
    pub fn pixel_index(&self, x: usize, y: usize) -> (r: Option<usize>)
        requires
            self.index_fits(x as nat, y as nat),
        ensures
            r == (if x < self.spec_width() && y < self.spec_height() {
                Some((y * (self.spec_width() as nat) + x) as usize)
            } else {
                None
            }),
    {
        if self.contains_pixel(x, y) {
            Some(y * self.width() + x)
        } else {
            None
        }
    }

    /// The pixel at `(x, y)`, or `None` outside the image or past the data.
    pub fn pixel(&self, x: usize, y: usize) -> (r: Option<PnmPixel>)
        requires
            self.index_fits(x as nat, y as nat),
        ensures
            r == self.spec_pixel(x as nat, y as nat),
    {
        match self {
            Pnm::AsciiPbm(buf) => match buf.pixel(x, y) {
                Some(v) => Some(PnmPixel::Bit(v)),
                None => None,
            },
            Pnm::AsciiPgm(buf) => match buf.pixel(x, y) {
                Some(v) => Some(PnmPixel::Gray(v)),
                None => None,
            },
            Pnm::AsciiPpm(buf) => match buf.pixel(x, y) {
                Some(v) => Some(PnmPixel::Rgb(v)),
                None => None,
            },
            Pnm::BinaryPbm(buf) => match buf.pixel(x, y) {
                Some(v) => Some(PnmPixel::Bit(v)),
                None => None,
            },
            Pnm::BinaryPgm(buf) => match buf.pixel(x, y) {
                Some(v) => Some(PnmPixel::Gray(v)),
                None => None,
            },
            Pnm::BinaryPpm(buf) => match buf.pixel(x, y) {
                Some(v) => Some(PnmPixel::Rgb(v)),
                None => None,
            },
        }
    }

    /// What `set_pixel(x, y, pixel)` does to the image, leaving `after` and
    /// returning `r`: a refusal (of a pixel of another variant than the
    /// image's kind takes, coordinates outside the image, a value above the
    /// sample maximum, or a pixel that the storage cannot hold or whose index
    /// lies past the data) changes no pixel; success replaces the pixel of
    /// index `y * width + x`.
    pub open spec fn set_pixel_result(self, after: Pnm, x: nat, y: nat, pixel: PnmPixel, r: PnmResult<()>) -> bool {
        let inside = x < self.spec_width() && y < self.spec_height();
        let i = y * (self.spec_width() as nat) + x;
        &&& after.spec_kind() == self.spec_kind()
        &&& after.spec_width() == self.spec_width()
        &&& after.spec_height() == self.spec_height()
        &&& after.spec_comments() == self.spec_comments()
        &&& after.spec_max_val() == self.spec_max_val()
        &&& forall|p: PnmPixel| #[trigger] after.holds(p) == self.holds(p)
        &&& !kind_takes(self.spec_kind(), pixel) ==> after == self && is_invalid_pixel(
            r,
            msg_kind_mismatch(self.spec_kind(), pixel),
        )
        &&& kind_takes(self.spec_kind(), pixel) && !inside ==> after.spec_pixels() == self.spec_pixels()
            && is_invalid_pixel(
            r,
            super::error::msg_coords_out_of_bounds(
                x,
                y,
                self.spec_width() as nat,
                self.spec_height() as nat,
            ),
        )
        &&& kind_takes(self.spec_kind(), pixel) && inside && !self.within(pixel)
            ==> after.spec_pixels() == self.spec_pixels() && is_invalid_pixel(r, self.excess(pixel))
        &&& kind_takes(self.spec_kind(), pixel) && inside && self.within(pixel) ==> {
            &&& r is Ok <==> i < self.spec_pixels().len() && self.holds(pixel)
            &&& r is Ok ==> after.spec_pixels() == self.spec_pixels().update(i as int, pixel)
            &&& r is Err ==> after.spec_pixels() == self.spec_pixels() && is_invalid_pixel(
                r,
                self.refusal(i, pixel),
            )
        }
    }

    /// Writes `pixel` at `(x, y)`, as `set_pixel_result` describes.
    fn set_pnm_pixel(&mut self, x: usize, y: usize, pixel: PnmPixel) -> (r: PnmResult<()>)
        requires
            old(self).index_fits(x as nat, y as nat),
        ensures
            old(self).set_pixel_result(*final(self), x as nat, y as nat, pixel, r),
    {
        let kind = self.kind();
        let r = match (&mut *self, pixel) {
            (Pnm::AsciiPbm(buf), PnmPixel::Bit(p)) => buf.set_pixel(x, y, p),
            (Pnm::BinaryPbm(buf), PnmPixel::Bit(p)) => buf.set_pixel(x, y, p),
            (Pnm::AsciiPgm(buf), PnmPixel::Gray(p)) => buf.set_pixel(x, y, p),
            (Pnm::BinaryPgm(buf), PnmPixel::Gray(p)) => buf.set_pixel(x, y, p),
            (Pnm::AsciiPpm(buf), PnmPixel::Rgb(p)) => buf.set_pixel(x, y, p),
            (Pnm::BinaryPpm(buf), PnmPixel::Rgb(p)) => buf.set_pixel(x, y, p),
            _ => {
                let mut message = "pixel kind mismatch for ".to_string();
                message.append(kind.as_str());
                message.append(" image: ");
                push_pixel_debug_text(&mut message, pixel);
                Err(PnmError::InvalidPixel(message))
            },
        };
        proof {
            let i = (y as nat) * (old(self).spec_width() as nat) + (x as nat);
            if r is Ok {
                match (*old(self), pixel) {
                    (Pnm::AsciiPbm(a), PnmPixel::Bit(p)) => {
                        lemma_map_update(a.data@, i as int, p, |v: bool| PnmPixel::Bit(v));
                    },
                    (Pnm::BinaryPbm(a), PnmPixel::Bit(p)) => {
                        lemma_map_update(a.data@, i as int, p, |v: bool| PnmPixel::Bit(v));
                    },
                    (Pnm::AsciiPgm(a), PnmPixel::Gray(p)) => {
                        lemma_map_update(a.data.pixel_seq(), i as int, p, |v: u16| PnmPixel::Gray(v));
                    },
                    (Pnm::BinaryPgm(a), PnmPixel::Gray(p)) => {
                        lemma_map_update(a.data.pixel_seq(), i as int, p, |v: u16| PnmPixel::Gray(v));
                    },
                    (Pnm::AsciiPpm(a), PnmPixel::Rgb(p)) => {
                        lemma_map_update(a.data.pixel_seq(), i as int, p, |v: [u16; 3]| PnmPixel::Rgb(v));
                    },
                    (Pnm::BinaryPpm(a), PnmPixel::Rgb(p)) => {
                        lemma_map_update(a.data.pixel_seq(), i as int, p, |v: [u16; 3]| PnmPixel::Rgb(v));
                    },
                    _ => {},
                }
            }
        }
        r
    }

    /// Writes `pixel`, converted to a `PnmPixel`, at `(x, y)`. Refuses a
    /// pixel of another variant than the image's kind takes, coordinates
    /// outside the image, a value above the sample maximum, and a pixel that
    /// the storage cannot hold or whose index lies past the data; a refusal
    /// changes no pixel.
    pub fn set_pixel<P: Into<PnmPixel>>(&mut self, x: usize, y: usize, pixel: P) -> (r: PnmResult<()>)
        requires
            old(self).index_fits(x as nat, y as nat),
            <P as vstd::std_specs::convert::IntoSpec<PnmPixel>>::obeys_into_spec(),
        ensures
            old(self).set_pixel_result(
                *final(self),
                x as nat,
                y as nat,
                <P as vstd::std_specs::convert::IntoSpec<PnmPixel>>::into_spec(pixel),
                r,
            ),
    {
        let p: PnmPixel = pixel.into();
        self.set_pnm_pixel(x, y, p)
    }

    /// The header is made of the image's kind, comments, size and maximum.
    pub proof fn lemma_header(self)
        ensures
            self.header() == header_bytes(
                self.spec_kind(),
                self.spec_comments(),
                self.spec_width() as nat,
                self.spec_height() as nat,
                self.max_val_text(),
            ),
    {
        lemma_kind_consts();
        match self {
            Pnm::AsciiPbm(b) => {
                assert(b.max_val.header_text() =~= self.max_val_text());
            },
            Pnm::BinaryPbm(b) => {
                assert(b.max_val.header_text() =~= self.max_val_text());
            },
            _ => {},
        }
    }

    /// An encoding is the header followed by a data section.
    pub proof fn lemma_encodes(self, out: Seq<u8>)
        requires
            out.len() >= self.header().len(),
            out.take(self.header().len() as int) == self.header(),
            self.data_encodes(out.skip(self.header().len() as int)),
        ensures
            self.encodes(out),
    {
    }

    /// Whether `out` is what `write_data` may write.
    pub open spec fn data_encodes(self, out: Seq<u8>) -> bool {
        match self {
            Pnm::AsciiPbm(b) => data_written::<P1>(b.data, b.width as nat, b.height as nat, out),
            Pnm::AsciiPgm(b) => data_written::<P2>(b.data, b.width as nat, b.height as nat, out),
            Pnm::AsciiPpm(b) => data_written::<P3>(b.data, b.width as nat, b.height as nat, out),
            Pnm::BinaryPbm(b) => data_written::<P4>(b.data, b.width as nat, b.height as nat, out),
            Pnm::BinaryPgm(b) => data_written::<P5>(b.data, b.width as nat, b.height as nat, out),
            Pnm::BinaryPpm(b) => data_written::<P6>(b.data, b.width as nat, b.height as nat, out),
        }
    }

    /// A cursor over the pixels.
    pub fn pixels(&self) -> (r: PnmPixels<'_>)
        ensures
            r.remaining() == self.spec_pixels(),
    {
        match self {
            Pnm::AsciiPbm(buf) => PnmPixels::Pbm(buf.pixels()),
            Pnm::AsciiPgm(buf) => PnmPixels::Pgm(buf.normalized_gray_pixels()),
            Pnm::AsciiPpm(buf) => PnmPixels::Ppm(buf.normalized_rgb_pixels()),
            Pnm::BinaryPbm(buf) => PnmPixels::Pbm(buf.pixels()),
            Pnm::BinaryPgm(buf) => PnmPixels::Pgm(buf.normalized_gray_pixels()),
            Pnm::BinaryPpm(buf) => PnmPixels::Ppm(buf.normalized_rgb_pixels()),
        }
    }

    /// A cursor over the pixels with their coordinates.
    pub fn enumerate_pixels(&self) -> (r: EnumeratePixels<PnmPixel>)
        ensures
            r.remaining() == enumerated(self.spec_width(), self.spec_pixels(), 0),
            r.row_width() == self.spec_width(),
            r.left() == self.spec_pixels().len(),
    {
        EnumeratePixels::new(self.width(), self.pixels().into_vec())
    }

    /// Appends the sample maximum as the header writes it (a space and the
    /// number; nothing for bitmaps).
    pub fn write_max_val(&self, w: &mut Vec<u8>) -> (r: PnmResult<()>)
        ensures
            r is Ok,
            final(w)@ == old(w)@ + self.max_val_text(),
    {
        match self {
            Pnm::AsciiPbm(_) => ().write_max_val(w),
            Pnm::AsciiPgm(buf) => buf.max_val.write_max_val(w),
            Pnm::AsciiPpm(buf) => buf.max_val.write_max_val(w),
            Pnm::BinaryPbm(_) => ().write_max_val(w),
            Pnm::BinaryPgm(buf) => buf.max_val.write_max_val(w),
            Pnm::BinaryPpm(buf) => buf.max_val.write_max_val(w),
        }
    }

    /// Appends the sample-maximum line of the header.
    pub fn writeln_max_val(&self, w: &mut Vec<u8>) -> (r: PnmResult<()>)
        ensures
            r is Ok,
            final(w)@ == old(w)@ + self.max_val_text() + seq![10u8],
    {
        self.write_max_val(w)?;
        w.push(10u8);
        Ok(())
    }

    fn write_data(&self, w: &mut Vec<u8>) -> (r: PnmResult<()>)
        requires
            self.writable(),
        ensures
            r is Ok,
            extends(old(w)@, final(w)@),
            self.data_encodes(added(old(w)@, final(w)@)),
    {
        match self {
            Pnm::AsciiPbm(buf) => P1::write_data(&buf.data, w, buf.width, buf.height),
            Pnm::AsciiPgm(buf) => P2::write_data(&buf.data, w, buf.width, buf.height),
            Pnm::AsciiPpm(buf) => P3::write_data(&buf.data, w, buf.width, buf.height),
            Pnm::BinaryPbm(buf) => P4::write_data(&buf.data, w, buf.width, buf.height),
            Pnm::BinaryPgm(buf) => P5::write_data(&buf.data, w, buf.width, buf.height),
            Pnm::BinaryPpm(buf) => P6::write_data(&buf.data, w, buf.width, buf.height),
        }
    }

    /// Appends the image in its kind's encoding to `w`: the magic line, a
    /// `# ` line per comment, the size line, the sample-maximum line, then the
    /// data.
    pub fn write(&self, w: &mut Vec<u8>) -> (r: PnmResult<()>)
        requires
            self.writable(),
        ensures
            r is Ok,
            extends(old(w)@, final(w)@),
            self.encodes(added(old(w)@, final(w)@)),
    {
        let ghost start = w@;
        let kind = self.kind();
        w.push(80u8);
        w.push(match kind {
            PnmKind::P1 => 49u8,
            PnmKind::P2 => 50u8,
            PnmKind::P3 => 51u8,
            PnmKind::P4 => 52u8,
            PnmKind::P5 => 53u8,
            PnmKind::P6 => 54u8,
        });
        w.push(10u8);
        assert(w@ =~= start + ascii_bytes(kind.name()) + seq![10u8]);
        let comments = self.comments();
        let ghost before_comments = w@;
        for i in 0..comments.len()
            invariant
                comments@ == self.spec_comments(),
                w@ == before_comments + comment_bytes(comments@.take(i as int)),
        {
            w.push(35u8);
            w.push(32u8);
            push_bytes(w, comments[i].as_str().as_bytes());
            w.push(10u8);
            assert(comments@.take(i + 1).drop_last() =~= comments@.take(i as int));
            assert(w@ =~= before_comments + comment_bytes(comments@.take(i + 1)));
        }
        assert(comments@.take(comments@.len() as int) =~= comments@);
        push_decimal_bytes(w, self.width());
        w.push(32u8);
        push_decimal_bytes(w, self.height());
        w.push(10u8);
        self.writeln_max_val(w)?;
        let ghost after_header = w@;
        proof {
            self.lemma_header();
            assert(after_header =~= start + header_bytes(
                self.spec_kind(),
                self.spec_comments(),
                self.spec_width() as nat,
                self.spec_height() as nat,
                self.max_val_text(),
            ));
        }
        self.write_data(w)?;
        proof {
            lemma_split(start, self.header(), w@);
            self.lemma_encodes(added(start, w@));
        }
        Ok(())
    }

    /// The image written out as a string.
    #[allow(clippy::inherent_to_string)]
    pub fn to_string(&self) -> (r: String)
        requires
            self.writable(),
            forall|out: Seq<u8>| #[trigger] self.encodes(out) ==> valid_utf8(out),
        ensures
            self.encodes(encode_utf8(r@)),
    {
        let mut buf: Vec<u8> = Vec::new();
        let _ = self.write(&mut buf);
        assert(added(Seq::<u8>::empty(), buf@) =~= buf@);
        let s = string_from_utf8(buf);
        s.unwrap()
    }

    /// The sample maximum; `None` for bitmaps.
    pub fn max_val(&self) -> (r: Option<MaxValue>)
        ensures
            r == self.spec_max_val(),
    {
        match self {
            Pnm::AsciiPbm(_) => None,
            Pnm::AsciiPgm(buf) => Some(buf.max_val),
            Pnm::AsciiPpm(buf) => Some(buf.max_val),
            Pnm::BinaryPbm(_) => None,
            Pnm::BinaryPgm(buf) => Some(buf.max_val),
            Pnm::BinaryPpm(buf) => Some(buf.max_val),
        }
    }

    /// The file extension: `pbm`, `pgm` or `ppm`.
    pub fn extension(&self) -> (r: &'static str)
        ensures
            r@ == self.spec_kind().extension_name(),
    {
        self.kind().extension()
    }
}

} // verus!

verus! {

/// What reading the data section of kind `kind` from `rest` gives.
pub open spec fn data_view(kind: PnmKind, rest: Seq<u8>, max: Option<u16>, width: nat, height: nat) -> DataView {
    let wide = max matches Some(m) && m > 255;
    match kind {
        PnmKind::P1 => pbm_ascii_stage(rest, 0, Seq::empty(), width, height),
        PnmKind::P2 => pgm_ascii_view(rest, wide, width, height),
        PnmKind::P3 => ppm_ascii_view(rest, wide, width, height),
        PnmKind::P4 => pbm_binary_view(rest, width, height),
        PnmKind::P5 => pgm_binary_view(rest, wide, width, height),
        PnmKind::P6 => ppm_binary_view(rest, wide, width, height),
    }
}

/// Whether the data section of kind `kind` can be read without running
/// past the sizes that the buffers can take (`BitSlice::MAX_BITS` bits,
/// `isize::MAX` bytes).
pub open spec fn data_readable(kind: PnmKind, rest: Seq<u8>, max: Option<u16>, width: nat, height: nat) -> bool {
    let m = match max {
        Some(m) => m,
        None => 0u16,
    };
    match kind {
        PnmKind::P1 => width * height <= max_bits() && rest.len() < max_bits(),
        PnmKind::P4 => width * height <= max_bits(),
        PnmKind::P2 | PnmKind::P5 => sample_bytes(m, 1) * (width * height) <= isize::MAX,
        PnmKind::P3 | PnmKind::P6 => sample_bytes(m, 3) * (width * height) <= isize::MAX,
    }
}

/// Whether a data view is an error.
pub open spec fn is_error_view(v: DataView) -> bool {
    !(v is Bits || v is Gray8 || v is Gray16 || v is Rgb8 || v is Rgb16)
}

/// Whether the pixels of `p` are those of the data view `v`.
pub open spec fn pnm_data_matches(p: Pnm, v: DataView) -> bool {
    match p {
        Pnm::AsciiPbm(b) => bits_result(v, Ok(b.data)),
        Pnm::BinaryPbm(b) => bits_result(v, Ok(b.data)),
        Pnm::AsciiPgm(b) => gray_result(v, Ok(b.data)),
        Pnm::BinaryPgm(b) => gray_result(v, Ok(b.data)),
        Pnm::AsciiPpm(b) => rgb_result(v, Ok(b.data)),
        Pnm::BinaryPpm(b) => rgb_result(v, Ok(b.data)),
    }
}

/// Whether a sample maximum read as `max` is `m`.
pub open spec fn max_val_matches(max: Option<u16>, m: Option<MaxValue>) -> bool {
    match max {
        None => m is None,
        Some(v) => m matches Some(x) && x@ == v,
    }
}

impl Pnm {
    /// Whether `from_reader` accepts `input`: the buffer that its header
    /// calls for can be made.
    pub open spec fn readable_input(input: Seq<u8>) -> bool {
        match header_view(input) {
            HeaderView::Parsed(f) => data_readable(
                f.kind,
                input.skip(f.end as int),
                f.max_val,
                f.width as nat,
                f.height as nat,
            ),
            _ => true,
        }
    }

    /// Whether `r` is what reading `input` gives.
    pub open spec fn read_spec(input: Seq<u8>, r: PnmResult<Pnm>) -> bool {
        match header_view(input) {
            HeaderView::Parsed(f) => {
                let v = data_view(f.kind, input.skip(f.end as int), f.max_val, f.width as nat, f.height as nat);
                if is_error_view(v) {
                    r matches Err(e) && data_error_matches(v, e)
                } else {
                    r matches Ok(p) && {
                        &&& p.spec_kind() == f.kind
                        &&& p.spec_width() == f.width
                        &&& p.spec_height() == f.height
                        &&& comment_views(p.spec_comments()) == f.comments
                        &&& max_val_matches(f.max_val, p.spec_max_val())
                        &&& pnm_data_matches(p, v)
                    }
                }
            },
            view => r matches Err(e) && header_error_matches(view, e),
        }
    }

    /// Reads a PNM image from its bytes: the header, then the data section
    /// in the encoding of its kind.
    pub fn from_reader(reader: &[u8]) -> (r: PnmResult<Pnm>)
        requires
            Pnm::readable_input(reader@),
        ensures
            Pnm::read_spec(reader@, r),
    {
        let header = match read_header(reader) {
            Ok(h) => h,
            Err(e) => {
                return Err(e);
            },
        };
        let PnmHeader { kind, width, height, max_val, comments, end } = header;
        let rest = &reader[end..reader.len()];
        proof {
            lemma_kind_consts();
            assert(rest@ == reader@.skip(end as int));
        }
        match kind {
            PnmKind::P1 => {
                let data = match P1::read_data(rest, (), width, height) {
                    Ok(d) => d,
                    Err(e) => {
                        return Err(e);
                    },
                };
                Ok(Pnm::AsciiPbm(PnmBuf::new(width, height, (), comments, data)))
            },
            PnmKind::P2 => {
                let m = max_val.unwrap();
                let data = match P2::read_data(rest, m, width, height) {
                    Ok(d) => d,
                    Err(e) => {
                        return Err(e);
                    },
                };
                Ok(Pnm::AsciiPgm(PnmBuf::new(width, height, m, comments, data)))
            },
            PnmKind::P3 => {
                let m = max_val.unwrap();
                let data = match P3::read_data(rest, m, width, height) {
                    Ok(d) => d,
                    Err(e) => {
                        return Err(e);
                    },
                };
                Ok(Pnm::AsciiPpm(PnmBuf::new(width, height, m, comments, data)))
            },
            PnmKind::P4 => {
                let data = match P4::read_data(rest, (), width, height) {
                    Ok(d) => d,
                    Err(e) => {
                        return Err(e);
                    },
                };
                Ok(Pnm::BinaryPbm(PnmBuf::new(width, height, (), comments, data)))
            },
            PnmKind::P5 => {
                let m = max_val.unwrap();
                let data = match P5::read_data(rest, m, width, height) {
                    Ok(d) => d,
                    Err(e) => {
                        return Err(e);
                    },
                };
                Ok(Pnm::BinaryPgm(PnmBuf::new(width, height, m, comments, data)))
            },
            PnmKind::P6 => {
                let m = max_val.unwrap();
                let data = match P6::read_data(rest, m, width, height) {
                    Ok(d) => d,
                    Err(e) => {
                        return Err(e);
                    },
                };
                Ok(Pnm::BinaryPpm(PnmBuf::new(width, height, m, comments, data)))
            },
        }
    }

    /// Whether `write` accepts the image: its data agrees with its size as
    /// the kind's encoding needs.
    pub fn is_writable(&self) -> (r: bool)
        ensures
            r == self.writable(),
    {
        proof {
            lemma_kind_consts();
        }
        let w = self.width();
        let h = self.height();
        let n = self.len();
        match self {
            Pnm::AsciiPbm(_) => match w.checked_mul(h) {
                Some(wh) => n == wh,
                None => false,
            },
            Pnm::BinaryPbm(_) => match w.checked_mul(h) {
                Some(wh) => {
                    if h == 0 {
                        true
                    } else {
                        proof {
                            assert((h - 1) * w <= w * h) by (nonlinear_arith)
                                requires h >= 1;
                            assert(wh == w * h);
                        }
                        (h - 1) * w <= n
                    }
                },
                None => false,
            },
            Pnm::AsciiPgm(_) => w > 0 || n == 0,
            Pnm::BinaryPgm(_) => true,
            Pnm::AsciiPpm(_) => w > 0 && match w.checked_mul(h) {
                Some(wh) => n == wh,
                None => false,
            },
            Pnm::BinaryPpm(_) => match w.checked_mul(h) {
                Some(wh) => n == wh,
                None => false,
            },
        }
    }

    /// Whether `from_reader` accepts `reader` (see `readable_input`).
    pub fn readable(reader: &[u8]) -> (r: bool)
        ensures
            r == Pnm::readable_input(reader@),
    {
        let h = match read_header(reader) {
            Ok(h) => h,
            Err(_) => {
                return true;
            },
        };
        let n = match h.width.checked_mul(h.height) {
            Some(n) => n,
            None => {
                proof {
                    let wh: int = h.width * h.height;
                    assert forall|m: u16, c: nat| c >= 1 implies sample_bytes(m, c) * wh >= wh by {
                        assert(sample_bytes(m, c) >= 1);
                        assert(sample_bytes(m, c) * wh >= wh) by (nonlinear_arith)
                            requires sample_bytes(m, c) >= 1, wh >= 0;
                    }
                    assert(sample_bytes(0, 1) * wh >= wh);
                }
                return false;
            },
        };
        let bits_limit = usize::MAX / 8;
        let m: u16 = match h.max_val {
            Some(m) => m.get(),
            None => 0,
        };
        let wide = m > 255;
        proof {
            assert(reader@.skip(h.end as int).len() == reader@.len() - h.end);
        }
        match h.kind {
            PnmKind::P1 => n <= bits_limit && reader.len() - h.end < bits_limit,
            PnmKind::P4 => n <= bits_limit,
            PnmKind::P2 | PnmKind::P5 => {
                let per: usize = if wide { 2 } else { 1 };
                proof {
                    let pi: int = per as int;
                    let ni: int = n as int;
                    let lim: int = isize::MAX as int;
                    assert((pi * ni <= lim) == (ni <= lim / pi)) by (nonlinear_arith)
                        requires pi == 1 || pi == 2, ni >= 0, lim >= 0;
                }
                n <= (isize::MAX as usize) / per
            },
            PnmKind::P3 | PnmKind::P6 => {
                let per: usize = if wide { 6 } else { 3 };
                proof {
                    let pi: int = per as int;
                    let ni: int = n as int;
                    let lim: int = isize::MAX as int;
                    assert((pi * ni <= lim) == (ni <= lim / pi)) by (nonlinear_arith)
                        requires pi == 3 || pi == 6, ni >= 0, lim >= 0;
                }
                n <= (isize::MAX as usize) / per
            },
        }
    }
}

} // verus!
