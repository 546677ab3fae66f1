//! The three PNM formats (bitmap, graymap, pixmap), the six kinds that pair a
//! format with an encoding, and how each kind writes its data section.

use vstd::prelude::*;
use super::bits::{max_bits, BitData};
use super::decode::{
    bits_result, gray_result, pbm_ascii_stage, pbm_binary_view, pgm_ascii_view, pgm_binary_view,
    ppm_ascii_view, ppm_binary_view, read_pbm_ascii, read_pbm_binary, read_pgm_ascii,
    read_pgm_binary, read_ppm_ascii, read_ppm_binary, rgb_result,
};
use super::data::{GrayData, PnmPixelData, RgbData};
use super::encode::{
    pbm_ascii_text, pbm_binary_prefix, pgm_ascii_text, pgm_binary_text, ppm_ascii_prefix,
    ppm_binary_text, write_pbm_ascii, write_pbm_binary, write_pgm_ascii, write_pgm_binary,
    write_ppm_ascii, write_ppm_binary,
};
use super::error::PnmResult;
use super::kind::PnmKind;
use super::maxval::{MaxValTrait, MaxValue};

verus! {

/// `after` is `before` followed by more bytes.
pub open spec fn extends(before: Seq<u8>, after: Seq<u8>) -> bool {
    after.len() >= before.len() && after.take(before.len() as int) == before
}

/// The bytes that `after` adds to `before`.
pub open spec fn added(before: Seq<u8>, after: Seq<u8>) -> Seq<u8> {
    after.skip(before.len() as int)
}

/// The I/O of one format (PBM, PGM or PPM) in its two encodings.
pub trait PnmContent {
    type DataType: PnmPixelData;
    type PixelType: Copy;
    type MaxVal: MaxValTrait;

    const EXTENSION: &'static str;

    /// Whether `write_ascii` accepts data of these dimensions.
    spec fn ascii_writable(data: Self::DataType, width: nat, height: nat) -> bool;

    /// Whether `out` is what `write_ascii` may write.
    spec fn ascii_written(data: Self::DataType, width: nat, height: nat, out: Seq<u8>) -> bool;

    /// Whether `write_binary` accepts data of these dimensions.
    spec fn binary_writable(data: Self::DataType, width: nat, height: nat) -> bool;

    /// Whether `out` is what `write_binary` may write.
    spec fn binary_written(data: Self::DataType, width: nat, height: nat, out: Seq<u8>) -> bool;

    /// Whether `read_ascii` accepts `input` with these dimensions.
    spec fn ascii_readable(input: Seq<u8>, maxval: Self::MaxVal, width: nat, height: nat) -> bool;

    /// Whether `r` is what `read_ascii` gives for `input`.
    spec fn ascii_read(
        input: Seq<u8>,
        maxval: Self::MaxVal,
        width: nat,
        height: nat,
        r: PnmResult<Self::DataType>,
    ) -> bool;

    /// Whether `read_binary` accepts `input` with these dimensions.
    spec fn binary_readable(input: Seq<u8>, maxval: Self::MaxVal, width: nat, height: nat) -> bool;

    /// Whether `r` is what `read_binary` gives for `input`.
    spec fn binary_read(
        input: Seq<u8>,
        maxval: Self::MaxVal,
        width: nat,
        height: nat,
        r: PnmResult<Self::DataType>,
    ) -> bool;

    /// Reads the data in the ASCII encoding from `r`.
    fn read_ascii(r: &[u8], maxval: Self::MaxVal, width: usize, height: usize) -> (res: PnmResult<Self::DataType>)
        requires
            Self::ascii_readable(r@, maxval, width as nat, height as nat),
        ensures
            Self::ascii_read(r@, maxval, width as nat, height as nat, res),
    ;

    /// Reads the data in the binary encoding from `r`.
    fn read_binary(r: &[u8], maxval: Self::MaxVal, width: usize, height: usize) -> (res: PnmResult<Self::DataType>)
        requires
            Self::binary_readable(r@, maxval, width as nat, height as nat),
        ensures
            Self::binary_read(r@, maxval, width as nat, height as nat, res),
    ;

    /// Appends the data in the ASCII encoding to `w`.
    fn write_ascii(data: &Self::DataType, w: &mut Vec<u8>, width: usize, height: usize) -> (r: PnmResult<()>)
        requires
            Self::ascii_writable(*data, width as nat, height as nat),
        ensures
            r is Ok,
            extends(old(w)@, final(w)@),
            Self::ascii_written(*data, width as nat, height as nat, added(old(w)@, final(w)@)),
    ;

    /// Appends the data in the binary encoding to `w`.
    fn write_binary(data: &Self::DataType, w: &mut Vec<u8>, width: usize, height: usize) -> (r: PnmResult<()>)
        requires
            Self::binary_writable(*data, width as nat, height as nat),
        ensures
            r is Ok,
            extends(old(w)@, final(w)@),
            Self::binary_written(*data, width as nat, height as nat, added(old(w)@, final(w)@)),
    ;
}

/// Portable bitmap format (PBM)
/// 0: black, 1: white
pub struct Pbm;

/// Portable graymap format (PGM)
/// 0: black, 255: white (8-bit)
/// 0: black, 65535: white (16-bit)
pub struct Pgm;

/// Portable pixmap format (PPM)
/// Red, Green, Blue: 0-255 (8-bit)
/// Red, Green, Blue: 0-65535 (16-bit)
pub struct Ppm;

/// The bytes of one pixel of `channels` samples, each 8-bit up to a maximum
/// of 255 and 16-bit above.
pub open spec fn sample_bytes(max: u16, channels: nat) -> nat {
    if max > 255 { 2 * channels } else { channels }
}

/// A pixel count whose buffer fits in `isize::MAX` bytes, at `channels`
/// bytes a pixel or more, fits in a `usize` even at six bytes a pixel when
/// `channels` is 3.
proof fn lemma_sample_bound(max: u16, channels: nat, n: nat)
    requires
        channels == 1 || channels == 3,
        sample_bytes(max, channels) * n <= isize::MAX,
    ensures
        n <= usize::MAX,
        channels == 3 ==> 6 * n <= usize::MAX,
{
    assert(isize::MAX as int * 2 + 1 == usize::MAX as int);
    assert(n <= sample_bytes(max, channels) * n) by (nonlinear_arith)
        requires
            sample_bytes(max, channels) >= 1,
    ;
    if channels == 3 {
        assert(3 * n <= sample_bytes(max, channels) * n) by (nonlinear_arith)
            requires
                sample_bytes(max, channels) >= 3,
        ;
    }
}

proof fn lemma_appended(before: Seq<u8>, out: Seq<u8>)
    ensures
        extends(before, before + out),
        added(before, before + out) == out,
{
    assert((before + out).take(before.len() as int) =~= before);
    assert((before + out).skip(before.len() as int) =~= out);
}

impl PnmContent for Pbm {
    type DataType = BitData;
    type PixelType = bool;
    type MaxVal = ();

    const EXTENSION: &'static str = "pbm";

    open spec fn ascii_readable(input: Seq<u8>, maxval: (), width: nat, height: nat) -> bool {
        width * height <= max_bits() && input.len() < max_bits()
    }

    open spec fn ascii_read(input: Seq<u8>, maxval: (), width: nat, height: nat, r: PnmResult<BitData>) -> bool {
        bits_result(pbm_ascii_stage(input, 0, Seq::empty(), width, height), r)
    }

    open spec fn binary_readable(input: Seq<u8>, maxval: (), width: nat, height: nat) -> bool {
        width * height <= max_bits()
    }

    open spec fn binary_read(input: Seq<u8>, maxval: (), width: nat, height: nat, r: PnmResult<BitData>) -> bool {
        bits_result(pbm_binary_view(input, width, height), r)
    }

    /// Read a PBM file from ASCII format(P1)
    fn read_ascii(r: &[u8], maxval: (), width: usize, height: usize) -> (res: PnmResult<BitData>) {
        read_pbm_ascii(r, width, height)
    }

    /// Read a PBM file from binary format(P4)
    fn read_binary(r: &[u8], maxval: (), width: usize, height: usize) -> (res: PnmResult<BitData>) {
        read_pbm_binary(r, width, height)
    }

    open spec fn ascii_writable(data: BitData, width: nat, height: nat) -> bool {
        width * height <= usize::MAX && data@.len() == width * height
    }

    open spec fn ascii_written(data: BitData, width: nat, height: nat, out: Seq<u8>) -> bool {
        out == pbm_ascii_text(data@, width)
    }

    open spec fn binary_writable(data: BitData, width: nat, height: nat) -> bool {
        width * height <= usize::MAX && (height == 0 || (height - 1) * width <= data@.len())
    }

    open spec fn binary_written(data: BitData, width: nat, height: nat, out: Seq<u8>) -> bool {
        out == pbm_binary_prefix(data@, width, height)
    }

    /// Write a PBM file in ASCII format(P1)
    fn write_ascii(data: &BitData, w: &mut Vec<u8>, width: usize, height: usize) -> (r: PnmResult<()>) {
        let ghost before = w@;
        write_pbm_ascii(data, w, width, height);
        proof {
            lemma_appended(before, pbm_ascii_text(data@, width as nat));
        }
        Ok(())
    }

    /// Write a PBM file in binary format(P4)
    fn write_binary(data: &BitData, w: &mut Vec<u8>, width: usize, height: usize) -> (r: PnmResult<()>) {
        let ghost before = w@;
        write_pbm_binary(data, w, width, height);
        proof {
            lemma_appended(before, pbm_binary_prefix(data@, width as nat, height as nat));
        }
        Ok(())
    }
}

impl PnmContent for Pgm {
    type DataType = GrayData;
    type PixelType = u16;
    type MaxVal = MaxValue;

    const EXTENSION: &'static str = "pgm";

    open spec fn ascii_readable(input: Seq<u8>, maxval: MaxValue, width: nat, height: nat) -> bool {
        sample_bytes(maxval@, 1) * (width * height) <= isize::MAX
    }

    open spec fn ascii_read(input: Seq<u8>, maxval: MaxValue, width: nat, height: nat, r: PnmResult<GrayData>) -> bool {
        gray_result(pgm_ascii_view(input, maxval@ > 255, width, height), r)
    }

    open spec fn binary_readable(input: Seq<u8>, maxval: MaxValue, width: nat, height: nat) -> bool {
        sample_bytes(maxval@, 1) * (width * height) <= isize::MAX
    }

    open spec fn binary_read(input: Seq<u8>, maxval: MaxValue, width: nat, height: nat, r: PnmResult<GrayData>) -> bool {
        gray_result(pgm_binary_view(input, maxval@ > 255, width, height), r)
    }

    /// Read a PGM file in ASCII format (P2)
    fn read_ascii(r: &[u8], maxval: MaxValue, width: usize, height: usize) -> (res: PnmResult<GrayData>) {
        proof {
            lemma_sample_bound(maxval@, 1, width as nat * height as nat);
        }
        read_pgm_ascii(r, maxval.get() > 255, width, height)
    }

    /// Read a PGM file in binary format (P5)
    fn read_binary(r: &[u8], maxval: MaxValue, width: usize, height: usize) -> (res: PnmResult<GrayData>) {
        proof {
            lemma_sample_bound(maxval@, 1, width as nat * height as nat);
        }
        read_pgm_binary(r, maxval.get() > 255, width, height)
    }

    open spec fn ascii_writable(data: GrayData, width: nat, height: nat) -> bool {
        width > 0 || data.pixel_seq().len() == 0
    }

    open spec fn ascii_written(data: GrayData, width: nat, height: nat, out: Seq<u8>) -> bool {
        out == pgm_ascii_text(data.pixel_seq(), width)
    }

    open spec fn binary_writable(data: GrayData, width: nat, height: nat) -> bool {
        true
    }

    open spec fn binary_written(data: GrayData, width: nat, height: nat, out: Seq<u8>) -> bool {
        out == pgm_binary_text(data)
    }

    /// Write a PGM file in ASCII format (P2)
    fn write_ascii(data: &GrayData, w: &mut Vec<u8>, width: usize, height: usize) -> (r: PnmResult<()>) {
        let ghost before = w@;
        write_pgm_ascii(data, w, width);
        proof {
            lemma_appended(before, pgm_ascii_text(data.pixel_seq(), width as nat));
        }
        Ok(())
    }

    /// Write a PGM file in binary format (P5)
    fn write_binary(data: &GrayData, w: &mut Vec<u8>, width: usize, height: usize) -> (r: PnmResult<()>) {
        let ghost before = w@;
        write_pgm_binary(data, w);
        proof {
            lemma_appended(before, pgm_binary_text(*data));
        }
        Ok(())
    }
}

impl PnmContent for Ppm {
    type DataType = RgbData;
    type PixelType = [u16; 3];
    type MaxVal = MaxValue;

    const EXTENSION: &'static str = "ppm";

    open spec fn ascii_readable(input: Seq<u8>, maxval: MaxValue, width: nat, height: nat) -> bool {
        sample_bytes(maxval@, 3) * (width * height) <= isize::MAX
    }

    open spec fn ascii_read(input: Seq<u8>, maxval: MaxValue, width: nat, height: nat, r: PnmResult<RgbData>) -> bool {
        rgb_result(ppm_ascii_view(input, maxval@ > 255, width, height), r)
    }

    open spec fn binary_readable(input: Seq<u8>, maxval: MaxValue, width: nat, height: nat) -> bool {
        sample_bytes(maxval@, 3) * (width * height) <= isize::MAX
    }

    open spec fn binary_read(input: Seq<u8>, maxval: MaxValue, width: nat, height: nat, r: PnmResult<RgbData>) -> bool {
        rgb_result(ppm_binary_view(input, maxval@ > 255, width, height), r)
    }

    /// Read a PPM file in ASCII format (P3)
    fn read_ascii(r: &[u8], maxval: MaxValue, width: usize, height: usize) -> (res: PnmResult<RgbData>) {
        proof {
            lemma_sample_bound(maxval@, 3, width as nat * height as nat);
        }
        read_ppm_ascii(r, maxval.get() > 255, width, height)
    }

    /// Read a PPM file in binary format (P6)
    fn read_binary(r: &[u8], maxval: MaxValue, width: usize, height: usize) -> (res: PnmResult<RgbData>) {
        proof {
            lemma_sample_bound(maxval@, 3, width as nat * height as nat);
        }
        read_ppm_binary(r, maxval.get() > 255, width, height)
    }

    open spec fn ascii_writable(data: RgbData, width: nat, height: nat) -> bool {
        width > 0 && width * height <= usize::MAX && data.pixel_seq().len() == width * height
    }

    open spec fn ascii_written(data: RgbData, width: nat, height: nat, out: Seq<u8>) -> bool {
        out == ppm_ascii_prefix(data.pixel_seq(), width, data.pixel_seq().len())
    }

    open spec fn binary_writable(data: RgbData, width: nat, height: nat) -> bool {
        width * height <= usize::MAX && data.pixel_seq().len() == width * height
    }

    open spec fn binary_written(data: RgbData, width: nat, height: nat, out: Seq<u8>) -> bool {
        ppm_binary_text(data, out)
    }

    /// Write a PPM file in ASCII format (P3)
    fn write_ascii(data: &RgbData, w: &mut Vec<u8>, width: usize, height: usize) -> (r: PnmResult<()>) {
        let ghost before = w@;
        write_ppm_ascii(data, w, width);
        proof {
            lemma_appended(
                before,
                ppm_ascii_prefix(data.pixel_seq(), width as nat, data.pixel_seq().len()),
            );
        }
        Ok(())
    }

    /// Write a PPM file in binary format (P6)
    fn write_binary(data: &RgbData, w: &mut Vec<u8>, width: usize, height: usize) -> (r: PnmResult<()>) {
        write_ppm_binary(data, w);
        Ok(())
    }
}

/// A PNM kind as a type: a format and an encoding.
pub trait PnmKindTrait: Sized {
    type Content: PnmContent;
    type MaxVal: MaxValTrait;

    const KIND: PnmKind;

    /// Reads the data in the kind's encoding from `r`.
    fn read_data(
        r: &[u8],
        maxval: <Self::Content as PnmContent>::MaxVal,
        width: usize,
        height: usize,
    ) -> (res: PnmResult<<Self::Content as PnmContent>::DataType>)
        requires
            if Self::KIND.spec_is_ascii() {
                Self::Content::ascii_readable(r@, maxval, width as nat, height as nat)
            } else {
                Self::Content::binary_readable(r@, maxval, width as nat, height as nat)
            },
        ensures
            if Self::KIND.spec_is_ascii() {
                Self::Content::ascii_read(r@, maxval, width as nat, height as nat, res)
            } else {
                Self::Content::binary_read(r@, maxval, width as nat, height as nat, res)
            },
    {
        if Self::KIND.is_ascii() {
            Self::Content::read_ascii(r, maxval, width, height)
        } else {
            Self::Content::read_binary(r, maxval, width, height)
        }
    }

    /// Appends the data in the kind's encoding to `w`.
    fn write_data(
        data: &<Self::Content as PnmContent>::DataType,
        w: &mut Vec<u8>,
        width: usize,
        height: usize,
    ) -> (r: PnmResult<()>)
        requires
            if Self::KIND.spec_is_ascii() {
                Self::Content::ascii_writable(*data, width as nat, height as nat)
            } else {
                Self::Content::binary_writable(*data, width as nat, height as nat)
            },
        ensures
            r is Ok,
            extends(old(w)@, final(w)@),
            if Self::KIND.spec_is_ascii() {
                Self::Content::ascii_written(*data, width as nat, height as nat, added(old(w)@, final(w)@))
            } else {
                Self::Content::binary_written(*data, width as nat, height as nat, added(old(w)@, final(w)@))
            },
    {
        if Self::KIND.is_ascii() {
            Self::Content::write_ascii(data, w, width, height)
        } else {
            Self::Content::write_binary(data, w, width, height)
        }
    }
}

/// Whether kind `T` can write `data` with these dimensions.
pub open spec fn data_writable<T: PnmKindTrait>(
    data: <T::Content as PnmContent>::DataType,
    width: nat,
    height: nat,
) -> bool {
    if T::KIND.spec_is_ascii() {
        T::Content::ascii_writable(data, width, height)
    } else {
        T::Content::binary_writable(data, width, height)
    }
}

/// Whether `out` is what kind `T` may write for `data`.
pub open spec fn data_written<T: PnmKindTrait>(
    data: <T::Content as PnmContent>::DataType,
    width: nat,
    height: nat,
    out: Seq<u8>,
) -> bool {
    if T::KIND.spec_is_ascii() {
        T::Content::ascii_written(data, width, height, out)
    } else {
        T::Content::binary_written(data, width, height, out)
    }
}

/// The kinds of the six kind types.
pub proof fn lemma_kind_consts()
    ensures
        <P1 as PnmKindTrait>::KIND == PnmKind::P1,
        <P2 as PnmKindTrait>::KIND == PnmKind::P2,
        <P3 as PnmKindTrait>::KIND == PnmKind::P3,
        <P4 as PnmKindTrait>::KIND == PnmKind::P4,
        <P5 as PnmKindTrait>::KIND == PnmKind::P5,
        <P6 as PnmKindTrait>::KIND == PnmKind::P6,
{
}

/// ASCII PBM
pub struct P1;

impl PnmKindTrait for P1 {
    type Content = Pbm;
    type MaxVal = ();

    const KIND: PnmKind = PnmKind::P1;
}

/// ASCII PGM
pub struct P2;

impl PnmKindTrait for P2 {
    type Content = Pgm;
    type MaxVal = MaxValue;

    const KIND: PnmKind = PnmKind::P2;
}

/// ASCII PPM
pub struct P3;

impl PnmKindTrait for P3 {
    type Content = Ppm;
    type MaxVal = MaxValue;

    const KIND: PnmKind = PnmKind::P3;
}

/// Binary PBM
pub struct P4;

impl PnmKindTrait for P4 {
    type Content = Pbm;
    type MaxVal = ();

    const KIND: PnmKind = PnmKind::P4;
}

/// Binary PGM
pub struct P5;

impl PnmKindTrait for P5 {
    type Content = Pgm;
    type MaxVal = MaxValue;

    const KIND: PnmKind = PnmKind::P5;
}

/// Binary PPM
pub struct P6;

impl PnmKindTrait for P6 {
    type Content = Ppm;
    type MaxVal = MaxValue;

    const KIND: PnmKind = PnmKind::P6;
}

} // verus!
