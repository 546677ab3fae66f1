//! Portable anymap images (PBM, PGM, PPM) in their ASCII and binary forms.

mod error;

pub use self::error::{EofAt, PnmError, PnmResult};
mod maxval;

pub use self::maxval::{MaxValTrait, MaxValue};
mod kind;
mod pixel;

pub use self::kind::PnmKind;
pub use self::pixel::PnmPixel;
mod data;

pub use self::data::{GrayData, PnmPixelData, RgbData};
mod bits;

pub use self::bits::BitData;
mod encode;
mod content;

pub use self::content::{P1, P2, P3, P4, P5, P6, Pbm, Pgm, PnmContent, PnmKindTrait, Ppm};
mod iter;

pub use self::iter::{DataPixels, EnumeratePixels, GrayPixels, PbmPixels, PnmPixels, RgbPixels};
mod buf;

pub use self::buf::{
    AsciiPbmBuf, AsciiPgmBuf, AsciiPpmBuf, BinaryPbmBuf, BinaryPgmBuf, BinaryPpmBuf, PnmBuf,
};
mod image;

pub use self::image::Pnm;
mod decode;
mod laws;
mod roundtrip;
mod packed;

pub use self::packed::{
    law_pbm_binary_length, law_pbm_binary_read_after_write, law_pbm_binary_read_length,
};

pub use self::roundtrip::{
    comment_clean, law_read_after_write, reads_back, same_gray, same_image, same_rgb,
};

pub use self::laws::{
    law_buf_pixel_after_set_pixel, law_enumerate_pixels_match_pixel, law_kind_name_round_trip,
    law_gray_set_pixel_max, law_kind_partition, law_pixel_at_after_set_pixel_at,
    law_pixel_index_row_major, law_pnm_pixel_after_set_pixel, law_rgb_set_pixel_max, wide_samples,
};
