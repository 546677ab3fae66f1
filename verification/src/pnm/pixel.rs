//! A single pixel of any PNM kind.

use vstd::prelude::*;
use vstd::string::StringExecFns;
use crate::text::{decimal, push_decimal};

verus! {

broadcast use vstd::string::group_string_axioms;

/// A pixel: a bit of a bitmap, a gray level, or the red, green and blue
/// levels of a pixmap.
#[derive(Debug, Clone, Copy, Eq)]
pub enum PnmPixel {
    Bit(bool),
    Gray(u16),
    Rgb([u16; 3]),
}

/// The `Debug` text of a pixel, such as `Rgb([1, 2, 3])`.
pub open spec fn pixel_debug_text(p: PnmPixel) -> Seq<char> {
    match p {
        PnmPixel::Bit(b) => "Bit("@ + (if b { "true"@ } else { "false"@ }) + ")"@,
        PnmPixel::Gray(v) => "Gray("@ + decimal(v as nat) + ")"@,
        PnmPixel::Rgb(c) => "Rgb(["@ + decimal(c[0] as nat) + ", "@ + decimal(c[1] as nat) + ", "@
            + decimal(c[2] as nat) + "])"@,
    }
}

/// Appends the `Debug` text of `p` to `s`.
pub fn push_pixel_debug_text(s: &mut String, p: PnmPixel)
    ensures
        final(s)@ == old(s)@ + pixel_debug_text(p),
{
    match p {
        PnmPixel::Bit(b) => {
            s.append("Bit(");
            if b {
                s.append("true");
            } else {
                s.append("false");
            }
            s.append(")");
        },
        PnmPixel::Gray(v) => {
            s.append("Gray(");
            push_decimal(s, v as usize);
            s.append(")");
        },
        PnmPixel::Rgb(c) => {
            s.append("Rgb([");
            push_decimal(s, c[0] as usize);
            s.append(", ");
            push_decimal(s, c[1] as usize);
            s.append(", ");
            push_decimal(s, c[2] as usize);
            s.append("])");
        },
    }
}

impl PartialEq for PnmPixel {
    fn eq(&self, other: &Self) -> (r: bool) {
        match (self, other) {
            (PnmPixel::Bit(a), PnmPixel::Bit(b)) => *a == *b,
            (PnmPixel::Gray(a), PnmPixel::Gray(b)) => *a == *b,
            (PnmPixel::Rgb(a), PnmPixel::Rgb(b)) => a[0] == b[0] && a[1] == b[1] && a[2] == b[2],
            _ => false,
        }
    }
}

impl vstd::std_specs::cmp::PartialEqSpecImpl for PnmPixel {
    open spec fn obeys_eq_spec() -> bool {
        true
    }

    open spec fn eq_spec(&self, other: &Self) -> bool {
        match (*self, *other) {
            (PnmPixel::Bit(a), PnmPixel::Bit(b)) => a == b,
            (PnmPixel::Gray(a), PnmPixel::Gray(b)) => a == b,
            (PnmPixel::Rgb(a), PnmPixel::Rgb(b)) => a[0] == b[0] && a[1] == b[1] && a[2] == b[2],
            _ => false,
        }
    }
}

impl From<bool> for PnmPixel {
    fn from(pixel: bool) -> (r: Self) {
        PnmPixel::Bit(pixel)
    }
}

impl vstd::std_specs::convert::FromSpecImpl<bool> for PnmPixel {
    open spec fn obeys_from_spec() -> bool {
        true
    }

    open spec fn from_spec(v: bool) -> Self {
        PnmPixel::Bit(v)
    }
}

impl From<u8> for PnmPixel {
    fn from(pixel: u8) -> (r: Self) {
        PnmPixel::Gray(pixel as u16)
    }
}

impl vstd::std_specs::convert::FromSpecImpl<u8> for PnmPixel {
    open spec fn obeys_from_spec() -> bool {
        true
    }

    open spec fn from_spec(v: u8) -> Self {
        PnmPixel::Gray(v as u16)
    }
}

impl From<u16> for PnmPixel {
    fn from(pixel: u16) -> (r: Self) {
        PnmPixel::Gray(pixel)
    }
}

impl vstd::std_specs::convert::FromSpecImpl<u16> for PnmPixel {
    open spec fn obeys_from_spec() -> bool {
        true
    }

    open spec fn from_spec(v: u16) -> Self {
        PnmPixel::Gray(v)
    }
}

impl From<[u8; 3]> for PnmPixel {
    fn from(pixel: [u8; 3]) -> (r: Self) {
        PnmPixel::Rgb([pixel[0] as u16, pixel[1] as u16, pixel[2] as u16])
    }
}

impl vstd::std_specs::convert::FromSpecImpl<[u8; 3]> for PnmPixel {
    open spec fn obeys_from_spec() -> bool {
        true
    }

    open spec fn from_spec(v: [u8; 3]) -> Self {
        PnmPixel::Rgb([v[0] as u16, v[1] as u16, v[2] as u16])
    }
}

impl From<[u16; 3]> for PnmPixel {
    fn from(pixel: [u16; 3]) -> (r: Self) {
        PnmPixel::Rgb(pixel)
    }
}

impl vstd::std_specs::convert::FromSpecImpl<[u16; 3]> for PnmPixel {
    open spec fn obeys_from_spec() -> bool {
        true
    }

    open spec fn from_spec(v: [u16; 3]) -> Self {
        PnmPixel::Rgb(v)
    }
}

} // verus!
