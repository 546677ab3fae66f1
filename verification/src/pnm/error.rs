//! Errors of reading, writing and editing PNM images, and the texts of their
//! messages.

use vstd::prelude::*;
use vstd::string::StringExecFns;
use crate::text::{decimal, push_decimal};

verus! {

broadcast use vstd::string::group_string_axioms;

/// The header field that the input ended before.
#[derive(Debug, Clone, Copy, PartialEq, Eq, Structural)]
pub enum EofAt {
    Kind,
    Size,
    MaxVal,
}

/// An error of the PNM code.
#[derive(Debug)]
pub enum PnmError {
    /// A magic line other than `P1` to `P6`.
    UnknownKind(String),
    /// The input ended while the header was read.
    UnexpectedEof(EofAt),
    /// A width/height line that is not two numbers.
    InvalidHeader(String),
    /// A pixel value, index or coordinate that is refused.
    InvalidPixel(String),
    /// A `#` comment in the data section (comments are not allowed there).
    CommentInData,
    /// A read that failed: invalid UTF-8 in a text line, or data cut short.
    Io(std::io::Error),
    /// A number of an ASCII graymap or pixmap that does not parse.
    ParseError(core::num::ParseIntError),
}

pub type PnmResult<T> = Result<T, PnmError>;

/// `r` is an `InvalidPixel` error with message `msg`.
pub open spec fn is_invalid_pixel<T>(r: PnmResult<T>, msg: Seq<char>) -> bool {
    r matches Err(PnmError::InvalidPixel(m)) && m@ == msg
}

/// "pixel value {value} exceeds max value {max}"
pub open spec fn msg_exceeds_max(value: nat, max: nat) -> Seq<char> {
    "pixel value "@ + decimal(value) + " exceeds max value "@ + decimal(max)
}

/// "pixel value {value} exceeds u8 range"
pub open spec fn msg_exceeds_u8(value: nat) -> Seq<char> {
    "pixel value "@ + decimal(value) + " exceeds u8 range"@
}

/// "pixel index {index} out of bounds"
pub open spec fn msg_index_out_of_bounds(index: nat) -> Seq<char> {
    "pixel index "@ + decimal(index) + " out of bounds"@
}

/// "pixel coordinates ({x}, {y}) out of bounds for {width}x{height} image"
pub open spec fn msg_coords_out_of_bounds(x: nat, y: nat, width: nat, height: nat) -> Seq<char> {
    "pixel coordinates ("@ + decimal(x) + ", "@ + decimal(y) + ") out of bounds for "@
        + decimal(width) + "x"@ + decimal(height) + " image"@
}

pub fn invalid_pixel(message: String) -> (r: PnmError)
    ensures
        r matches PnmError::InvalidPixel(m) && m@ == message@,
{
    PnmError::InvalidPixel(message)
}

pub fn exceeds_max_error(value: u16, max: u16) -> (r: PnmError)
    ensures
        r matches PnmError::InvalidPixel(m) && m@ == msg_exceeds_max(value as nat, max as nat),
{
    let mut s = "pixel value ".to_string();
    push_decimal(&mut s, value as usize);
    s.append(" exceeds max value ");
    push_decimal(&mut s, max as usize);
    invalid_pixel(s)
}

pub fn exceeds_u8_error(value: u16) -> (r: PnmError)
    ensures
        r matches PnmError::InvalidPixel(m) && m@ == msg_exceeds_u8(value as nat),
{
    let mut s = "pixel value ".to_string();
    push_decimal(&mut s, value as usize);
    s.append(" exceeds u8 range");
    invalid_pixel(s)
}

pub fn index_out_of_bounds_error(index: usize) -> (r: PnmError)
    ensures
        r matches PnmError::InvalidPixel(m) && m@ == msg_index_out_of_bounds(index as nat),
{
    let mut s = "pixel index ".to_string();
    push_decimal(&mut s, index);
    s.append(" out of bounds");
    invalid_pixel(s)
}

pub fn coords_out_of_bounds_error(x: usize, y: usize, width: usize, height: usize) -> (r: PnmError)
    ensures
        r matches PnmError::InvalidPixel(m) && m@ == msg_coords_out_of_bounds(
            x as nat,
            y as nat,
            width as nat,
            height as nat,
        ),
{
    let mut s = "pixel coordinates (".to_string();
    push_decimal(&mut s, x);
    s.append(", ");
    push_decimal(&mut s, y);
    s.append(") out of bounds for ");
    push_decimal(&mut s, width);
    s.append("x");
    push_decimal(&mut s, height);
    s.append(" image");
    invalid_pixel(s)
}

} // verus!
