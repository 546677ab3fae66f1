//! Trusted items: the standard-library types and functions that the PNM code
//! uses and that vstd does not specify. Each contract below is believed by
//! Verus without proof.

use vstd::prelude::*;

verus! {

/// `std::io::Error`, the error of a failed read: carried through unexamined.
#[verifier::external_type_specification]
#[verifier::external_body]
pub struct ExIoError(std::io::Error);

/// `core::num::ParseIntError`, the error of a failed integer parse: carried
/// through unexamined.
#[verifier::external_type_specification]
#[verifier::external_body]
pub struct ExParseIntError(core::num::ParseIntError);

} // verus!

verus! {

/// The bytes of the colors `data`, in order: color `i` fills bytes `3 * i`
/// to `3 * i + 2`.
pub open spec fn rgb8_bytes_spec(data: Seq<[u8; 3]>, bytes: Seq<u8>) -> bool {
    &&& bytes.len() == 3 * data.len()
    &&& forall|i: int, j: int| 0 <= i < data.len() && 0 <= j < 3 ==> #[trigger] bytes[3 * i + j] == data[i][j]
}

/// The little-endian bytes of three 16-bit samples.
pub open spec fn rgb16_le_bytes(p: [u16; 3]) -> Seq<u8> {
    seq![
        (p[0] % 256) as u8, (p[0] / 256) as u8,
        (p[1] % 256) as u8, (p[1] / 256) as u8,
        (p[2] % 256) as u8, (p[2] / 256) as u8,
    ]
}

/// The big-endian bytes of three 16-bit samples.
pub open spec fn rgb16_be_bytes(p: [u16; 3]) -> Seq<u8> {
    seq![
        (p[0] / 256) as u8, (p[0] % 256) as u8,
        (p[1] / 256) as u8, (p[1] % 256) as u8,
        (p[2] / 256) as u8, (p[2] % 256) as u8,
    ]
}

/// `byteorder::BigEndian::write_u16` into a two-byte buffer: the big-endian
/// bytes of `n`.
#[verifier::external_body]
pub fn u16_be_bytes(n: u16) -> (r: [u8; 2])
    ensures
        r[0] == n / 256,
        r[1] == n % 256,
{
    let mut buf = [0u8; 2];
    <byteorder::BigEndian as byteorder::ByteOrder>::write_u16(&mut buf, n);
    buf
}

/// `byteorder::BigEndian::read_u16` on a two-byte buffer: the number whose
/// big-endian bytes are `bytes`.
#[verifier::external_body]
pub fn u16_from_be_bytes(bytes: [u8; 2]) -> (r: u16)
    ensures
        r == bytes[0] as nat * 256 + bytes[1] as nat,
{
    <byteorder::BigEndian as byteorder::ByteOrder>::read_u16(&bytes)
}

/// `bytemuck::cast_slice` from colors to bytes: the bytes of the colors in
/// order, without a copy.
#[verifier::external_body]
pub fn rgb8_as_bytes(data: &[[u8; 3]]) -> (r: &[u8])
    ensures
        rgb8_bytes_spec(data@, r@),
{
    bytemuck::cast_slice(data)
}

/// Whether `bytes` holds the colors `data` in order, six bytes each, every
/// sample little-endian.
pub open spec fn rgb16_all_le(data: Seq<[u16; 3]>, bytes: Seq<u8>) -> bool {
    &&& bytes.len() == 6 * data.len()
    &&& forall|i: int| 0 <= i < data.len() ==> #[trigger] bytes.subrange(6 * i, 6 * i + 6) == rgb16_le_bytes(data[i])
}

/// Whether `bytes` holds the colors `data` in order, six bytes each, every
/// sample big-endian.
pub open spec fn rgb16_all_be(data: Seq<[u16; 3]>, bytes: Seq<u8>) -> bool {
    &&& bytes.len() == 6 * data.len()
    &&& forall|i: int| 0 <= i < data.len() ==> #[trigger] bytes.subrange(6 * i, 6 * i + 6) == rgb16_be_bytes(data[i])
}

/// `bytemuck::cast_slice` from 16-bit colors to bytes: the colors in order,
/// every sample in the machine's byte order, which is the same for all of
/// them and is little-endian or big-endian; which one is not stated.
#[verifier::external_body]
pub fn rgb16_as_ne_bytes(data: &[[u16; 3]]) -> (r: &[u8])
    ensures
        rgb16_all_le(data@, r@) || rgb16_all_be(data@, r@),
{
    bytemuck::cast_slice(data)
}

} // verus!

verus! {

/// `String::from_utf8`: the string whose UTF-8 encoding is `bytes`, or
/// `None` when `bytes` is not valid UTF-8.
#[verifier::external_body]
pub fn string_from_utf8(bytes: Vec<u8>) -> (r: Option<String>)
    ensures
        r is Some <==> vstd::utf8::valid_utf8(bytes@),
        r matches Some(s) ==> vstd::utf8::encode_utf8(s@) == bytes@,
{
    String::from_utf8(bytes).ok()
}

/// `std::str::from_utf8`: the string slice whose UTF-8 encoding is `bytes`,
/// or `None` when `bytes` is not valid UTF-8.
#[verifier::external_body]
pub fn str_from_utf8(bytes: &[u8]) -> (r: Option<&str>)
    ensures
        r is Some <==> vstd::utf8::valid_utf8(bytes@),
        r matches Some(s) ==> vstd::utf8::encode_utf8(s@) == bytes@,
{
    std::str::from_utf8(bytes).ok()
}

} // verus!

verus! {

/// `str::parse::<usize>`: the value of `s` when it is an unsigned decimal
/// numeral within `usize`; `None` otherwise.
#[verifier::external_body]
pub fn parse_usize(s: &str) -> (r: Option<usize>)
    ensures
        r is Some <==> crate::text::parses_unsigned(s@, usize::MAX as nat),
        r matches Some(v) ==> v == crate::text::unsigned_value(s@),
{
    s.parse::<usize>().ok()
}

/// `str::parse::<u8>`: the value of `s` when it is an unsigned decimal
/// numeral up to 255; its error otherwise.
#[verifier::external_body]
pub fn parse_u8(s: &str) -> (r: Result<u8, core::num::ParseIntError>)
    ensures
        r is Ok <==> crate::text::parses_unsigned(s@, 255),
        r matches Ok(v) ==> v == crate::text::unsigned_value(s@),
{
    s.parse::<u8>()
}

/// `str::parse::<u16>`: the value of `s` when it is an unsigned decimal
/// numeral up to 65535; its error otherwise.
#[verifier::external_body]
pub fn parse_u16(s: &str) -> (r: Result<u16, core::num::ParseIntError>)
    ensures
        r is Ok <==> crate::text::parses_unsigned(s@, 65535),
        r matches Ok(v) ==> v == crate::text::unsigned_value(s@),
{
    s.parse::<u16>()
}

/// `str::parse::<NonZeroU16>`: the value of `s` when it is an unsigned
/// decimal numeral from 1 to 65535; `None` otherwise.
#[verifier::external_body]
pub fn parse_nonzero_u16(s: &str) -> (r: Option<u16>)
    ensures
        r is Some <==> (crate::text::parses_unsigned(s@, 65535) && crate::text::unsigned_value(s@) != 0),
        r matches Some(v) ==> v == crate::text::unsigned_value(s@),
{
    s.parse::<core::num::NonZeroU16>().ok().map(|n| n.get())
}

/// `std::io::Error::new(ErrorKind::InvalidData, ..)`: the error of a line
/// that is not valid UTF-8, as `BufRead::lines` reports it.
#[verifier::external_body]
pub fn invalid_utf8_error() -> std::io::Error {
    std::io::Error::new(std::io::ErrorKind::InvalidData, "stream did not contain valid UTF-8")
}

/// `std::io::Error::new(ErrorKind::UnexpectedEof, ..)`: the error of a read
/// cut short, as `Read::read_exact` reports it.
#[verifier::external_body]
pub fn unexpected_eof_error() -> std::io::Error {
    std::io::Error::new(std::io::ErrorKind::UnexpectedEof, "failed to fill whole buffer")
}

} // verus!

verus! {

/// `bytemuck::cast_slice` from bytes to colors, copied out: byte `3 * i + j`
/// becomes channel `j` of color `i`.
#[verifier::external_body]
pub fn rgb8_from_bytes(bytes: &[u8]) -> (r: Vec<[u8; 3]>)
    requires
        bytes@.len() % 3 == 0,
    ensures
        r@.len() * 3 == bytes@.len(),
        rgb8_bytes_spec(r@, bytes@),
{
    bytemuck::cast_slice::<u8, [u8; 3]>(bytes).to_vec()
}

} // verus!
