//! The data sections of the six PNM kinds, as bytes: what each kind writes
//! after the header.

use vstd::prelude::*;
use crate::bindings::{
    rgb16_all_be, rgb16_all_le, rgb16_as_ne_bytes, rgb8_as_bytes, rgb8_bytes_spec, u16_be_bytes,
};
use crate::text::{decimal_bytes, push_bytes, push_decimal_bytes};
use super::bits::BitData;
use super::data::{GrayData, PnmPixelData, RgbData};

verus! {

/// The ASCII digit of a bit.
pub open spec fn bit_digit(b: bool) -> u8 {
    if b { 49u8 } else { 48u8 }
}

/// P1 data: the first `n` bits, as digits separated by a space, and by a
/// newline before each row after the first.
pub open spec fn pbm_ascii_prefix(bits: Seq<bool>, width: nat, n: nat) -> Seq<u8>
    decreases n,
{
    if n == 0 {
        Seq::empty()
    } else {
        let i = (n - 1) as nat;
        let sep: Seq<u8> = if i > 0 && i % width == 0 {
            seq![10u8]
        } else if i > 0 {
            seq![32u8]
        } else {
            Seq::empty()
        };
        pbm_ascii_prefix(bits, width, i) + sep + seq![bit_digit(bits[i as int])]
    }
}

/// P1 data: all bits as digits, then a newline.
pub open spec fn pbm_ascii_text(bits: Seq<bool>, width: nat) -> Seq<u8> {
    pbm_ascii_prefix(bits, width, bits.len()) + seq![10u8]
}

/// The weight of bit `t` of a byte, counted from the most significant.
pub open spec fn bit_weight(t: nat) -> nat {
    if t == 0 { 128 } else if t == 1 { 64 } else if t == 2 { 32 } else if t == 3 { 16 }
    else if t == 4 { 8 } else if t == 5 { 4 } else if t == 6 { 2 } else { 1 }
}

/// The byte whose `count` most significant bits are `bits[start..start + count]`
/// and whose other bits are zero.
pub open spec fn bits_byte(bits: Seq<bool>, start: int, count: nat) -> nat
    decreases count,
{
    if count == 0 {
        0
    } else {
        let t = (count - 1) as nat;
        bits_byte(bits, start, t) + if bits[start + t] { bit_weight(t) } else { 0 }
    }
}

/// The largest value of `bits_byte` with `count` bits.
pub open spec fn byte_cap(count: nat) -> nat {
    if count == 0 { 0 } else if count == 1 { 128 } else if count == 2 { 192 }
    else if count == 3 { 224 } else if count == 4 { 240 } else if count == 5 { 248 }
    else if count == 6 { 252 } else if count == 7 { 254 } else { 255 }
}

pub proof fn lemma_bits_byte_cap(bits: Seq<bool>, start: int, count: nat)
    requires
        count <= 8,
    ensures
        bits_byte(bits, start, count) <= byte_cap(count),
    decreases count,
{
    if count > 0 {
        lemma_bits_byte_cap(bits, start, (count - 1) as nat);
    }
}

/// The first `m` full bytes of a row of bits.
pub open spec fn full_bytes(row: Seq<bool>, m: nat) -> Seq<u8> {
    Seq::new(m, |q: int| bits_byte(row, 8 * q, 8) as u8)
}

/// P4 data of one row: its bits packed eight to a byte, most significant
/// first; when the width is not a multiple of eight, one more byte with the
/// leftover bits.
pub open spec fn pbm_row_bytes(row: Seq<bool>, width: nat) -> Seq<u8> {
    full_bytes(row, row.len() / 8) + if width % 8 != 0 {
        seq![bits_byte(row, 8 * (row.len() / 8) as int, row.len() % 8) as u8]
    } else {
        Seq::empty()
    }
}

/// The bits of row `r`: `bits[r * width..min(r * width + width, len)]`.
pub open spec fn pbm_row(bits: Seq<bool>, width: nat, r: nat) -> Seq<bool> {
    let s = r * width;
    let e = if s + width <= bits.len() { s + width } else { bits.len() as nat };
    bits.subrange(s as int, e as int)
}

/// P4 data of the first `rows` rows.
pub open spec fn pbm_binary_prefix(bits: Seq<bool>, width: nat, rows: nat) -> Seq<u8>
    decreases rows,
{
    if rows == 0 {
        Seq::empty()
    } else {
        let r = (rows - 1) as nat;
        pbm_binary_prefix(bits, width, r) + pbm_row_bytes(pbm_row(bits, width, r), width)
    }
}

/// P2 data: before each row a newline, after each value a space; then a
/// newline.
pub open spec fn pgm_ascii_prefix(vals: Seq<u16>, width: nat, n: nat) -> Seq<u8>
    decreases n,
{
    if n == 0 {
        Seq::empty()
    } else {
        let i = (n - 1) as nat;
        pgm_ascii_prefix(vals, width, i) + (if i % width == 0 {
            seq![10u8]
        } else {
            Seq::empty()
        }) + decimal_bytes(vals[i as int] as nat) + seq![32u8]
    }
}

pub open spec fn pgm_ascii_text(vals: Seq<u16>, width: nat) -> Seq<u8> {
    pgm_ascii_prefix(vals, width, vals.len()) + seq![10u8]
}

/// P5 data of 16-bit samples: each sample big-endian.
pub open spec fn be16_bytes(vals: Seq<u16>) -> Seq<u8>
    decreases vals.len(),
{
    if vals.len() == 0 {
        Seq::empty()
    } else {
        let v = vals.last();
        be16_bytes(vals.drop_last()) + seq![(v / 256) as u8, (v % 256) as u8]
    }
}

/// P5 data.
pub open spec fn pgm_binary_text(data: GrayData) -> Seq<u8> {
    match data {
        GrayData::U8(v) => v@,
        GrayData::U16(v) => be16_bytes(v@),
    }
}

/// The decimal values of a color separated by spaces.
pub open spec fn rgb_decimals(c: [u16; 3]) -> Seq<u8> {
    decimal_bytes(c[0] as nat) + seq![32u8] + decimal_bytes(c[1] as nat) + seq![32u8]
        + decimal_bytes(c[2] as nat)
}

/// P3 data: each color as three decimals, followed by a space, or by a
/// newline at the end of its row.
pub open spec fn ppm_ascii_prefix(vals: Seq<[u16; 3]>, width: nat, n: nat) -> Seq<u8>
    decreases n,
{
    if n == 0 {
        Seq::empty()
    } else {
        let i = (n - 1) as nat;
        ppm_ascii_prefix(vals, width, i) + rgb_decimals(vals[i as int]) + if i % width == width - 1 {
            seq![10u8]
        } else {
            seq![32u8]
        }
    }
}

/// Whether `out` holds the six bytes of each 16-bit color, in order, all in
/// the machine's byte order (all little-endian or all big-endian).
pub open spec fn rgb16_ne_bytes(vals: Seq<[u16; 3]>, out: Seq<u8>) -> bool {
    rgb16_all_le(vals, out) || rgb16_all_be(vals, out)
}

/// Whether `out` is P6 data of `data`.
pub open spec fn ppm_binary_text(data: RgbData, out: Seq<u8>) -> bool {
    match data {
        RgbData::U8(v) => rgb8_bytes_spec(v@, out),
        RgbData::U16(v) => rgb16_ne_bytes(v@, out),
    }
}

/// Writes P1 data.
pub fn write_pbm_ascii(data: &BitData, w: &mut Vec<u8>, width: usize, height: usize)
    requires
        width * height <= usize::MAX,
        data@.len() == width * height,
    ensures
        final(w)@ == old(w)@ + pbm_ascii_text(data@, width as nat),
{
    let n = data.len();
    let ghost start = w@;
    let mut i: usize = 0;
    while i < n
        invariant
            n == data@.len() == width * height,
            i <= n,
            w@ == start + pbm_ascii_prefix(data@, width as nat, i as nat),
        decreases n - i,
    {
        if i > 0 && i % width == 0 {
            w.push(10u8);
        } else if i > 0 {
            w.push(32u8);
        }
        let bit = match data.get(i) {
            Some(b) => b,
            None => false,
        };
        w.push(if bit { 49u8 } else { 48u8 });
        i = i + 1;
        assert(w@ =~= start + pbm_ascii_prefix(data@, width as nat, i as nat));
    }
    w.push(10u8);
    assert(w@ =~= start + pbm_ascii_text(data@, width as nat));
}

fn bit_weight_u8(t: usize) -> (r: u8)
    requires
        t < 8,
    ensures
        r == bit_weight(t as nat),
{
    if t == 0 { 128 } else if t == 1 { 64 } else if t == 2 { 32 } else if t == 3 { 16 }
    else if t == 4 { 8 } else if t == 5 { 4 } else if t == 6 { 2 } else { 1 }
}

/// Writes the P4 bytes of the row `data[start..end]`.
fn write_pbm_row(data: &BitData, start: usize, end: usize, width: usize, w: &mut Vec<u8>)
    requires
        start <= end <= data@.len(),
    ensures
        final(w)@ == old(w)@ + pbm_row_bytes(data@.subrange(start as int, end as int), width as nat),
{
    let ghost row = data@.subrange(start as int, end as int);
    let ghost out0 = w@;
    let mut byte: u8 = 0;
    let mut count: usize = 0;
    let mut j = start;
    while j < end
        invariant
            start <= j <= end <= data@.len(),
            row == data@.subrange(start as int, end as int),
            count == (j - start) % 8,
            byte == bits_byte(row, 8 * ((j - start) / 8), count as nat),
            w@ == out0 + full_bytes(row, ((j - start) / 8) as nat),
        decreases end - j,
    {
        let bit = match data.get(j) {
            Some(b) => b,
            None => false,
        };
        assert(bit == row[(j - start) as int]);
        proof {
            lemma_bits_byte_cap(row, 8 * ((j - start) / 8), count as nat);
        }
        if bit {
            byte = byte + bit_weight_u8(count);
        }
        count = count + 1;
        assert(byte == bits_byte(row, 8 * ((j - start) / 8), count as nat));
        if count == 8 {
            w.push(byte);
            assert(w@ =~= out0 + full_bytes(row, ((j + 1 - start) / 8) as nat));
            byte = 0;
            count = 0;
        }
        j = j + 1;
    }
    if width % 8 != 0 {
        w.push(byte);
    }
    assert(w@ =~= out0 + pbm_row_bytes(row, width as nat));
}

/// Writes P4 data.
pub fn write_pbm_binary(data: &BitData, w: &mut Vec<u8>, width: usize, height: usize)
    requires
        width * height <= usize::MAX,
        height == 0 || (height - 1) * width <= data@.len(),
    ensures
        final(w)@ == old(w)@ + pbm_binary_prefix(data@, width as nat, height as nat),
{
    let n = data.len();
    let ghost out0 = w@;
    let mut row: usize = 0;
    while row < height
        invariant
            n == data@.len(),
            width * height <= usize::MAX,
            height == 0 || (height - 1) * width <= n,
            row <= height,
            w@ == out0 + pbm_binary_prefix(data@, width as nat, row as nat),
        decreases height - row,
    {
        proof {
            vstd::arithmetic::mul::lemma_mul_inequality(row as int, height as int - 1, width as int);
            vstd::arithmetic::mul::lemma_mul_inequality(row as int + 1, height as int, width as int);
            vstd::arithmetic::mul::lemma_mul_is_distributive_add_other_way(width as int, row as int, 1);
            vstd::arithmetic::mul::lemma_mul_is_commutative(width as int, height as int);
        }
        let s = row * width;
        let e = if s + width <= n { s + width } else { n };
        write_pbm_row(data, s, e, width, w);
        row = row + 1;
        assert(w@ =~= out0 + pbm_binary_prefix(data@, width as nat, row as nat));
    }
}

/// Writes P2 data.
pub fn write_pgm_ascii(data: &GrayData, w: &mut Vec<u8>, width: usize)
    requires
        width > 0 || data.pixel_seq().len() == 0,
    ensures
        final(w)@ == old(w)@ + pgm_ascii_text(data.pixel_seq(), width as nat),
{
    let ghost out0 = w@;
    let ghost vals = data.pixel_seq();
    let n = data.len();
    let mut i: usize = 0;
    while i < n
        invariant
            n == vals.len(),
            vals == data.pixel_seq(),
            width > 0 || n == 0,
            i <= n,
            w@ == out0 + pgm_ascii_prefix(vals, width as nat, i as nat),
        decreases n - i,
    {
        if i % width == 0 {
            w.push(10u8);
        }
        let v = match data.pixel_at(i) {
            Some(v) => v,
            None => 0,
        };
        push_decimal_bytes(w, v as usize);
        w.push(32u8);
        i = i + 1;
        assert(w@ =~= out0 + pgm_ascii_prefix(vals, width as nat, i as nat));
    }
    w.push(10u8);
    assert(w@ =~= out0 + pgm_ascii_text(vals, width as nat));
}

/// Writes P5 data.
pub fn write_pgm_binary(data: &GrayData, w: &mut Vec<u8>)
    ensures
        final(w)@ == old(w)@ + pgm_binary_text(*data),
{
    match data {
        GrayData::U8(v) => push_bytes(w, v.as_slice()),
        GrayData::U16(v) => {
            let ghost out0 = w@;
            for i in 0..v.len()
                invariant
                    w@ == out0 + be16_bytes(v@.take(i as int)),
            {
                let b = u16_be_bytes(v[i]);
                w.push(b[0]);
                w.push(b[1]);
                assert(v@.take(i + 1).drop_last() =~= v@.take(i as int));
                assert(w@ =~= out0 + be16_bytes(v@.take(i + 1)));
            }
            assert(v@.take(v.len() as int) =~= v@);
        },
    }
}

/// Writes P3 data.
pub fn write_ppm_ascii(data: &RgbData, w: &mut Vec<u8>, width: usize)
    requires
        width > 0,
    ensures
        final(w)@ == old(w)@ + ppm_ascii_prefix(data.pixel_seq(), width as nat, data.pixel_seq().len()),
{
    let ghost out0 = w@;
    let ghost vals = data.pixel_seq();
    let n = data.len();
    let mut i: usize = 0;
    while i < n
        invariant
            n == vals.len(),
            vals == data.pixel_seq(),
            width > 0,
            i <= n,
            w@ == out0 + ppm_ascii_prefix(vals, width as nat, i as nat),
        decreases n - i,
    {
        let c = match data.pixel_at(i) {
            Some(c) => c,
            None => [0u16, 0u16, 0u16],
        };
        push_decimal_bytes(w, c[0] as usize);
        w.push(32u8);
        push_decimal_bytes(w, c[1] as usize);
        w.push(32u8);
        push_decimal_bytes(w, c[2] as usize);
        if i % width == width - 1 {
            w.push(10u8);
        } else {
            w.push(32u8);
        }
        i = i + 1;
        assert(w@ =~= out0 + ppm_ascii_prefix(vals, width as nat, i as nat));
    }
}

/// Writes P6 data.
pub fn write_ppm_binary(data: &RgbData, w: &mut Vec<u8>)
    ensures
        final(w)@.len() >= old(w)@.len(),
        final(w)@.take(old(w)@.len() as int) == old(w)@,
        ppm_binary_text(*data, final(w)@.skip(old(w)@.len() as int)),
{
    let ghost out0 = w@;
    match data {
        RgbData::U8(v) => {
            let bytes = rgb8_as_bytes(v.as_slice());
            push_bytes(w, bytes);
            assert(w@.take(out0.len() as int) =~= out0);
            assert(w@.skip(out0.len() as int) =~= bytes@);
        },
        RgbData::U16(v) => {
            let bytes = rgb16_as_ne_bytes(v.as_slice());
            push_bytes(w, bytes);
            assert(w@.take(out0.len() as int) =~= out0);
            assert(w@.skip(out0.len() as int) =~= bytes@);
        },
    }
}

} // verus!
