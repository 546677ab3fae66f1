//! What P4 packing means: the size of the packed data, and that the P4 reader
//! unpacks what the P4 writer packed.

use vstd::prelude::*;
use super::decode::{pbm_binary_view, row_bytes, DataView};
use super::encode::{bit_weight, bits_byte, full_bytes, lemma_bits_byte_cap, pbm_binary_prefix, pbm_row, pbm_row_bytes};

verus! {

/// The weights halve from one bit to the next.
proof fn lemma_weight_halves(t: nat)
    requires
        t < 7,
    ensures
        bit_weight(t) == 2 * bit_weight(t + 1),
{
}

/// Every weight is at least one and at most 128.
proof fn lemma_weight_range(t: nat)
    ensures
        1 <= bit_weight(t) <= 128,
{
}

/// A weight above bit `t` is a multiple of twice the weight of bit `t`.
proof fn lemma_weight_multiple(j: nat, t: nat)
    requires
        j < t < 8,
    ensures
        bit_weight(j) % (2 * bit_weight(t)) == 0,
    decreases t - j,
{
    if j + 1 == t {
        lemma_weight_halves(j);
        vstd::arithmetic::div_mod::lemma_mod_self_0(2 * bit_weight(t) as int);
    } else {
        lemma_weight_multiple(j + 1, t);
        lemma_weight_halves(j);
        let k = 2 * bit_weight(t) as int;
        let q = bit_weight(j + 1) as int / k;
        vstd::arithmetic::div_mod::lemma_fundamental_div_mod(bit_weight(j + 1) as int, k);
        assert(bit_weight(j) as int == (2 * q) * k) by (nonlinear_arith)
            requires
                bit_weight(j) as int == 2 * bit_weight(j + 1) as int,
                bit_weight(j + 1) as int == k * q + 0;
        vstd::arithmetic::div_mod::lemma_mod_multiples_basic(2 * q, k);
    }
}

/// The bits before bit `t` make a multiple of twice its weight.
proof fn lemma_high_part(bits: Seq<bool>, start: int, n: nat, t: nat)
    requires
        n <= t < 8,
    ensures
        bits_byte(bits, start, n) % (2 * bit_weight(t)) == 0,
    decreases n,
{
    let k = 2 * bit_weight(t) as int;
    lemma_weight_range(t);
    if n == 0 {
        vstd::arithmetic::div_mod::lemma_small_mod(0, k as nat);
    } else {
        let j = (n - 1) as nat;
        lemma_high_part(bits, start, j, t);
        lemma_weight_multiple(j, t);
        let add: int = if bits[start + j] { bit_weight(j) as int } else { 0 };
        assert(add % k == 0) by {
            if !bits[start + j] {
                vstd::arithmetic::div_mod::lemma_small_mod(0, k as nat);
            }
        }
        vstd::arithmetic::div_mod::lemma_add_mod_noop(bits_byte(bits, start, j) as int, add, k);
        vstd::arithmetic::div_mod::lemma_small_mod(0, k as nat);
    }
}

/// The bits after bit `t` add up to less than its weight.
proof fn lemma_low_part(bits: Seq<bool>, start: int, c: nat, t: nat)
    requires
        t < c <= 8,
    ensures
        bits_byte(bits, start, c) >= bits_byte(bits, start, t + 1),
        bits_byte(bits, start, c) - bits_byte(bits, start, t + 1) + bit_weight((c - 1) as nat)
            <= bit_weight(t),
    decreases c,
{
    if c > t + 1 {
        let j = (c - 1) as nat;
        lemma_low_part(bits, start, j, t);
        lemma_weight_halves((j - 1) as nat);
    }
}

/// Bit `t` of a packed byte, counted from the most significant, is the bit
/// that was packed there.
pub proof fn lemma_bits_byte_bit(bits: Seq<bool>, start: int, count: nat, t: nat)
    requires
        t < count <= 8,
    ensures
        (bits_byte(bits, start, count) / bit_weight(t)) % 2 == if bits[start + t] { 1nat } else { 0 },
{
    let w = bit_weight(t) as int;
    let b: int = if bits[start + t] { 1 } else { 0 };
    lemma_weight_range(t);
    lemma_high_part(bits, start, t, t);
    lemma_low_part(bits, start, count, t);
    lemma_weight_range((count - 1) as nat);
    let hi = bits_byte(bits, start, t) as int;
    let lo = bits_byte(bits, start, count) as int - bits_byte(bits, start, t + 1) as int;
    let q = hi / (2 * w);
    vstd::arithmetic::div_mod::lemma_fundamental_div_mod(hi, 2 * w);
    assert(bits_byte(bits, start, t + 1) as int == hi + b * w);
    assert(bits_byte(bits, start, count) as int == (2 * q + b) * w + lo) by (nonlinear_arith)
        requires
            hi == (2 * w) * q + 0,
            bits_byte(bits, start, count) as int == hi + b * w + lo;
    vstd::arithmetic::div_mod::lemma_fundamental_div_mod_converse(
        bits_byte(bits, start, count) as int,
        w,
        2 * q + b,
        lo,
    );
    assert(q >= 0) by {
        vstd::arithmetic::div_mod::lemma_div_pos_is_pos(hi, 2 * w);
    }
    vstd::arithmetic::div_mod::lemma_fundamental_div_mod_converse(2 * q + b, 2, q, b);
}

/// The bytes of a P4 row, `row_bytes`, are `ceil(width / 8)`.
proof fn lemma_row_bytes_ceil(width: nat)
    ensures
        row_bytes(width) == (width + 7) / 8,
{
}

/// Row `r` of a bitmap with `height` full rows is `bits[r * width..r * width + width]`.
proof fn lemma_full_row(bits: Seq<bool>, width: nat, height: nat, r: nat)
    requires
        bits.len() == width * height,
        r < height,
    ensures
        r * width + width <= bits.len(),
        pbm_row(bits, width, r) == bits.subrange((r * width) as int, (r * width + width) as int),
        pbm_row(bits, width, r).len() == width,
{
    assert(r * width + width <= width * height) by (nonlinear_arith)
        requires r < height;
}

/// The P4 bytes of a row of `width` bits are `ceil(width / 8)`.
proof fn lemma_row_bytes_len(row: Seq<bool>, width: nat)
    requires
        row.len() == width,
    ensures
        pbm_row_bytes(row, width).len() == (width + 7) / 8,
{
}

/// The first `n` rows take `n * ceil(width / 8)` bytes, and the bytes of a
/// row stay where they are when more rows follow.
proof fn lemma_prefix(bits: Seq<bool>, width: nat, height: nat, n: nat)
    requires
        bits.len() == width * height,
        n <= height,
    ensures
        pbm_binary_prefix(bits, width, n).len() == n * ((width + 7) / 8),
        forall|r: nat, q: int|
            r < n && 0 <= q < (width + 7) / 8 ==> #[trigger] pbm_binary_prefix(bits, width, n)[(r
                * ((width + 7) / 8) + q) as int] == pbm_row_bytes(pbm_row(bits, width, r), width)[q],
    decreases n,
{
    let rb = (width + 7) / 8;
    if n > 0 {
        let m = (n - 1) as nat;
        lemma_prefix(bits, width, height, m);
        lemma_full_row(bits, width, height, m);
        lemma_row_bytes_len(pbm_row(bits, width, m), width);
        assert(m * rb + rb == n * rb) by (nonlinear_arith)
            requires m + 1 == n;
        let pre = pbm_binary_prefix(bits, width, m);
        let row = pbm_row_bytes(pbm_row(bits, width, m), width);
        assert forall|r: nat, q: int|
            r < n && 0 <= q < rb implies #[trigger] pbm_binary_prefix(bits, width, n)[(r * rb
                + q) as int] == pbm_row_bytes(pbm_row(bits, width, r), width)[q] by {
            if r < m {
                assert(r * rb + q < m * rb) by (nonlinear_arith)
                    requires r < m, q < rb;
                assert(pbm_binary_prefix(bits, width, m)[(r * rb + q) as int]
                    == pbm_row_bytes(pbm_row(bits, width, r), width)[q]);
            }
        }
    }
}

/// P4 data of a bitmap with `height` rows of `width` bits takes exactly
/// `height * ceil(width / 8)` bytes: each row is packed into `ceil(width / 8)`
/// bytes, with no byte of padding when the width is a multiple of eight.
pub proof fn law_pbm_binary_length(bits: Seq<bool>, width: nat, height: nat)
    requires
        bits.len() == width * height,
    ensures
        pbm_binary_prefix(bits, width, height).len() == height * ((width + 7) / 8),
{
    lemma_prefix(bits, width, height, height);
}

/// The P4 reader takes `ceil(width / 8)` bytes per row: it runs short of
/// data exactly when the input holds fewer than `height * ceil(width / 8)`
/// bytes, and otherwise gives `width * height` bits.
pub proof fn law_pbm_binary_read_length(b: Seq<u8>, width: nat, height: nat)
    ensures
        pbm_binary_view(b, width, height) is Short <==> b.len() < height * ((width + 7) / 8),
        pbm_binary_view(b, width, height) matches DataView::Bits(bits) ==> bits.len() == width
            * height,
{
    lemma_row_bytes_ceil(width);
}

/// Bit `c` of a packed row, most significant first, is bit `c` of the row.
proof fn lemma_row_bit(row: Seq<bool>, width: nat, c: nat)
    requires
        row.len() == width,
        c < width,
    ensures
        c / 8 < (width + 7) / 8,
        (pbm_row_bytes(row, width)[(c / 8) as int] as nat / bit_weight(c % 8)) % 2 == if row[c as int] {
            1nat
        } else {
            0
        },
{
    let q = c / 8;
    let t = c % 8;
    assert(c == 8 * q + t);
    if q < width / 8 {
        assert(pbm_row_bytes(row, width)[q as int] == full_bytes(row, width / 8)[q as int]);
        lemma_bits_byte_cap(row, (8 * q) as int, 8);
        lemma_bits_byte_bit(row, (8 * q) as int, 8, t);
    } else {
        assert(q == width / 8);
        assert(width % 8 != 0);
        assert(pbm_row_bytes(row, width)[q as int] == bits_byte(row, (8 * q) as int, width % 8) as u8);
        lemma_bits_byte_cap(row, (8 * q) as int, width % 8);
        lemma_bits_byte_bit(row, (8 * q) as int, width % 8, t);
    }
}

/// P4 data written for a bitmap of `height` rows of `width` bits reads back,
/// by the P4 reader, as that bitmap.
pub proof fn law_pbm_binary_read_after_write(bits: Seq<bool>, width: nat, height: nat)
    requires
        bits.len() == width * height,
    ensures
        pbm_binary_view(pbm_binary_prefix(bits, width, height), width, height) == DataView::Bits(bits),
{
    let out = pbm_binary_prefix(bits, width, height);
    let rb = (width + 7) / 8;
    lemma_row_bytes_ceil(width);
    lemma_prefix(bits, width, height, height);
    match pbm_binary_view(out, width, height) {
        DataView::Bits(got) => {
            assert forall|i: int| 0 <= i < bits.len() implies got[i] == bits[i] by {
                let w = width as int;
                let r = i / w;
                let c = i % w;
                assert(width > 0) by {
                    if width == 0 {
                        assert(width * height == 0);
                    }
                }
                vstd::arithmetic::div_mod::lemma_fundamental_div_mod(i, w);
                assert(r * w + c == i) by (nonlinear_arith)
                    requires i == w * r + c;
                assert(0 <= r < height) by {
                    vstd::arithmetic::div_mod::lemma_div_pos_is_pos(i, w);
                    if r >= height {
                        assert(r * w >= height * w) by (nonlinear_arith)
                            requires r >= height, w > 0;
                        assert(height * w == width * height) by (nonlinear_arith)
                            requires w == width as int;
                    }
                }
                lemma_full_row(bits, width, height, r as nat);
                let row = pbm_row(bits, width, r as nat);
                lemma_row_bit(row, width, c as nat);
                assert(r * rb + c / 8 < height * rb) by (nonlinear_arith)
                    requires 0 <= r < height, 0 <= c / 8 < rb;
                assert(out[(r as nat * rb + c as nat / 8) as int] == pbm_row_bytes(row, width)[(c / 8) as int]);
                assert(row[c] == bits[i]);
            }
            assert(got =~= bits);
        },
        _ => {},
    }
}

} // verus!
