//! Reading back what writing wrote: the header and the data sections of the
//! kinds whose encodings read back as written.

use vstd::prelude::*;
use vstd::utf8::{encode_scalar, encode_utf8, has_width_1_encoding, is_ascii_chars, valid_utf8};
use crate::text::{
    ascii_bytes, decimal, decimal_bytes, digit_char, digits_value, is_digit, is_ws, parses_unsigned,
    scan_tokens, skip_ws_bwd, skip_ws_fwd, token_ranges, tokens, trim_hi, trim_lo, unsigned_digits,
    unsigned_value,
};
use super::content::lemma_kind_consts;
use super::data::{GrayData, PnmPixelData, RgbData};
use super::decode::{
    bit_token, comment_text, comment_views, header_view, kind_stage, line_bytes, line_chars,
    line_end, maxval_stage, newline_at, pbm_ascii_stage, pgm_ascii_view, rgb8_colors, sample_max,
    samples_stage, sample_colors, size_stage, be16_at, be16_values, SamplesView,
    token_bits, token_values, DataView, HeaderFields, HeaderView,
};
use super::encode::{be16_bytes, bit_digit, pbm_ascii_prefix, pgm_ascii_prefix};
use super::image::{comment_bytes, header_bytes, Pnm};
use super::kind::PnmKind;
use super::maxval::MaxValTrait;

verus! {

broadcast use vstd::utf8::group_utf8_lib;

// ---------------------------------------------------------------------------
// Lines
// ---------------------------------------------------------------------------

proof fn lemma_newline_from(b: Seq<u8>, k: int, n: int)
    requires
        0 <= k <= n < b.len(),
        b[n] == 10,
        forall|j: int| k <= j < n ==> b[j] != 10,
    ensures
        newline_at(b, k) == n,
    decreases n - k,
{
    if k < n {
        lemma_newline_from(b, k + 1, n);
    }
}

/// A line `l` that `b` holds at `pos`, followed by a newline, is read as `l`.
pub proof fn lemma_line(b: Seq<u8>, pos: int, l: Seq<u8>)
    requires
        0 <= pos,
        pos + l.len() < b.len(),
        b.subrange(pos, pos + l.len()) == l,
        b[pos + l.len()] == 10,
        forall|k: int| 0 <= k < l.len() ==> l[k] != 10,
        l.len() == 0 || l.last() != 13,
    ensures
        newline_at(b, pos) == pos + l.len(),
        line_end(b, pos) == pos + l.len() + 1,
        line_bytes(b, pos) == l,
{
    assert forall|j: int| pos <= j < pos + l.len() implies b[j] != 10 by {
        assert(b[j] == b.subrange(pos, pos + l.len())[j - pos]);
    }
    lemma_newline_from(b, pos, pos + l.len());
}

// ---------------------------------------------------------------------------
// UTF-8
// ---------------------------------------------------------------------------

pub proof fn lemma_encode_concat(a: Seq<char>, b: Seq<char>)
    ensures
        encode_utf8(a + b) == encode_utf8(a) + encode_utf8(b),
    decreases a.len(),
{
    if a.len() == 0 {
        assert(a + b =~= b);
    } else {
        assert((a + b)[0] == a[0]);
        assert((a + b).drop_first() =~= a.drop_first() + b);
        lemma_encode_concat(a.drop_first(), b);
        assert(encode_utf8(a + b) =~= encode_utf8(a) + encode_utf8(b));
    }
}

/// An ASCII sequence is encoded byte for byte.
pub proof fn lemma_ascii_encode(s: Seq<char>)
    requires
        is_ascii_chars(s),
    ensures
        encode_utf8(s) == crate::text::ascii_bytes(s),
{
    vstd::utf8::is_ascii_chars_encode_utf8(s);
    assert(encode_utf8(s) =~= crate::text::ascii_bytes(s));
}

/// The bytes of a scalar's encoding: the scalar itself below 128, otherwise
/// bytes of 128 and above.
proof fn lemma_scalar_bytes(s: u32)
    ensures
        has_width_1_encoding(s) ==> encode_scalar(s).len() == 1 && encode_scalar(s)[0] as u32 == s,
        !has_width_1_encoding(s) ==> forall|i: int|
            0 <= i < encode_scalar(s).len() ==> #[trigger] encode_scalar(s)[i] >= 128,
{
    if has_width_1_encoding(s) {
        assert((s & 0x7F) as u8 as u32 == s) by (bit_vector)
            requires s <= 0x7F;
    } else {
        assert forall|x: u32| (0xC0u8 | ((x >> 6) & 0x1F) as u8) >= 128 by {
            assert((0xC0u8 | ((x >> 6) & 0x1F) as u8) >= 128) by (bit_vector);
        }
        assert forall|x: u32| (0xE0u8 | ((x >> 12) & 0x0F) as u8) >= 128 by {
            assert((0xE0u8 | ((x >> 12) & 0x0F) as u8) >= 128) by (bit_vector);
        }
        assert forall|x: u32| (0xF0u8 | ((x >> 18) & 0x7) as u8) >= 128 by {
            assert((0xF0u8 | ((x >> 18) & 0x7) as u8) >= 128) by (bit_vector);
        }
        assert forall|x: u32| (0x80u8 | (x & 0x3F) as u8) >= 128 by {
            assert((0x80u8 | (x & 0x3F) as u8) >= 128) by (bit_vector);
        }
        assert forall|x: u32| (0x80u8 | ((x >> 6) & 0x3F) as u8) >= 128 by {
            assert((0x80u8 | ((x >> 6) & 0x3F) as u8) >= 128) by (bit_vector);
        }
        assert forall|x: u32| (0x80u8 | ((x >> 12) & 0x3F) as u8) >= 128 by {
            assert((0x80u8 | ((x >> 12) & 0x3F) as u8) >= 128) by (bit_vector);
        }
    }
}

/// An ASCII byte `x` occurs in an encoding only where the character `x` does.
pub proof fn lemma_encode_no_byte(c: Seq<char>, x: u8)
    requires
        x < 128,
        forall|k: int| 0 <= k < c.len() ==> c[k] as u32 != x as u32,
    ensures
        forall|i: int| 0 <= i < encode_utf8(c).len() ==> encode_utf8(c)[i] != x,
    decreases c.len(),
{
    if c.len() > 0 {
        let head = encode_scalar(c[0] as u32);
        lemma_scalar_bytes(c[0] as u32);
        lemma_encode_no_byte(c.drop_first(), x);
        assert forall|i: int| 0 <= i < encode_utf8(c).len() implies encode_utf8(c)[i] != x by {
            if i < head.len() {
                assert(encode_utf8(c)[i] == head[i]);
            } else {
                assert(encode_utf8(c)[i] == encode_utf8(c.drop_first())[i - head.len()]);
            }
        }
    }
}

/// The last byte of a nonempty encoding is ASCII only if the last character is
/// that ASCII character.
pub proof fn lemma_encode_last(c: Seq<char>)
    requires
        c.len() > 0,
    ensures
        encode_utf8(c).len() > 0,
        encode_utf8(c).last() < 128 ==> encode_utf8(c).last() as u32 == c.last() as u32,
{
    let init = c.drop_last();
    assert(c =~= init + seq![c.last()]);
    lemma_encode_concat(init, seq![c.last()]);
    let tail = encode_utf8(seq![c.last()]);
    assert(seq![c.last()].drop_first() =~= Seq::<char>::empty());
    assert(tail == encode_scalar(c.last() as u32) + encode_utf8(Seq::<char>::empty()));
    assert(tail =~= encode_scalar(c.last() as u32));
    lemma_scalar_bytes(c.last() as u32);
    vstd::utf8::char_is_scalar(c.last());
    assert(encode_utf8(c).last() == tail.last());
}

// ---------------------------------------------------------------------------
// Decimal numerals
// ---------------------------------------------------------------------------

/// A decimal numeral is a nonempty run of ASCII digits that spells its value.
pub proof fn lemma_decimal(n: nat)
    ensures
        decimal(n).len() > 0,
        forall|i: int| 0 <= i < decimal(n).len() ==> is_digit(#[trigger] decimal(n)[i]),
        is_ascii_chars(decimal(n)),
        digits_value(decimal(n)) == n,
    decreases n,
{
    if n >= 10 {
        lemma_decimal(n / 10);
        let d = decimal(n / 10);
        let c = digit_char((n % 10) as int);
        assert(decimal(n) == d.push(c));
        assert(decimal(n).drop_last() =~= d);
        assert forall|i: int| 0 <= i < decimal(n).len() implies is_digit(#[trigger] decimal(n)[i]) by {
            if i < d.len() {
                assert(decimal(n)[i] == d[i]);
            }
        }
        assert((c as int) - 48 == n % 10);
        assert(decimal(n).last() == c);
        assert(digits_value(decimal(n)) == digits_value(d) * 10 + ((c as int) - 48) as nat);
        assert((n / 10) * 10 + n % 10 == n);
    } else {
        let c = digit_char(n as int);
        assert(decimal(n) == seq![c]);
        assert(decimal(n).drop_last() =~= Seq::<char>::empty());
        assert(decimal(n).last() == c);
        assert((c as int) - 48 == n);
        assert(digits_value(decimal(n)) == digits_value(Seq::<char>::empty()) * 10 + ((c as int) - 48) as nat);
    }
}

/// A decimal numeral parses back to its value.
pub proof fn lemma_decimal_parses(n: nat, max: nat)
    requires
        n <= max,
    ensures
        parses_unsigned(decimal(n), max),
        unsigned_value(decimal(n)) == n,
{
    lemma_decimal(n);
    assert(is_digit(decimal(n)[0]));
    assert(unsigned_digits(decimal(n)) == decimal(n));
}

// ---------------------------------------------------------------------------
// Tokens
// ---------------------------------------------------------------------------

/// Scanning over characters that are no white space extends the token under
/// way, or starts one at `i`.
pub proof fn lemma_scan_word(
    s: Seq<char>,
    i: int,
    j: int,
    hi: int,
    start: Option<int>,
    acc: Seq<(int, int)>,
)
    requires
        i < j <= hi,
        forall|k: int| i <= k < j ==> !is_ws(#[trigger] s[k]),
    ensures
        scan_tokens(s, i, hi, start, acc) == scan_tokens(
            s,
            j,
            hi,
            Some(
                match start {
                    Some(a) => a,
                    None => i,
                },
            ),
            acc,
        ),
    decreases j - i,
{
    let st = match start {
        Some(a) => a,
        None => i,
    };
    assert(!is_ws(s[i]));
    if i + 1 < j {
        lemma_scan_word(s, i + 1, j, hi, Some(st), acc);
    }
}

/// The words of `ws`, each followed by one space.
pub open spec fn spaced(ws: Seq<Seq<char>>) -> Seq<char>
    decreases ws.len(),
{
    if ws.len() == 0 {
        Seq::empty()
    } else {
        spaced(ws.drop_last()) + ws.last() + seq![' ']
    }
}

/// A word: nonempty, without white space.
pub open spec fn is_word(w: Seq<char>) -> bool {
    w.len() > 0 && forall|k: int| 0 <= k < w.len() ==> !is_ws(#[trigger] w[k])
}

/// The ranges of the words of `ws`, laid out from `pos` as `spaced` lays them.
pub open spec fn spaced_ranges(ws: Seq<Seq<char>>, pos: int) -> Seq<(int, int)>
    decreases ws.len(),
{
    if ws.len() == 0 {
        Seq::empty()
    } else {
        let p = pos + spaced(ws.drop_last()).len();
        spaced_ranges(ws.drop_last(), pos).push((p, p + ws.last().len()))
    }
}

/// Scanning over spaced words finds each word.
pub proof fn lemma_scan_spaced(s: Seq<char>, pos: int, hi: int, ws: Seq<Seq<char>>, acc: Seq<(int, int)>)
    requires
        0 <= pos,
        pos + spaced(ws).len() <= hi <= s.len(),
        s.subrange(pos, pos + spaced(ws).len()) == spaced(ws),
        forall|k: int| 0 <= k < ws.len() ==> is_word(#[trigger] ws[k]),
    ensures
        scan_tokens(s, pos, hi, None, acc) == scan_tokens(
            s,
            pos + spaced(ws).len(),
            hi,
            None,
            acc + spaced_ranges(ws, pos),
        ),
    decreases ws.len(),
{
    if ws.len() == 0 {
        assert(acc + spaced_ranges(ws, pos) =~= acc);
    } else {
        let init = ws.drop_last();
        let w = ws.last();
        let p = pos + spaced(init).len();
        let sp = spaced(ws);
        assert(sp == spaced(init) + w + seq![' ']);
        assert(s.subrange(pos, p) =~= spaced(init)) by {
            assert forall|k: int| 0 <= k < spaced(init).len() implies s.subrange(pos, p)[k]
                == spaced(init)[k] by {
                assert(s.subrange(pos, pos + sp.len())[k] == sp[k]);
            }
        }
        assert forall|k: int| 0 <= k < init.len() implies is_word(#[trigger] init[k]) by {
            assert(init[k] == ws[k]);
        }
        lemma_scan_spaced(s, pos, hi, init, acc);
        assert(is_word(ws[ws.len() - 1]));
        assert forall|k: int| p <= k < p + w.len() implies !is_ws(#[trigger] s[k]) by {
            assert(s[k] == s.subrange(pos, pos + sp.len())[k - pos]);
            assert(sp[k - pos] == w[k - p]);
        }
        lemma_scan_word(s, p, p + w.len(), hi, None, acc + spaced_ranges(init, pos));
        assert(s[p + w.len()] == s.subrange(pos, pos + sp.len())[p + w.len() - pos]);
        assert(sp[p + w.len() - pos] == ' ');
        assert(acc + spaced_ranges(ws, pos) =~= (acc + spaced_ranges(init, pos)).push(
            (p, p + w.len()),
        ));
    }
}

/// The ranges of spaced words cut out the words.
pub proof fn lemma_spaced_ranges(s: Seq<char>, pos: int, ws: Seq<Seq<char>>)
    requires
        0 <= pos,
        pos + spaced(ws).len() <= s.len(),
        s.subrange(pos, pos + spaced(ws).len()) == spaced(ws),
    ensures
        spaced_ranges(ws, pos).len() == ws.len(),
        forall|k: int|
            0 <= k < ws.len() ==> s.subrange(
                #[trigger] spaced_ranges(ws, pos)[k].0,
                spaced_ranges(ws, pos)[k].1,
            ) == ws[k],
    decreases ws.len(),
{
    if ws.len() > 0 {
        let init = ws.drop_last();
        let w = ws.last();
        let p = pos + spaced(init).len();
        let sp = spaced(ws);
        assert(sp == spaced(init) + w + seq![' ']);
        assert(s.subrange(pos, p) =~= spaced(init)) by {
            assert forall|k: int| 0 <= k < spaced(init).len() implies s.subrange(pos, p)[k]
                == spaced(init)[k] by {
                assert(s.subrange(pos, pos + sp.len())[k] == sp[k]);
            }
        }
        lemma_spaced_ranges(s, pos, init);
        assert(s.subrange(p, p + w.len()) =~= w) by {
            assert forall|k: int| 0 <= k < w.len() implies s.subrange(p, p + w.len())[k] == w[k] by {
                assert(s.subrange(pos, pos + sp.len())[p + k - pos] == sp[p + k - pos]);
            }
        }
        assert forall|k: int| 0 <= k < ws.len() implies s.subrange(
            #[trigger] spaced_ranges(ws, pos)[k].0,
            spaced_ranges(ws, pos)[k].1,
        ) == ws[k] by {
            if k < init.len() {
                assert(spaced_ranges(ws, pos)[k] == spaced_ranges(init, pos)[k]);
                assert(ws[k] == init[k]);
            }
        }
    }
}

// ---------------------------------------------------------------------------
// The header
// ---------------------------------------------------------------------------

/// A comment that reads back as written: no newline in it, and no white
/// space at either end.
pub open spec fn comment_clean(c: Seq<char>) -> bool {
    &&& forall|k: int| 0 <= k < c.len() ==> c[k] != '\n'
    &&& c.len() > 0 ==> !is_ws(c[0]) && !is_ws(c.last())
}

/// A line of ASCII characters `t` without newline, at `p` and followed by a
/// newline, reads as `t`.
proof fn lemma_ascii_line(b: Seq<u8>, p: int, t: Seq<char>)
    requires
        is_ascii_chars(t),
        forall|k: int| 0 <= k < t.len() ==> t[k] != '\n',
        t.len() == 0 || t.last() != '\r',
        0 <= p,
        p + t.len() < b.len(),
        b.subrange(p, p + t.len()) == ascii_bytes(t),
        b[p + t.len()] == 10,
    ensures
        valid_utf8(line_bytes(b, p)),
        line_chars(b, p) == t,
        line_end(b, p) == p + t.len() + 1,
{
    lemma_ascii_encode(t);
    let l = ascii_bytes(t);
    assert forall|k: int| 0 <= k < l.len() implies l[k] != 10 by {
        assert(t[k] != '\n');
        assert(l[k] == t[k] as u8);
        assert((t[k] as u32) < 128);
    }
    if l.len() > 0 {
        assert(l.last() == t.last() as u8);
        assert((t.last() as u32) < 128);
    }
    lemma_line(b, p, l);
}

/// The comment line of `c` at `p` reads as the comment `c`.
proof fn lemma_comment_line(b: Seq<u8>, p: int, c: Seq<char>)
    requires
        comment_clean(c),
        0 <= p,
        p + 2 + encode_utf8(c).len() < b.len(),
        b.subrange(p, p + 2 + encode_utf8(c).len()) == seq![35u8, 32u8] + encode_utf8(c),
        b[p + 2 + encode_utf8(c).len()] == 10,
    ensures
        ({
            let t = line_chars(b, p);
            let lo = trim_lo(t, 0, t.len() as int);
            let hi = trim_hi(t, 0, t.len() as int);
            &&& valid_utf8(line_bytes(b, p))
            &&& line_end(b, p) == p + 3 + encode_utf8(c).len()
            &&& lo != hi
            &&& t[lo] == '#'
            &&& comment_text(t, lo, hi) == c
        }),
{
    let e = encode_utf8(c);
    let t = seq!['#', ' '] + c;
    lemma_encode_concat(seq!['#', ' '], c);
    lemma_ascii_encode(seq!['#', ' ']);
    assert(ascii_bytes(seq!['#', ' ']) =~= seq![35u8, 32u8]);
    let l = seq![35u8, 32u8] + e;
    assert(encode_utf8(t) == l);
    assert forall|k: int| 0 <= k < c.len() implies c[k] as u32 != 10u8 as u32 by {
        assert(c[k] != '\n');
        if c[k] as u32 == 10u32 {
            vstd::utf8::char_u32_cast(c[k], 10u32);
            assert((10u32 as char) == '\n');
        }
    }
    lemma_encode_no_byte(c, 10);
    assert forall|k: int| 0 <= k < l.len() implies l[k] != 10 by {
        if k >= 2 {
            assert(l[k] == e[k - 2]);
        }
    }
    if c.len() > 0 {
        lemma_encode_last(c);
        assert(l.last() == e.last());
        assert(c.last() != '\r');
        if e.last() == 13 {
            vstd::utf8::char_u32_cast(c.last(), 13u32);
            assert((13u32 as char) == '\r');
        }
    } else {
        assert(l =~= seq![35u8, 32u8]);
    }
    lemma_line(b, p, l);
    assert(line_chars(b, p) == t);
    let n = t.len() as int;
    assert(t[0] == '#');
    assert(trim_lo(t, 0, n) == 0);
    if c.len() > 0 {
        assert(t[n - 1] == c.last());
        assert(skip_ws_bwd(t, 0, n) == n);
        assert(t[1] == ' ');
        assert(t[2] == c[0]);
        assert(skip_ws_fwd(t, 2, n) == 2);
        assert(skip_ws_fwd(t, 1, n) == 2);
        assert(skip_ws_bwd(t, 2, n) == n);
        assert(t.subrange(2, n) =~= c);
    } else {
        assert(t[1] == ' ');
        assert(skip_ws_bwd(t, 0, 1) == 1);
        assert(skip_ws_bwd(t, 0, 2) == 1);
        assert(t.subrange(1, 1) =~= c);
    }
}

/// The comment lines of `cs` at `pos` add their comments.
proof fn lemma_size_comments(
    b: Seq<u8>,
    pos: int,
    kind: PnmKind,
    acc: Seq<Seq<char>>,
    cs: Seq<String>,
)
    requires
        0 <= pos,
        pos + comment_bytes(cs).len() < b.len(),
        b.subrange(pos, pos + comment_bytes(cs).len()) == comment_bytes(cs),
        forall|k: int| 0 <= k < cs.len() ==> comment_clean(#[trigger] cs[k]@),
    ensures
        size_stage(b, pos, kind, acc) == size_stage(
            b,
            pos + comment_bytes(cs).len(),
            kind,
            acc + comment_views(cs),
        ),
    decreases cs.len(),
{
    if cs.len() == 0 {
        assert(acc + comment_views(cs) =~= acc);
    } else {
        let init = cs.drop_last();
        let c = cs.last();
        let ci = comment_bytes(init);
        let whole = comment_bytes(cs);
        let e = encode_utf8(c@);
        assert(whole == ci + seq![35u8, 32u8] + e + seq![10u8]);
        assert(b.subrange(pos, pos + ci.len()) =~= ci) by {
            assert forall|k: int| 0 <= k < ci.len() implies b.subrange(pos, pos + ci.len())[k]
                == ci[k] by {
                assert(b.subrange(pos, pos + whole.len())[k] == whole[k]);
            }
        }
        assert forall|k: int| 0 <= k < init.len() implies comment_clean(#[trigger] init[k]@) by {
            assert(init[k] == cs[k]);
        }
        lemma_size_comments(b, pos, kind, acc, init);
        let p = pos + ci.len();
        assert(b.subrange(p, p + 2 + e.len()) =~= seq![35u8, 32u8] + e) by {
            assert forall|k: int| 0 <= k < 2 + e.len() implies b.subrange(p, p + 2 + e.len())[k]
                == (seq![35u8, 32u8] + e)[k] by {
                assert(b.subrange(pos, pos + whole.len())[ci.len() + k] == whole[ci.len() + k]);
            }
        }
        assert(b[p + 2 + e.len()] == 10) by {
            let q: int = (ci.len() + 2 + e.len()) as int;
            assert(b.subrange(pos, pos + whole.len())[q] == whole[q]);
        }
        assert(comment_clean(cs[cs.len() - 1]@));
        lemma_comment_line(b, p, c@);
        let acc2 = acc + comment_views(init);
        assert(acc + comment_views(cs) =~= acc2.push(c@));
        let t = line_chars(b, p);
        let lo = trim_lo(t, 0, t.len() as int);
        let hi = trim_hi(t, 0, t.len() as int);
        assert(size_stage(b, p, kind, acc2) == size_stage(
            b,
            line_end(b, p),
            kind,
            acc2.push(comment_text(t, lo, hi)),
        ));
    }
}

/// The text of a sample maximum in the header: a space and the number;
/// nothing for bitmaps.
pub open spec fn max_text(max: Option<u16>) -> Seq<u8> {
    match max {
        Some(m) => seq![32u8] + decimal_bytes(m as nat),
        None => Seq::empty(),
    }
}

/// Bytes at `pos` of `b` are `part`.
pub open spec fn holds_at(b: Seq<u8>, pos: int, part: Seq<u8>) -> bool {
    0 <= pos && pos + part.len() <= b.len() && b.subrange(pos, pos + part.len()) == part
}

/// A part of a part.
proof fn lemma_holds_at_sub(b: Seq<u8>, pos: int, part: Seq<u8>, i: int, j: int)
    requires
        holds_at(b, pos, part),
        0 <= i <= j <= part.len(),
    ensures
        holds_at(b, pos + i, part.subrange(i, j)),
{
    assert forall|k: int| 0 <= k < j - i implies b.subrange(pos + i, pos + j)[k] == part.subrange(
        i,
        j,
    )[k] by {
        assert(b.subrange(pos, pos + part.len())[i + k] == part[i + k]);
    }
    assert(b.subrange(pos + i, pos + j) =~= part.subrange(i, j));
}

/// The magic line of `kind` at the start of `b` is read as `kind`.
proof fn lemma_magic_line(b: Seq<u8>, kind: PnmKind)
    requires
        holds_at(b, 0, ascii_bytes(kind.name()) + seq![10u8]),
    ensures
        kind_stage(b, 0, Seq::empty()) == size_stage(b, 3, kind, Seq::empty()),
{
    let name = kind.name();
    let a = ascii_bytes(name) + seq![10u8];
    assert(name.len() == 2);
    assert(name[0] == 'P');
    assert(is_digit(name[1]));
    assert(is_ascii_chars(name));
    lemma_holds_at_sub(b, 0, a, 0, 2);
    assert(a.subrange(0, 2) =~= ascii_bytes(name));
    assert(b[2] == b.subrange(0, 3)[2]);
    lemma_ascii_line(b, 0, name);
    assert(trim_lo(name, 0, 2) == 0);
    assert(skip_ws_bwd(name, 0, 2) == 2);
    assert(name.subrange(0, 2) =~= name);
    super::laws::law_kind_name_round_trip(kind);
}

/// The characters of a size line.
pub open spec fn size_chars(width: nat, height: nat) -> Seq<char> {
    decimal(width) + seq![' '] + decimal(height)
}

/// The tokens of a size line are its two numerals.
proof fn lemma_size_tokens(width: nat, height: nat)
    ensures
        ({
            let st = size_chars(width, height);
            &&& is_ascii_chars(st)
            &&& forall|k: int| 0 <= k < st.len() ==> st[k] != '\n'
            &&& is_digit(st[0])
            &&& is_digit(st.last())
            &&& tokens(st, 0, st.len() as int) == seq![decimal(width), decimal(height)]
        }),
{
    let dw = decimal(width);
    let dh = decimal(height);
    let st = size_chars(width, height);
    lemma_decimal(width);
    lemma_decimal(height);
    assert forall|k: int| 0 <= k < st.len() implies '\0' <= #[trigger] st[k] <= '\u{7f}' && st[k] != '\n' by {
        if k < dw.len() {
            assert(st[k] == dw[k]);
            assert(is_digit(dw[k]));
        } else if k > dw.len() {
            assert(st[k] == dh[k - dw.len() - 1]);
            assert(is_digit(dh[k - dw.len() - 1]));
        }
    }
    assert(st.last() == dh.last());
    assert(is_digit(dh[dh.len() - 1]));
    assert(st[0] == dw[0]);
    assert(is_digit(dw[0]));
    let n = st.len() as int;
    let ws = seq![dw];
    assert(spaced(ws.drop_last()) =~= Seq::<char>::empty());
    assert(spaced(ws) =~= dw + seq![' ']);
    assert(st.subrange(0, spaced(ws).len() as int) =~= spaced(ws));
    assert(is_word(ws[0]));
    lemma_scan_spaced(st, 0, n, ws, Seq::empty());
    let p: int = (dw.len() + 1) as int;
    assert forall|k: int| p <= k < n implies !is_ws(#[trigger] st[k]) by {
        assert(st[k] == dh[k - p]);
        assert(is_digit(dh[k - p]));
    }
    lemma_scan_word(st, p, n, n, None, Seq::<(int, int)>::empty() + spaced_ranges(ws, 0));
    assert(spaced_ranges(ws.drop_last(), 0) =~= Seq::<(int, int)>::empty());
    let rs = seq![(0int, dw.len() as int), (p, n)];
    assert(token_ranges(st, 0, n) =~= rs);
    let toks = tokens(st, 0, n);
    assert(st.subrange(0, dw.len() as int) =~= dw);
    assert(st.subrange(p, n) =~= dh);
    assert(toks =~= seq![dw, dh]);
}

/// The size line at `ps` is read as the width and height; bitmaps end their
/// header there.
proof fn lemma_size_line(
    b: Seq<u8>,
    ps: int,
    kind: PnmKind,
    cs: Seq<Seq<char>>,
    width: usize,
    height: usize,
)
    requires
        holds_at(b, ps, ascii_bytes(size_chars(width as nat, height as nat)) + seq![10u8]),
    ensures
        ({
            let pm = ps + size_chars(width as nat, height as nat).len() + 1;
            size_stage(b, ps, kind, cs) == if kind.spec_is_pbm() {
                HeaderView::Parsed(
                    HeaderFields { kind, width, height, max_val: None, comments: cs, end: pm as usize },
                )
            } else {
                maxval_stage(b, pm, kind, width, height, cs)
            }
        }),
{
    let st = size_chars(width as nat, height as nat);
    let line = ascii_bytes(st) + seq![10u8];
    let n = st.len() as int;
    lemma_size_tokens(width as nat, height as nat);
    lemma_holds_at_sub(b, ps, line, 0, n);
    assert(line.subrange(0, n) =~= ascii_bytes(st));
    assert(b[ps + n] == b.subrange(ps, ps + line.len())[n]);
    lemma_ascii_line(b, ps, st);
    assert(trim_lo(st, 0, n) == 0);
    assert(skip_ws_bwd(st, 0, n) == n);
    lemma_decimal_parses(width as nat, usize::MAX as nat);
    lemma_decimal_parses(height as nat, usize::MAX as nat);
}

/// The sample-maximum line at `pm` is read as `m`.
proof fn lemma_maxval_line(
    b: Seq<u8>,
    pm: int,
    kind: PnmKind,
    cs: Seq<Seq<char>>,
    width: usize,
    height: usize,
    m: u16,
)
    requires
        m != 0,
        holds_at(b, pm, max_text(Some(m)) + seq![10u8]),
    ensures
        maxval_stage(b, pm, kind, width, height, cs) == HeaderView::Parsed(
            HeaderFields {
                kind,
                width,
                height,
                max_val: Some(m),
                comments: cs,
                end: (pm + max_text(Some(m)).len() + 1) as usize,
            },
        ),
{
    let dm = decimal(m as nat);
    let mt = max_text(Some(m));
    let t = seq![' '] + dm;
    lemma_decimal(m as nat);
    assert(ascii_bytes(t) =~= mt);
    assert forall|k: int| 0 <= k < t.len() implies '\0' <= #[trigger] t[k] <= '\u{7f}' && t[k] != '\n' by {
        if k > 0 {
            assert(t[k] == dm[k - 1]);
            assert(is_digit(dm[k - 1]));
        }
    }
    assert(t.last() == dm.last());
    assert(is_digit(dm[dm.len() - 1]));
    let line = mt + seq![10u8];
    let n = t.len() as int;
    lemma_holds_at_sub(b, pm, line, 0, n);
    assert(line.subrange(0, n) =~= mt);
    assert(b[pm + n] == b.subrange(pm, pm + line.len())[n]);
    lemma_ascii_line(b, pm, t);
    assert(t[1] == dm[0]);
    assert(is_digit(dm[0]));
    assert(skip_ws_fwd(t, 1, n) == 1);
    assert(trim_lo(t, 0, n) == 1);
    assert(skip_ws_bwd(t, 1, n) == n);
    assert(t.subrange(1, n) =~= dm);
    lemma_decimal_parses(m as nat, 65535);
}

/// Reading the header that writing wrote gives back its fields.
pub proof fn lemma_header_view(
    b: Seq<u8>,
    kind: PnmKind,
    comments: Seq<String>,
    width: usize,
    height: usize,
    max: Option<u16>,
)
    requires
        holds_at(b, 0, header_bytes(kind, comments, width as nat, height as nat, max_text(max))),
        max is None <==> kind.spec_is_pbm(),
        max matches Some(m) ==> m != 0,
        forall|k: int| 0 <= k < comments.len() ==> comment_clean(#[trigger] comments[k]@),
    ensures
        header_view(b) == HeaderView::Parsed(
            HeaderFields {
                kind,
                width,
                height,
                max_val: max,
                comments: comment_views(comments),
                end: (header_bytes(kind, comments, width as nat, height as nat, max_text(max)).len()
                    - if max is None { 1int } else { 0 }) as usize,
            },
        ),
{
    let a = ascii_bytes(kind.name()) + seq![10u8];
    let cb = comment_bytes(comments);
    let st = size_chars(width as nat, height as nat);
    let sl = ascii_bytes(st) + seq![10u8];
    let mt = max_text(max);
    let ml = mt + seq![10u8];
    let h = header_bytes(kind, comments, width as nat, height as nat, mt);
    assert(ascii_bytes(st) =~= decimal_bytes(width as nat) + seq![32u8] + decimal_bytes(height as nat));
    assert(h =~= a + cb + sl + ml);
    assert(kind.name().len() == 2);
    let pc: int = 3;
    let ps: int = pc + cb.len();
    let pm: int = ps + sl.len();
    lemma_holds_at_sub(b, 0, h, 0, pc);
    assert(h.subrange(0, pc) =~= a);
    lemma_magic_line(b, kind);
    lemma_holds_at_sub(b, 0, h, pc, ps);
    assert(h.subrange(pc, ps) =~= cb);
    lemma_size_comments(b, pc, kind, Seq::empty(), comments);
    assert(Seq::<Seq<char>>::empty() + comment_views(comments) =~= comment_views(comments));
    lemma_holds_at_sub(b, 0, h, ps, pm);
    assert(h.subrange(ps, pm) =~= sl);
    lemma_size_line(b, ps, kind, comment_views(comments), width, height);
    if let Some(m) = max {
        lemma_holds_at_sub(b, 0, h, pm, pm + ml.len());
        assert(h.subrange(pm, pm + ml.len()) =~= ml);
        lemma_maxval_line(b, pm, kind, comment_views(comments), width, height, m);
    }
}

// ---------------------------------------------------------------------------
// Lines of words
// ---------------------------------------------------------------------------

/// Spaced ASCII words are ASCII, without newline, and end with a space.
proof fn lemma_spaced_ascii(ws: Seq<Seq<char>>)
    requires
        forall|k: int| 0 <= k < ws.len() ==> is_ascii_chars(#[trigger] ws[k]),
        forall|k: int, i: int| 0 <= k < ws.len() && 0 <= i < ws[k].len() ==> #[trigger] ws[k][i] != '\n',
    ensures
        is_ascii_chars(spaced(ws)),
        forall|i: int| 0 <= i < spaced(ws).len() ==> #[trigger] spaced(ws)[i] != '\n',
        ws.len() > 0 ==> spaced(ws).last() == ' ',
    decreases ws.len(),
{
    if ws.len() > 0 {
        let init = ws.drop_last();
        let w = ws.last();
        assert forall|k: int| 0 <= k < init.len() implies is_ascii_chars(#[trigger] init[k]) by {
            assert(init[k] == ws[k]);
        }
        assert forall|k: int, i: int| 0 <= k < init.len() && 0 <= i < init[k].len() implies #[trigger] init[k][i] != '\n' by {
            assert(init[k] == ws[k]);
        }
        lemma_spaced_ascii(init);
        let a = spaced(init);
        let sp = spaced(ws);
        assert(sp == a + w + seq![' ']);
        assert(is_ascii_chars(ws[ws.len() - 1]));
        assert forall|i: int| 0 <= i < sp.len() implies '\0' <= #[trigger] sp[i] <= '\u{7f}' && sp[i] != '\n' by {
            if i < a.len() {
                assert(sp[i] == a[i]);
            } else if i < a.len() + w.len() {
                assert(sp[i] == w[i - a.len()]);
                assert(ws[ws.len() - 1][i - a.len()] != '\n');
            }
        }
    }
}

/// The tokens of spaced words are the words.
proof fn lemma_spaced_tokens(ws: Seq<Seq<char>>)
    requires
        forall|k: int| 0 <= k < ws.len() ==> is_word(#[trigger] ws[k]),
    ensures
        tokens(spaced(ws), 0, spaced(ws).len() as int) == ws,
{
    let t = spaced(ws);
    let n = t.len() as int;
    assert(t.subrange(0, n) =~= t);
    lemma_scan_spaced(t, 0, n, ws, Seq::empty());
    assert(Seq::<(int, int)>::empty() + spaced_ranges(ws, 0) =~= spaced_ranges(ws, 0));
    lemma_spaced_ranges(t, 0, ws);
    assert(tokens(t, 0, n) =~= ws);
}

/// The values of tokens that all parse.
proof fn lemma_token_values(toks: Seq<Seq<char>>, k: int, max: nat)
    requires
        0 <= k <= toks.len(),
        forall|i: int| k <= i < toks.len() ==> parses_unsigned(#[trigger] toks[i], max),
    ensures
        token_values(toks, k, max) == Some(
            toks.subrange(k, toks.len() as int).map_values(|t: Seq<char>| unsigned_value(t)),
        ),
    decreases toks.len() - k,
{
    if k < toks.len() {
        lemma_token_values(toks, k + 1, max);
        assert(parses_unsigned(toks[k], max));
        assert(toks.subrange(k, toks.len() as int).map_values(|t: Seq<char>| unsigned_value(t))
            =~= seq![unsigned_value(toks[k])] + toks.subrange(k + 1, toks.len() as int).map_values(
            |t: Seq<char>| unsigned_value(t),
        ));
    } else {
        assert(toks.subrange(k, toks.len() as int).map_values(|t: Seq<char>| unsigned_value(t))
            =~= Seq::<nat>::empty());
    }
}

/// `ascii_bytes` of a concatenation.
proof fn lemma_ascii_bytes_concat(a: Seq<char>, b: Seq<char>)
    ensures
        ascii_bytes(a + b) == ascii_bytes(a) + ascii_bytes(b),
{
    assert(ascii_bytes(a + b) =~= ascii_bytes(a) + ascii_bytes(b));
}

// ---------------------------------------------------------------------------
// ASCII graymaps
// ---------------------------------------------------------------------------

/// The numerals of `vals[start..start + j]`.
pub open spec fn decimal_words(vals: Seq<u16>, start: nat, j: nat) -> Seq<Seq<char>> {
    Seq::new(j, |k: int| decimal(vals[start + k] as nat))
}

proof fn lemma_decimal_words(vals: Seq<u16>, start: nat, j: nat)
    ensures
        forall|k: int| 0 <= k < j ==> is_word(#[trigger] decimal_words(vals, start, j)[k]),
        forall|k: int| 0 <= k < j ==> is_ascii_chars(#[trigger] decimal_words(vals, start, j)[k]),
        forall|k: int, i: int|
            0 <= k < j && 0 <= i < decimal_words(vals, start, j)[k].len() ==> #[trigger] decimal_words(
                vals,
                start,
                j,
            )[k][i] != '\n',
        forall|k: int, i: int|
            0 <= k < j && 0 <= i < decimal_words(vals, start, j)[k].len() ==> is_digit(
                #[trigger] decimal_words(vals, start, j)[k][i],
            ),
{
    let ws = decimal_words(vals, start, j);
    assert forall|k: int| 0 <= k < j implies is_word(#[trigger] ws[k]) && is_ascii_chars(ws[k])
        && forall|i: int| 0 <= i < ws[k].len() ==> ws[k][i] != '\n' && is_digit(ws[k][i]) by {
        lemma_decimal(vals[start + k] as nat);
        let d = ws[k];
        assert forall|i: int| 0 <= i < d.len() implies !is_ws(#[trigger] d[i]) && d[i] != '\n' && is_digit(d[i]) by {
            assert(is_digit(d[i]));
        }
    }
}

/// A row of an ASCII graymap: a newline, then each value followed by a space.
proof fn lemma_pgm_row(vals: Seq<u16>, width: nat, r: nat, j: nat)
    requires
        width > 0,
        1 <= j <= width,
        r * width + j <= vals.len(),
    ensures
        pgm_ascii_prefix(vals, width, r * width + j) == pgm_ascii_prefix(vals, width, r * width)
            + seq![10u8] + ascii_bytes(spaced(decimal_words(vals, r * width, j))),
    decreases j,
{
    let base = r * width;
    let i = (base + j - 1) as nat;
    let ws = decimal_words(vals, base, j);
    assert(ws.drop_last() =~= decimal_words(vals, base, (j - 1) as nat));
    assert(ws.last() == decimal(vals[i as int] as nat));
    lemma_ascii_bytes_concat(spaced(ws.drop_last()) + ws.last(), seq![' ']);
    lemma_ascii_bytes_concat(spaced(ws.drop_last()), ws.last());
    assert(ascii_bytes(seq![' ']) =~= seq![32u8]);
    if j == 1 {
        assert((base as int) % (width as int) == 0) by {
            vstd::arithmetic::div_mod::lemma_mod_multiples_basic(r as int, width as int);
        }
        assert(spaced(ws.drop_last()) =~= Seq::<char>::empty());
        assert(ascii_bytes(Seq::<char>::empty()) =~= Seq::<u8>::empty());
        assert(pgm_ascii_prefix(vals, width, base + 1) =~= pgm_ascii_prefix(vals, width, base)
            + seq![10u8] + ascii_bytes(spaced(ws)));
    } else {
        lemma_pgm_row(vals, width, r, (j - 1) as nat);
        assert((i as int) % (width as int) == j - 1) by {
            vstd::arithmetic::div_mod::lemma_mod_multiples_vanish(r as int, (j - 1) as int, width as int);
            vstd::arithmetic::div_mod::lemma_small_mod((j - 1) as nat, width);
            assert(r * width + (j - 1) == width * r + (j - 1)) by (nonlinear_arith);
        }
        assert(pgm_ascii_prefix(vals, width, base + j) =~= pgm_ascii_prefix(vals, width, base)
            + seq![10u8] + ascii_bytes(spaced(ws)));
    }
}

/// Earlier prefixes of the ASCII graymap text are prefixes of later ones.
proof fn lemma_pgm_prefix_mono(vals: Seq<u16>, width: nat, m: nat, n: nat)
    requires
        m <= n <= vals.len(),
    ensures
        pgm_ascii_prefix(vals, width, m).len() <= pgm_ascii_prefix(vals, width, n).len(),
        pgm_ascii_prefix(vals, width, n).subrange(0, pgm_ascii_prefix(vals, width, m).len() as int)
            == pgm_ascii_prefix(vals, width, m),
    decreases n - m,
{
    if m < n {
        lemma_pgm_prefix_mono(vals, width, m, (n - 1) as nat);
        let a = pgm_ascii_prefix(vals, width, m);
        let b = pgm_ascii_prefix(vals, width, (n - 1) as nat);
        let c = pgm_ascii_prefix(vals, width, n);
        assert(c.subrange(0, b.len() as int) =~= b);
        assert(c.subrange(0, a.len() as int) =~= b.subrange(0, a.len() as int));
    } else {
        assert(pgm_ascii_prefix(vals, width, n).subrange(0, pgm_ascii_prefix(vals, width, m).len() as int)
            =~= pgm_ascii_prefix(vals, width, m));
    }
}

/// Skipping white space forward stops at a character that is none.
proof fn lemma_skip_fwd_stop(s: Seq<char>, i: int, hi: int)
    requires
        i <= hi,
    ensures
        skip_ws_fwd(s, i, hi) < hi ==> !is_ws(s[skip_ws_fwd(s, i, hi)]),
    decreases hi - i,
{
    if i < hi && is_ws(s[i]) {
        lemma_skip_fwd_stop(s, i + 1, hi);
    }
}

/// Spaced words of digits are digits and spaces.
proof fn lemma_spaced_digits(ws: Seq<Seq<char>>)
    requires
        forall|k: int, i: int| 0 <= k < ws.len() && 0 <= i < ws[k].len() ==> is_digit(#[trigger] ws[k][i]),
    ensures
        forall|i: int| 0 <= i < spaced(ws).len() ==> is_digit(#[trigger] spaced(ws)[i]) || spaced(ws)[i] == ' ',
    decreases ws.len(),
{
    if ws.len() > 0 {
        let init = ws.drop_last();
        let w = ws.last();
        assert forall|k: int, i: int| 0 <= k < init.len() && 0 <= i < init[k].len() implies is_digit(#[trigger] init[k][i]) by {
            assert(init[k] == ws[k]);
        }
        lemma_spaced_digits(init);
        let a = spaced(init);
        let sp = spaced(ws);
        assert(sp == a + w + seq![' ']);
        assert forall|i: int| 0 <= i < sp.len() implies is_digit(#[trigger] sp[i]) || sp[i] == ' ' by {
            if i < a.len() {
                assert(sp[i] == a[i]);
            } else if i < a.len() + w.len() {
                assert(sp[i] == w[i - a.len()]);
                assert(is_digit(ws[ws.len() - 1][i - a.len()]));
            }
        }
    }
}

/// A line of digits and spaces whose tokens are `ws` adds their values.
proof fn lemma_samples_line(b: Seq<u8>, pos: int, acc: Seq<nat>, max: nat, t: Seq<char>, ws: Seq<Seq<char>>)
    requires
        holds_at(b, pos, ascii_bytes(t) + seq![10u8]),
        forall|i: int| 0 <= i < t.len() ==> is_digit(#[trigger] t[i]) || t[i] == ' ',
        tokens(t, 0, t.len() as int) == ws,
        forall|k: int| 0 <= k < ws.len() ==> parses_unsigned(#[trigger] ws[k], max),
    ensures
        samples_stage(b, pos, acc, max) == samples_stage(
            b,
            pos + t.len() + 1,
            acc + ws.map_values(|w: Seq<char>| unsigned_value(w)),
            max,
        ),
{
    let n = t.len() as int;
    let line = ascii_bytes(t) + seq![10u8];
    assert forall|i: int| 0 <= i < n implies '\0' <= #[trigger] t[i] <= '\u{7f}' && t[i] != '\n' by {
        assert(is_digit(t[i]) || t[i] == ' ');
    }
    if n > 0 {
        assert(is_digit(t[n - 1]) || t[n - 1] == ' ');
    }
    lemma_holds_at_sub(b, pos, line, 0, n);
    assert(line.subrange(0, n) =~= ascii_bytes(t));
    assert(b[pos + n] == b.subrange(pos, pos + line.len())[n]);
    lemma_ascii_line(b, pos, t);
    let lo = trim_lo(t, 0, n);
    let hi = trim_hi(t, 0, n);
    crate::text::lemma_trim_bounds(t, 0, n);
    lemma_skip_fwd_stop(t, 0, n);
    if lo < hi {
        assert(is_digit(t[lo]) || t[lo] == ' ');
    }
    lemma_token_values(ws, 0, max);
    assert(ws.subrange(0, ws.len() as int) =~= ws);
}

/// A line of spaced numerals adds their values.
proof fn lemma_pgm_line_step(b: Seq<u8>, pos: int, acc: Seq<nat>, max: nat, ws: Seq<Seq<char>>)
    requires
        holds_at(b, pos, ascii_bytes(spaced(ws)) + seq![10u8]),
        forall|k: int| 0 <= k < ws.len() ==> is_word(#[trigger] ws[k]),
        forall|k: int, i: int| 0 <= k < ws.len() && 0 <= i < ws[k].len() ==> is_digit(#[trigger] ws[k][i]),
        forall|k: int| 0 <= k < ws.len() ==> parses_unsigned(#[trigger] ws[k], max),
    ensures
        samples_stage(b, pos, acc, max) == samples_stage(
            b,
            pos + spaced(ws).len() + 1,
            acc + ws.map_values(|t: Seq<char>| unsigned_value(t)),
            max,
        ),
{
    lemma_spaced_digits(ws);
    lemma_spaced_tokens(ws);
    lemma_samples_line(b, pos, acc, max, spaced(ws), ws);
}

/// The values read so far after `r` rows.
pub open spec fn values_to(vals: Seq<u16>, n: nat) -> Seq<nat> {
    vals.take(n as int).map_values(|v: u16| v as nat)
}

/// Reading the rows of an ASCII graymap from row `r` on.
proof fn lemma_pgm_rows(vals: Seq<u16>, width: nat, height: nat, b: Seq<u8>, r: nat, wide: bool)
    requires
        width > 0,
        vals.len() == width * height,
        r <= height,
        b == pgm_ascii_prefix(vals, width, width * height) + seq![10u8],
        forall|i: int| 0 <= i < vals.len() ==> #[trigger] vals[i] <= sample_max(wide),
    ensures
        samples_stage(b, (pgm_ascii_prefix(vals, width, r * width).len() + 1) as int, values_to(vals, r * width), sample_max(wide))
            == samples_stage(b, b.len() as int, values_to(vals, width * height), sample_max(wide)),
    decreases height - r,
{
    if r < height {
        let base = r * width;
        assert((r + 1) * width == r * width + width) by (nonlinear_arith);
        assert((r + 1) * width <= width * height) by (nonlinear_arith)
            requires r + 1 <= height;
        assert(r * width == width * r) by (nonlinear_arith);
        let pr = pgm_ascii_prefix(vals, width, base);
        let ws = decimal_words(vals, base, width);
        let pn = pgm_ascii_prefix(vals, width, base + width);
        lemma_pgm_row(vals, width, r, width);
        lemma_decimal_words(vals, base, width);
        let total = pgm_ascii_prefix(vals, width, width * height);
        lemma_pgm_prefix_mono(vals, width, base + width, width * height);
        // the newline after the row
        assert(b[pn.len() as int] == 10) by {
            if r + 1 < height {
                assert((r + 2) * width == r * width + width + width) by (nonlinear_arith);
                assert((r + 2) * width <= width * height) by (nonlinear_arith)
                    requires r + 2 <= height;
                lemma_pgm_row(vals, width, r + 1, 1);
                assert((r + 1) * width + 1 <= width * height);
                lemma_pgm_prefix_mono(vals, width, base + width + 1, width * height);
                let pn1 = pgm_ascii_prefix(vals, width, base + width + 1);
                assert(pn1[pn.len() as int] == 10);
                assert(total.subrange(0, pn1.len() as int)[pn.len() as int] == pn1[pn.len() as int]);
            } else {
                assert(width * height == (r + 1) * width) by (nonlinear_arith)
                    requires r + 1 == height;
            }
        }
        let line = ascii_bytes(spaced(ws)) + seq![10u8];
        let pos: int = (pr.len() + 1) as int;
        assert(holds_at(b, pos, line)) by {
            assert forall|k: int| 0 <= k < line.len() implies b.subrange(pos, pos + line.len())[k] == line[k] by {
                if k < line.len() - 1 {
                    assert(pn[pos + k] == ascii_bytes(spaced(ws))[k]);
                    assert(b[pos + k] == total[pos + k]);
                    assert(total[pos + k] == total.subrange(0, pn.len() as int)[pos + k]);
                } else {
                    assert(pos + k == pn.len());
                }
            }
            assert(b.subrange(pos, pos + line.len()) =~= line);
        }
        assert forall|k: int| 0 <= k < ws.len() implies parses_unsigned(#[trigger] ws[k], sample_max(wide)) by {
            lemma_decimal_parses(vals[base + k] as nat, sample_max(wide));
        }
        let acc = values_to(vals, base);
        lemma_pgm_line_step(b, pos, acc, sample_max(wide), ws);
        let got = ws.map_values(|t: Seq<char>| unsigned_value(t));
        assert(got =~= Seq::new(width, |k: int| vals[base + k] as nat)) by {
            assert forall|k: int| 0 <= k < width implies #[trigger] got[k] == vals[base + k] as nat by {
                lemma_decimal_parses(vals[base + k] as nat, 65535);
            }
        }
        assert(acc + ws.map_values(|t: Seq<char>| unsigned_value(t)) =~= values_to(vals, base + width));
        assert(pos + spaced(ws).len() + 1 == pn.len() + 1);
        lemma_pgm_rows(vals, width, height, b, r + 1, wide);
    } else {
        assert(r * width == width * height) by (nonlinear_arith)
            requires r == height;
    }
}

/// Reading the ASCII graymap text of `vals` gives back `vals`.
pub proof fn lemma_pgm_ascii_view(vals: Seq<u16>, width: nat, height: nat, wide: bool)
    requires
        width > 0 || vals.len() == 0,
        vals.len() == width * height,
        forall|i: int| 0 <= i < vals.len() ==> #[trigger] vals[i] <= sample_max(wide),
    ensures
        pgm_ascii_view(pgm_ascii_prefix(vals, width, vals.len()) + seq![10u8], wide, width, height)
            == if wide {
            DataView::Gray16(vals)
        } else {
            DataView::Gray8(vals.map_values(|v: u16| v as u8))
        },
{
    let b = pgm_ascii_prefix(vals, width, vals.len()) + seq![10u8];
    let empty = Seq::<Seq<char>>::empty();
    assert(spaced(empty) =~= Seq::<char>::empty());
    assert(ascii_bytes(Seq::<char>::empty()) =~= Seq::<u8>::empty());
    let all = values_to(vals, vals.len());
    if vals.len() == 0 {
        assert(b =~= seq![10u8]);
        assert(ascii_bytes(spaced(empty)) + seq![10u8] =~= seq![10u8]);
        assert(b.subrange(0, 1) =~= seq![10u8]);
        assert(holds_at(b, 0, ascii_bytes(spaced(empty)) + seq![10u8]));
        lemma_pgm_line_step(b, 0, Seq::empty(), sample_max(wide), empty);
        assert(Seq::<nat>::empty() + empty.map_values(|t: Seq<char>| unsigned_value(t)) =~= Seq::<nat>::empty());
        assert(all =~= Seq::<nat>::empty());
    } else {
        assert(width > 0);
        assert(height > 0) by {
            if height == 0 {
                assert(width * height == 0) by (nonlinear_arith)
                    requires height == 0;
            }
        }
        lemma_pgm_row(vals, width, 0, 1);
        assert(0 * width == 0);
        assert(pgm_ascii_prefix(vals, width, 0) =~= Seq::<u8>::empty());
        let p1 = pgm_ascii_prefix(vals, width, 1);
        lemma_pgm_prefix_mono(vals, width, 1, vals.len());
        assert(b[0] == 10) by {
            assert(p1[0] == 10);
            assert(b[0] == pgm_ascii_prefix(vals, width, vals.len()).subrange(0, p1.len() as int)[0]);
        }
        assert(holds_at(b, 0, ascii_bytes(spaced(empty)) + seq![10u8])) by {
            assert(ascii_bytes(spaced(empty)) + seq![10u8] =~= seq![10u8]);
            assert(b.subrange(0, 1) =~= seq![10u8]);
        }
        lemma_pgm_line_step(b, 0, Seq::empty(), sample_max(wide), empty);
        assert(Seq::<nat>::empty() + empty.map_values(|t: Seq<char>| unsigned_value(t)) =~= values_to(vals, 0));
        lemma_pgm_rows(vals, width, height, b, 0, wide);
        assert(vals.take(vals.len() as int) =~= vals);
    }
    assert(all.len() == width * height);
    assert(all.map_values(|v: nat| v as u16) =~= vals);
    assert(all.map_values(|v: nat| v as u8) =~= vals.map_values(|v: u16| v as u8));
}

// ---------------------------------------------------------------------------
// ASCII bitmaps
// ---------------------------------------------------------------------------

/// The digit of a bit.
pub open spec fn bit_char(b: bool) -> char {
    if b { '1' } else { '0' }
}

/// The digits of `bits[start..start + j]`, one word each.
pub open spec fn bit_words(bits: Seq<bool>, start: nat, j: nat) -> Seq<Seq<char>> {
    Seq::new(j, |k: int| seq![bit_char(bits[start + k])])
}

/// The text of the first `j` bits of a row: digits separated by spaces.
pub open spec fn bit_row(bits: Seq<bool>, start: nat, j: nat) -> Seq<char> {
    spaced(bit_words(bits, start, (j - 1) as nat)) + seq![bit_char(bits[start + j - 1])]
}

proof fn lemma_bit_words(bits: Seq<bool>, start: nat, j: nat)
    ensures
        forall|k: int| 0 <= k < j ==> is_word(#[trigger] bit_words(bits, start, j)[k]),
        forall|k: int| 0 <= k < j ==> is_ascii_chars(#[trigger] bit_words(bits, start, j)[k]),
        forall|k: int, i: int|
            0 <= k < j && 0 <= i < bit_words(bits, start, j)[k].len() ==> #[trigger] bit_words(
                bits,
                start,
                j,
            )[k][i] != '\n',
{
}

/// A row of an ASCII bitmap: after the first row a newline, then the digits
/// separated by spaces.
proof fn lemma_pbm_row(bits: Seq<bool>, width: nat, r: nat, j: nat)
    requires
        width > 0,
        1 <= j <= width,
        r * width + j <= bits.len(),
    ensures
        pbm_ascii_prefix(bits, width, r * width + j) == pbm_ascii_prefix(bits, width, r * width)
            + (if r > 0 { seq![10u8] } else { Seq::empty() }) + ascii_bytes(bit_row(bits, r * width, j)),
    decreases j,
{
    let base = r * width;
    let i = (base + j - 1) as nat;
    let row = bit_row(bits, base, j);
    assert(ascii_bytes(seq![bit_char(bits[i as int])]) =~= seq![bit_digit(bits[i as int])]);
    assert((base as int) % (width as int) == 0) by {
        vstd::arithmetic::div_mod::lemma_mod_multiples_basic(r as int, width as int);
    }
    assert(r > 0 ==> base > 0) by {
        if r > 0 {
            assert(r * width >= width) by (nonlinear_arith)
                requires r >= 1;
        }
    }
    if j == 1 {
        assert(bit_words(bits, base, 0) =~= Seq::<Seq<char>>::empty());
        assert(spaced(bit_words(bits, base, 0)) =~= Seq::<char>::empty());
        assert(row =~= seq![bit_char(bits[i as int])]);
        assert(pbm_ascii_prefix(bits, width, base + 1) =~= pbm_ascii_prefix(bits, width, base)
            + (if r > 0 { seq![10u8] } else { Seq::empty() }) + ascii_bytes(row));
    } else {
        lemma_pbm_row(bits, width, r, (j - 1) as nat);
        assert((i as int) % (width as int) == j - 1) by {
            vstd::arithmetic::div_mod::lemma_mod_multiples_vanish(r as int, (j - 1) as int, width as int);
            vstd::arithmetic::div_mod::lemma_small_mod((j - 1) as nat, width);
            assert(r * width + (j - 1) == width * r + (j - 1)) by (nonlinear_arith);
        }
        let prev = bit_row(bits, base, (j - 1) as nat);
        let ws = bit_words(bits, base, (j - 1) as nat);
        assert(ws.drop_last() =~= bit_words(bits, base, (j - 2) as nat));
        assert(ws.last() == seq![bit_char(bits[base + j - 2])]);
        assert(spaced(ws) == prev + seq![' ']);
        assert(row =~= prev + seq![' '] + seq![bit_char(bits[i as int])]);
        lemma_ascii_bytes_concat(prev + seq![' '], seq![bit_char(bits[i as int])]);
        lemma_ascii_bytes_concat(prev, seq![' ']);
        assert(ascii_bytes(seq![' ']) =~= seq![32u8]);
        assert(pbm_ascii_prefix(bits, width, base + j) =~= pbm_ascii_prefix(bits, width, base)
            + (if r > 0 { seq![10u8] } else { Seq::empty() }) + ascii_bytes(row));
    }
}

/// Earlier prefixes of the ASCII bitmap text are prefixes of later ones.
proof fn lemma_pbm_prefix_mono(bits: Seq<bool>, width: nat, m: nat, n: nat)
    requires
        m <= n <= bits.len(),
    ensures
        pbm_ascii_prefix(bits, width, m).len() <= pbm_ascii_prefix(bits, width, n).len(),
        pbm_ascii_prefix(bits, width, n).subrange(0, pbm_ascii_prefix(bits, width, m).len() as int)
            == pbm_ascii_prefix(bits, width, m),
    decreases n - m,
{
    if m < n {
        lemma_pbm_prefix_mono(bits, width, m, (n - 1) as nat);
        let a = pbm_ascii_prefix(bits, width, m);
        let b = pbm_ascii_prefix(bits, width, (n - 1) as nat);
        let c = pbm_ascii_prefix(bits, width, n);
        assert(c.subrange(0, b.len() as int) =~= b);
        assert(c.subrange(0, a.len() as int) =~= b.subrange(0, a.len() as int));
    } else {
        assert(pbm_ascii_prefix(bits, width, n).subrange(0, pbm_ascii_prefix(bits, width, m).len() as int)
            =~= pbm_ascii_prefix(bits, width, m));
    }
}

/// The bits of tokens that are all digits of bits.
proof fn lemma_token_bits(bits: Seq<bool>, start: nat, j: nat, k: int)
    requires
        0 <= k <= j,
        start + j <= bits.len(),
    ensures
        token_bits(bit_words(bits, start, j), k) == Ok::<Seq<bool>, Seq<char>>(
            bits.subrange(start + k, (start + j) as int),
        ),
    decreases j - k,
{
    let ws = bit_words(bits, start, j);
    if k < j {
        lemma_token_bits(bits, start, j, k + 1);
        assert(bit_token(ws[k]) == Some(bits[start + k]));
        assert(bits.subrange(start + k, (start + j) as int) =~= seq![bits[start + k]] + bits.subrange(
            start + k + 1,
            (start + j) as int,
        ));
    } else {
        assert(bits.subrange(start + k, (start + j) as int) =~= Seq::<bool>::empty());
    }
}

/// A row line of an ASCII bitmap adds its bits.
proof fn lemma_pbm_line_step(
    b: Seq<u8>,
    pos: int,
    acc: Seq<bool>,
    width: nat,
    height: nat,
    bits: Seq<bool>,
    start: nat,
    j: nat,
)
    requires
        j >= 1,
        start + j <= bits.len(),
        holds_at(b, pos, ascii_bytes(bit_row(bits, start, j)) + seq![10u8]),
    ensures
        pbm_ascii_stage(b, pos, acc, width, height) == pbm_ascii_stage(
            b,
            pos + bit_row(bits, start, j).len() + 1,
            acc + bits.subrange(start as int, (start + j) as int),
            width,
            height,
        ),
{
    let t = bit_row(bits, start, j);
    let init = bit_words(bits, start, (j - 1) as nat);
    let last = seq![bit_char(bits[start + j - 1])];
    let ws = bit_words(bits, start, j);
    assert(ws.drop_last() =~= init);
    assert(ws.last() == last);
    let n = t.len() as int;
    let p = spaced(init).len() as int;
    lemma_bit_words(bits, start, (j - 1) as nat);
    lemma_bit_words(bits, start, j);
    lemma_spaced_ascii(init);
    assert forall|i: int| 0 <= i < n implies '\0' <= #[trigger] t[i] <= '\u{7f}' && t[i] != '\n' by {
        if i < p {
            assert(t[i] == spaced(init)[i]);
        }
    }
    assert(t.last() == bit_char(bits[start + j - 1]));
    let line = ascii_bytes(t) + seq![10u8];
    lemma_holds_at_sub(b, pos, line, 0, n);
    assert(line.subrange(0, n) =~= ascii_bytes(t));
    assert(b[pos + n] == b.subrange(pos, pos + line.len())[n]);
    lemma_ascii_line(b, pos, t);
    // trimming keeps the whole row
    if p > 0 {
        assert(t[0] == spaced(init)[0]);
        assert(init.len() > 0);
        lemma_spaced_nonempty_first(init);
    }
    assert(t[0] == '0' || t[0] == '1');
    assert(trim_lo(t, 0, n) == 0);
    assert(skip_ws_bwd(t, 0, n) == n);
    // tokens
    assert(t.subrange(0, p) =~= spaced(init));
    lemma_scan_spaced(t, 0, n, init, Seq::empty());
    assert(t[p] == bit_char(bits[start + j - 1]));
    lemma_scan_word(t, p, n, n, None, Seq::<(int, int)>::empty() + spaced_ranges(init, 0));
    lemma_spaced_ranges(t, 0, init);
    let rs = (Seq::<(int, int)>::empty() + spaced_ranges(init, 0)).push((p, n));
    assert(token_ranges(t, 0, n) == rs);
    assert(t.subrange(p, n) =~= last);
    assert(tokens(t, 0, n) =~= ws) by {
        assert forall|k: int| 0 <= k < ws.len() implies #[trigger] tokens(t, 0, n)[k] == ws[k] by {
            if k < init.len() {
                assert(rs[k] == spaced_ranges(init, 0)[k]);
                assert(ws[k] == init[k]);
            }
        }
    }
    lemma_token_bits(bits, start, j, 0);
}

/// The first character of spaced words is the first character of the first word.
proof fn lemma_spaced_nonempty_first(ws: Seq<Seq<char>>)
    requires
        ws.len() > 0,
        ws[0].len() > 0,
    ensures
        spaced(ws).len() > 0,
        spaced(ws)[0] == ws[0][0],
    decreases ws.len(),
{
    if ws.len() == 1 {
        assert(spaced(ws.drop_last()) =~= Seq::<char>::empty());
    } else {
        assert(ws.drop_last()[0] == ws[0]);
        lemma_spaced_nonempty_first(ws.drop_last());
    }
}

/// An empty line at `pos` is passed over.
proof fn lemma_pbm_empty_line(b: Seq<u8>, pos: int, acc: Seq<bool>, width: nat, height: nat)
    requires
        0 <= pos < b.len(),
        b[pos] == 10,
    ensures
        pbm_ascii_stage(b, pos, acc, width, height) == pbm_ascii_stage(b, pos + 1, acc, width, height),
{
    let e = Seq::<char>::empty();
    assert(ascii_bytes(e) =~= Seq::<u8>::empty());
    assert(b.subrange(pos, pos) =~= ascii_bytes(e));
    lemma_ascii_line(b, pos, e);
    assert(trim_lo(e, 0, 0) == 0);
    assert(trim_hi(e, 0, 0) == 0);
}

/// Where row `r` of an ASCII bitmap starts in the data section, which opens
/// with the empty line left of the header.
pub open spec fn pbm_row_pos(bits: Seq<bool>, width: nat, r: nat) -> int {
    1 + pbm_ascii_prefix(bits, width, r * width).len() + if r > 0 { 1int } else { 0 }
}

/// Reading the rows of an ASCII bitmap from row `r` on.
proof fn lemma_pbm_rows(bits: Seq<bool>, width: nat, height: nat, b: Seq<u8>, r: nat)
    requires
        width > 0,
        bits.len() == width * height,
        r < height,
        b == seq![10u8] + pbm_ascii_prefix(bits, width, width * height) + seq![10u8],
    ensures
        pbm_ascii_stage(b, pbm_row_pos(bits, width, r), bits.take((r * width) as int), width, height)
            == pbm_ascii_stage(b, b.len() as int, bits, width, height),
    decreases height - r,
{
    let base = r * width;
    assert((r + 1) * width == r * width + width) by (nonlinear_arith);
    assert((r + 1) * width <= width * height) by (nonlinear_arith)
        requires r + 1 <= height;
    let pr = pbm_ascii_prefix(bits, width, base);
    let pn = pbm_ascii_prefix(bits, width, base + width);
    let row = bit_row(bits, base, width);
    let sep: Seq<u8> = if r > 0 { seq![10u8] } else { Seq::empty() };
    lemma_pbm_row(bits, width, r, width);
    assert(pn == pr + sep + ascii_bytes(row));
    let total = pbm_ascii_prefix(bits, width, width * height);
    lemma_pbm_prefix_mono(bits, width, base + width, width * height);
    assert(b[(1 + pn.len()) as int] == 10) by {
        if r + 1 < height {
            assert((r + 2) * width == r * width + width + width) by (nonlinear_arith);
            assert((r + 2) * width <= width * height) by (nonlinear_arith)
                requires r + 2 <= height;
            lemma_pbm_row(bits, width, r + 1, 1);
            lemma_pbm_prefix_mono(bits, width, base + width + 1, width * height);
            let pn1 = pbm_ascii_prefix(bits, width, base + width + 1);
            assert(pn1[pn.len() as int] == 10);
            assert(total.subrange(0, pn1.len() as int)[pn.len() as int] == pn1[pn.len() as int]);
            assert(b[(1 + pn.len()) as int] == total[pn.len() as int]);
        } else {
            assert(width * height == (r + 1) * width) by (nonlinear_arith)
                requires r + 1 == height;
        }
    }
    let pos = pbm_row_pos(bits, width, r);
    assert(pos == 1 + pr.len() + sep.len());
    let line = ascii_bytes(row) + seq![10u8];
    assert(holds_at(b, pos, line)) by {
        assert forall|k: int| 0 <= k < line.len() implies b.subrange(pos, pos + line.len())[k] == line[k] by {
            if k < line.len() - 1 {
                assert(pn[pr.len() + sep.len() + k] == ascii_bytes(row)[k]);
                assert(b[pos + k] == total[pr.len() + sep.len() + k]);
                assert(total[pr.len() + sep.len() + k] == total.subrange(0, pn.len() as int)[pr.len() + sep.len() + k]);
            } else {
                assert(pos + k == 1 + pn.len());
            }
        }
        assert(b.subrange(pos, pos + line.len()) =~= line);
    }
    assert(base + width <= bits.len());
    lemma_pbm_line_step(b, pos, bits.take(base as int), width, height, bits, base, width);
    assert(bits.take(base as int) + bits.subrange(base as int, (base + width) as int) =~= bits.take(
        (base + width) as int,
    ));
    if r + 1 < height {
        assert(pbm_row_pos(bits, width, r + 1) == 1 + pn.len() + 1);
        lemma_pbm_rows(bits, width, height, b, r + 1);
    } else {
        assert(width * height == r * width + width) by (nonlinear_arith)
            requires r + 1 == height;
        assert(base + width == bits.len());
        assert(pn == total);
        assert(pos + row.len() + 1 == b.len());
        assert(bits.take(bits.len() as int) =~= bits);
    }
}

/// Reading the ASCII bitmap text of `bits`, after the empty line that the
/// header leaves, gives back `bits`.
pub proof fn lemma_pbm_ascii_view(bits: Seq<bool>, width: nat, height: nat)
    requires
        bits.len() == width * height,
    ensures
        pbm_ascii_stage(
            seq![10u8] + pbm_ascii_prefix(bits, width, bits.len()) + seq![10u8],
            0,
            Seq::empty(),
            width,
            height,
        ) == DataView::Bits(bits),
{
    let b = seq![10u8] + pbm_ascii_prefix(bits, width, bits.len()) + seq![10u8];
    lemma_pbm_empty_line(b, 0, Seq::empty(), width, height);
    if bits.len() == 0 {
        assert(b =~= seq![10u8, 10u8]);
        lemma_pbm_empty_line(b, 1, Seq::empty(), width, height);
        assert(bits =~= Seq::<bool>::empty());
    } else {
        assert(width > 0);
        assert(height > 0) by {
            if height == 0 {
                assert(width * height == 0) by (nonlinear_arith)
                    requires height == 0;
            }
        }
        assert(0 * width == 0);
        assert(pbm_ascii_prefix(bits, width, 0) =~= Seq::<u8>::empty());
        assert(pbm_row_pos(bits, width, 0) == 1);
        assert(bits.take(0) =~= Seq::<bool>::empty());
        lemma_pbm_rows(bits, width, height, b, 0);
    }
}

// ---------------------------------------------------------------------------
// Binary graymaps of 16-bit samples
// ---------------------------------------------------------------------------

/// The big-endian bytes of 16-bit samples read back as the samples.
proof fn lemma_be16_bytes(vals: Seq<u16>)
    ensures
        be16_bytes(vals).len() == 2 * vals.len(),
        be16_values(be16_bytes(vals), vals.len()) == vals,
    decreases vals.len(),
{
    if vals.len() > 0 {
        let init = vals.drop_last();
        let v = vals.last();
        lemma_be16_bytes(init);
        let a = be16_bytes(init);
        let b = be16_bytes(vals);
        assert(b == a + seq![(v / 256) as u8, (v % 256) as u8]);
        assert forall|k: int| 0 <= k < vals.len() implies #[trigger] be16_at(b, 2 * k) == vals[k] by {
            if k < init.len() {
                assert(b[2 * k] == a[2 * k]);
                assert(b[2 * k + 1] == a[2 * k + 1]);
                assert(be16_at(a, 2 * k) == be16_values(a, init.len())[k]);
                assert(init[k] == vals[k]);
            } else {
                assert(b[2 * k] == (v / 256) as u8);
                assert(b[2 * k + 1] == (v % 256) as u8);
                assert((v / 256) as nat * 256 + (v % 256) as nat == v);
            }
        }
        assert(be16_values(b, vals.len()) =~= vals);
    } else {
        assert(be16_values(be16_bytes(vals), 0) =~= vals);
    }
}

// ---------------------------------------------------------------------------
// ASCII pixmaps
// ---------------------------------------------------------------------------

/// The numerals of a color, separated by spaces.
pub open spec fn rgb_chars(c: [u16; 3]) -> Seq<char> {
    decimal(c[0] as nat) + seq![' '] + decimal(c[1] as nat) + seq![' '] + decimal(c[2] as nat)
}

/// The text of the first `j` colors of a row that starts at color `base`:
/// the colors' numerals separated by spaces.
pub open spec fn ppm_row(vals: Seq<[u16; 3]>, base: nat, j: nat) -> Seq<char>
    decreases j,
{
    if j <= 1 {
        rgb_chars(vals[base as int])
    } else {
        ppm_row(vals, base, (j - 1) as nat) + seq![' '] + rgb_chars(vals[base + j - 1])
    }
}

/// The numerals of the samples of colors `base..base + j`.
pub open spec fn rgb_words(vals: Seq<[u16; 3]>, base: nat, j: nat) -> Seq<Seq<char>> {
    Seq::new(3 * j, |k: int| decimal(vals[base + k / 3][k % 3] as nat))
}

/// The samples of the first `n` colors, flattened.
pub open spec fn flat_samples(vals: Seq<[u16; 3]>, n: nat) -> Seq<nat> {
    Seq::new(3 * n, |k: int| vals[k / 3][k % 3] as nat)
}

proof fn lemma_rgb_bytes(c: [u16; 3])
    ensures
        ascii_bytes(rgb_chars(c)) == super::encode::rgb_decimals(c),
{
    let d0 = decimal(c[0] as nat);
    let d1 = decimal(c[1] as nat);
    let d2 = decimal(c[2] as nat);
    assert(ascii_bytes(rgb_chars(c)) =~= ascii_bytes(d0) + seq![32u8] + ascii_bytes(d1) + seq![32u8]
        + ascii_bytes(d2));
}

/// A row of an ASCII pixmap: its colors separated by spaces, then a newline.
proof fn lemma_ppm_row(vals: Seq<[u16; 3]>, width: nat, r: nat, j: nat)
    requires
        width > 0,
        1 <= j <= width,
        r * width + j <= vals.len(),
    ensures
        super::encode::ppm_ascii_prefix(vals, width, r * width + j) == super::encode::ppm_ascii_prefix(
            vals,
            width,
            r * width,
        ) + ascii_bytes(ppm_row(vals, r * width, j)) + (if j == width {
            seq![10u8]
        } else {
            seq![32u8]
        }),
    decreases j,
{
    let base = r * width;
    let i = (base + j - 1) as nat;
    assert((i as int) % (width as int) == j - 1) by {
        vstd::arithmetic::div_mod::lemma_mod_multiples_vanish(r as int, (j - 1) as int, width as int);
        vstd::arithmetic::div_mod::lemma_small_mod((j - 1) as nat, width);
        assert(r * width + (j - 1) == width * r + (j - 1)) by (nonlinear_arith);
    }
    lemma_rgb_bytes(vals[i as int]);
    if j == 1 {
        assert(super::encode::ppm_ascii_prefix(vals, width, base + 1) =~= super::encode::ppm_ascii_prefix(
            vals,
            width,
            base,
        ) + ascii_bytes(ppm_row(vals, base, 1)) + (if j == width {
            seq![10u8]
        } else {
            seq![32u8]
        }));
    } else {
        lemma_ppm_row(vals, width, r, (j - 1) as nat);
        let prev = ppm_row(vals, base, (j - 1) as nat);
        lemma_ascii_bytes_concat(prev + seq![' '], rgb_chars(vals[i as int]));
        lemma_ascii_bytes_concat(prev, seq![' ']);
        assert(ascii_bytes(seq![' ']) =~= seq![32u8]);
        assert(super::encode::ppm_ascii_prefix(vals, width, base + j) =~= super::encode::ppm_ascii_prefix(
            vals,
            width,
            base,
        ) + ascii_bytes(ppm_row(vals, base, j)) + (if j == width {
            seq![10u8]
        } else {
            seq![32u8]
        }));
    }
}

/// A row's text is its numerals, spaced, without the last space.
proof fn lemma_ppm_row_spaced(vals: Seq<[u16; 3]>, base: nat, j: nat)
    requires
        j >= 1,
    ensures
        ppm_row(vals, base, j) == spaced(rgb_words(vals, base, j).drop_last()) + rgb_words(
            vals,
            base,
            j,
        ).last(),
    decreases j,
{
    let ws = rgb_words(vals, base, j);
    let c = vals[base + j - 1];
    let d0 = decimal(c[0] as nat);
    let d1 = decimal(c[1] as nat);
    let d2 = decimal(c[2] as nat);
    let n = 3 * j;
    assert(ws[n - 3] == d0);
    assert(ws[n - 2] == d1);
    assert(ws[n - 1] == d2);
    let i2 = ws.drop_last();
    let i1 = i2.drop_last();
    let i0 = i1.drop_last();
    assert(spaced(i2) == spaced(i1) + d1 + seq![' ']);
    assert(spaced(i1) == spaced(i0) + d0 + seq![' ']);
    if j == 1 {
        assert(i0 =~= Seq::<Seq<char>>::empty());
        assert(spaced(i2) + d2 =~= rgb_chars(c));
    } else {
        lemma_ppm_row_spaced(vals, base, (j - 1) as nat);
        let pw = rgb_words(vals, base, (j - 1) as nat);
        assert(i0 =~= pw);
        assert(spaced(pw) == spaced(pw.drop_last()) + pw.last() + seq![' ']);
        assert(spaced(i2) + d2 =~= ppm_row(vals, base, j));
    }
}

/// The tokens of words spaced but for the last, which ends the text, are the
/// words.
proof fn lemma_row_tokens(ws: Seq<Seq<char>>)
    requires
        ws.len() >= 1,
        forall|k: int| 0 <= k < ws.len() ==> is_word(#[trigger] ws[k]),
    ensures
        tokens(spaced(ws.drop_last()) + ws.last(), 0, (spaced(ws.drop_last()) + ws.last()).len() as int)
            == ws,
{
    let init = ws.drop_last();
    let last = ws.last();
    let t = spaced(init) + last;
    let n = t.len() as int;
    let p = spaced(init).len() as int;
    assert forall|k: int| 0 <= k < init.len() implies is_word(#[trigger] init[k]) by {
        assert(init[k] == ws[k]);
    }
    assert(is_word(ws[ws.len() - 1]));
    assert(t.subrange(0, p) =~= spaced(init));
    lemma_scan_spaced(t, 0, n, init, Seq::empty());
    assert forall|k: int| p <= k < n implies !is_ws(#[trigger] t[k]) by {
        assert(t[k] == last[k - p]);
    }
    lemma_scan_word(t, p, n, n, None, Seq::<(int, int)>::empty() + spaced_ranges(init, 0));
    lemma_spaced_ranges(t, 0, init);
    let rs = (Seq::<(int, int)>::empty() + spaced_ranges(init, 0)).push((p, n));
    assert(token_ranges(t, 0, n) == rs);
    assert(t.subrange(p, n) =~= last);
    assert(tokens(t, 0, n) =~= ws) by {
        assert forall|k: int| 0 <= k < ws.len() implies #[trigger] tokens(t, 0, n)[k] == ws[k] by {
            if k < init.len() {
                assert(rs[k] == spaced_ranges(init, 0)[k]);
                assert(ws[k] == init[k]);
            }
        }
    }
}

/// The line of row `r` of an ASCII pixmap adds the row's samples.
proof fn lemma_ppm_line_step(b: Seq<u8>, pos: int, acc: Seq<nat>, max: nat, vals: Seq<[u16; 3]>, base: nat, width: nat)
    requires
        width >= 1,
        base + width <= vals.len(),
        holds_at(b, pos, ascii_bytes(ppm_row(vals, base, width)) + seq![10u8]),
        forall|i: int, c: int| 0 <= i < vals.len() && 0 <= c < 3 ==> #[trigger] vals[i][c] <= max,
    ensures
        samples_stage(b, pos, acc, max) == samples_stage(
            b,
            pos + ppm_row(vals, base, width).len() + 1,
            acc + Seq::new(3 * width, |k: int| vals[base + k / 3][k % 3] as nat),
            max,
        ),
{
    let ws = rgb_words(vals, base, width);
    let t = ppm_row(vals, base, width);
    lemma_ppm_row_spaced(vals, base, width);
    assert forall|k: int| 0 <= k < ws.len() implies is_word(#[trigger] ws[k]) && (forall|i: int|
        0 <= i < ws[k].len() ==> is_digit(ws[k][i])) && parses_unsigned(ws[k], max) && unsigned_value(ws[k])
        == vals[base + k / 3][k % 3] as nat by {
        lemma_decimal(vals[base + k / 3][k % 3] as nat);
        lemma_decimal_parses(vals[base + k / 3][k % 3] as nat, max);
        assert forall|i: int| 0 <= i < ws[k].len() implies !is_ws(#[trigger] ws[k][i]) by {
            assert(is_digit(ws[k][i]));
        }
    }
    lemma_row_tokens(ws);
    let init = ws.drop_last();
    assert forall|k: int, i: int| 0 <= k < init.len() && 0 <= i < init[k].len() implies is_digit(#[trigger] init[k][i]) by {
        assert(init[k] == ws[k]);
    }
    lemma_spaced_digits(init);
    let si = spaced(init);
    assert forall|i: int| 0 <= i < t.len() implies is_digit(#[trigger] t[i]) || t[i] == ' ' by {
        if i >= si.len() {
            assert(t[i] == ws.last()[i - si.len()]);
            assert(ws.last() == ws[ws.len() - 1]);
        } else {
            assert(t[i] == si[i]);
        }
    }
    lemma_samples_line(b, pos, acc, max, t, ws);
    assert(ws.map_values(|w: Seq<char>| unsigned_value(w)) =~= Seq::new(
        3 * width,
        |k: int| vals[base + k / 3][k % 3] as nat,
    ));
}

/// Earlier prefixes of the ASCII pixmap text are prefixes of later ones.
proof fn lemma_ppm_prefix_mono(vals: Seq<[u16; 3]>, width: nat, m: nat, n: nat)
    requires
        m <= n <= vals.len(),
    ensures
        super::encode::ppm_ascii_prefix(vals, width, m).len() <= super::encode::ppm_ascii_prefix(vals, width, n).len(),
        super::encode::ppm_ascii_prefix(vals, width, n).subrange(
            0,
            super::encode::ppm_ascii_prefix(vals, width, m).len() as int,
        ) == super::encode::ppm_ascii_prefix(vals, width, m),
    decreases n - m,
{
    if m < n {
        lemma_ppm_prefix_mono(vals, width, m, (n - 1) as nat);
        let a = super::encode::ppm_ascii_prefix(vals, width, m);
        let b = super::encode::ppm_ascii_prefix(vals, width, (n - 1) as nat);
        let c = super::encode::ppm_ascii_prefix(vals, width, n);
        assert(c.subrange(0, b.len() as int) =~= b);
        assert(c.subrange(0, a.len() as int) =~= b.subrange(0, a.len() as int));
    } else {
        assert(super::encode::ppm_ascii_prefix(vals, width, n).subrange(
            0,
            super::encode::ppm_ascii_prefix(vals, width, m).len() as int,
        ) =~= super::encode::ppm_ascii_prefix(vals, width, m));
    }
}

/// Reading the rows of an ASCII pixmap from row `r` on.
proof fn lemma_ppm_rows(vals: Seq<[u16; 3]>, width: nat, height: nat, b: Seq<u8>, r: nat, max: nat)
    requires
        width > 0,
        vals.len() == width * height,
        r <= height,
        b == super::encode::ppm_ascii_prefix(vals, width, width * height),
        forall|i: int, c: int| 0 <= i < vals.len() && 0 <= c < 3 ==> #[trigger] vals[i][c] <= max,
    ensures
        samples_stage(
            b,
            super::encode::ppm_ascii_prefix(vals, width, r * width).len() as int,
            flat_samples(vals, r * width),
            max,
        ) == samples_stage(b, b.len() as int, flat_samples(vals, width * height), max),
    decreases height - r,
{
    if r < height {
        let base = r * width;
        assert((r + 1) * width == r * width + width) by (nonlinear_arith);
        assert((r + 1) * width <= width * height) by (nonlinear_arith)
            requires r + 1 <= height;
        let pr = super::encode::ppm_ascii_prefix(vals, width, base);
        let pn = super::encode::ppm_ascii_prefix(vals, width, base + width);
        let row = ppm_row(vals, base, width);
        lemma_ppm_row(vals, width, r, width);
        assert(pn == pr + ascii_bytes(row) + seq![10u8]);
        lemma_ppm_prefix_mono(vals, width, base + width, width * height);
        let line = ascii_bytes(row) + seq![10u8];
        let pos = pr.len() as int;
        assert(holds_at(b, pos, line)) by {
            assert forall|k: int| 0 <= k < line.len() implies b.subrange(pos, pos + line.len())[k] == line[k] by {
                assert(pn[pos + k] == line[k]);
                assert(b[pos + k] == b.subrange(0, pn.len() as int)[pos + k]);
            }
            assert(b.subrange(pos, pos + line.len()) =~= line);
        }
        let acc = flat_samples(vals, base);
        lemma_ppm_line_step(b, pos, acc, max, vals, base, width);
        assert(acc + Seq::new(3 * width, |k: int| vals[base + k / 3][k % 3] as nat) =~= flat_samples(
            vals,
            base + width,
        ));
        assert(pos + row.len() + 1 == pn.len());
        lemma_ppm_rows(vals, width, height, b, r + 1, max);
    } else {
        assert(r * width == width * height) by (nonlinear_arith)
            requires r == height;
    }
}

/// Reading the ASCII pixmap text of `vals` gives back `vals`.
pub proof fn lemma_ppm_ascii_view(vals: Seq<[u16; 3]>, width: nat, height: nat, max: nat)
    requires
        width > 0,
        vals.len() == width * height,
        forall|i: int, c: int| 0 <= i < vals.len() && 0 <= c < 3 ==> #[trigger] vals[i][c] <= max,
    ensures
        samples_stage(super::encode::ppm_ascii_prefix(vals, width, vals.len()), 0, Seq::empty(), max)
            == SamplesView::Samples(flat_samples(vals, vals.len())),
        sample_colors(flat_samples(vals, vals.len()), vals.len()) == vals,
{
    let b = super::encode::ppm_ascii_prefix(vals, width, vals.len());
    assert(0 * width == 0);
    assert(super::encode::ppm_ascii_prefix(vals, width, 0) =~= Seq::<u8>::empty());
    assert(flat_samples(vals, 0) =~= Seq::<nat>::empty());
    lemma_ppm_rows(vals, width, height, b, 0, max);
    let f = flat_samples(vals, vals.len());
    assert forall|i: int| 0 <= i < vals.len() implies #[trigger] sample_colors(f, vals.len())[i] == vals[i] by {
        assert(f[3 * i] == vals[i][0] as nat);
        assert(f[3 * i + 1] == vals[i][1] as nat);
        assert(f[3 * i + 2] == vals[i][2] as nat);
        assert(sample_colors(f, vals.len())[i] =~= vals[i]);
    }
    assert(sample_colors(f, vals.len()) =~= vals);
}

// ---------------------------------------------------------------------------
// The law
// ---------------------------------------------------------------------------

/// Whether two graymap storages hold the same samples at the same width.
pub open spec fn same_gray(a: GrayData, b: GrayData) -> bool {
    match (a, b) {
        (GrayData::U8(x), GrayData::U8(y)) => x@ == y@,
        (GrayData::U16(x), GrayData::U16(y)) => x@ == y@,
        _ => false,
    }
}

/// Whether two pixmap storages hold the same colors at the same width.
pub open spec fn same_rgb(a: RgbData, b: RgbData) -> bool {
    match (a, b) {
        (RgbData::U8(x), RgbData::U8(y)) => x@ == y@,
        (RgbData::U16(x), RgbData::U16(y)) => x@ == y@,
        _ => false,
    }
}

/// Whether two images are the same: kind, size, comments, sample maximum
/// and pixels in the same storage.
pub open spec fn same_image(p: Pnm, q: Pnm) -> bool {
    &&& q.spec_kind() == p.spec_kind()
    &&& q.spec_width() == p.spec_width()
    &&& q.spec_height() == p.spec_height()
    &&& comment_views(q.spec_comments()) == comment_views(p.spec_comments())
    &&& match (p.spec_max_val(), q.spec_max_val()) {
        (None, None) => true,
        (Some(a), Some(b)) => a@ == b@,
        _ => false,
    }
    &&& match (p, q) {
        (Pnm::AsciiPbm(a), Pnm::AsciiPbm(b)) => a.data@ == b.data@,
        (Pnm::BinaryPbm(a), Pnm::BinaryPbm(b)) => a.data@ == b.data@,
        (Pnm::AsciiPgm(a), Pnm::AsciiPgm(b)) => same_gray(a.data, b.data),
        (Pnm::BinaryPgm(a), Pnm::BinaryPgm(b)) => same_gray(a.data, b.data),
        (Pnm::AsciiPpm(a), Pnm::AsciiPpm(b)) => same_rgb(a.data, b.data),
        (Pnm::BinaryPpm(a), Pnm::BinaryPpm(b)) => same_rgb(a.data, b.data),
        _ => false,
    }
}

/// The images that read back as written: ASCII bitmaps, graymaps and
/// pixmaps; binary graymaps; and binary pixmaps of 8-bit samples under a
/// maximum up to 255 (16-bit binary pixmaps are written in the machine's byte
/// order and read big-endian). With one pixel per point, comments without
/// newlines or white space at their ends, 8-bit storage exactly when the
/// maximum is up to 255, a nonzero maximum, and rows for pixmaps.
pub open spec fn reads_back(p: Pnm) -> bool {
    &&& forall|k: int| 0 <= k < p.spec_comments().len() ==> comment_clean(#[trigger] p.spec_comments()[k]@)
    &&& p.spec_pixels().len() == p.spec_width() * p.spec_height()
    &&& p.spec_max_val() matches Some(m) ==> m@ != 0
    &&& match p {
        Pnm::AsciiPbm(_) => true,
        Pnm::AsciiPgm(b) => (b.max_val@ > 255) == (b.data is U16),
        Pnm::AsciiPpm(b) => (b.max_val@ > 255) == (b.data is U16),
        Pnm::BinaryPgm(b) => (b.max_val@ > 255) == (b.data is U16),
        Pnm::BinaryPpm(b) => b.max_val@ <= 255 && b.data is U8,
        _ => false,
    }
}

/// The data view of an image's own pixels, in their storage.
pub open spec fn own_view(p: Pnm) -> DataView {
    match p {
        Pnm::AsciiPbm(b) => DataView::Bits(b.data@),
        Pnm::BinaryPbm(b) => DataView::Bits(b.data@),
        Pnm::AsciiPgm(b) => gray_view(b.data),
        Pnm::BinaryPgm(b) => gray_view(b.data),
        Pnm::AsciiPpm(b) => rgb_view(b.data),
        Pnm::BinaryPpm(b) => rgb_view(b.data),
    }
}

/// The data view of a graymap storage.
pub open spec fn gray_view(d: GrayData) -> DataView {
    match d {
        GrayData::U8(v) => DataView::Gray8(v@),
        GrayData::U16(v) => DataView::Gray16(v@),
    }
}

/// The data view of a pixmap storage.
pub open spec fn rgb_view(d: RgbData) -> DataView {
    match d {
        RgbData::U8(v) => DataView::Rgb8(v@),
        RgbData::U16(v) => DataView::Rgb16(v@),
    }
}

/// The sample maximum of an image as the header holds it.
pub open spec fn max_of(p: Pnm) -> Option<u16> {
    match p.spec_max_val() {
        Some(m) => Some(m@),
        None => None,
    }
}

/// What writing an image leaves for its header to hold.
proof fn lemma_header_of(p: Pnm)
    ensures
        p.header() == header_bytes(
            p.spec_kind(),
            p.spec_comments(),
            p.spec_width() as nat,
            p.spec_height() as nat,
            max_text(max_of(p)),
        ),
        max_of(p) is None <==> p.spec_kind().spec_is_pbm(),
{
    lemma_kind_consts();
    p.lemma_header();
    match p.spec_max_val() {
        Some(m) => {
            assert(p.max_val_text() == m.header_text());
        },
        None => {},
    }
}

/// The data section of AsciiPbm reads back as its pixels.
proof fn lemma_data_view_ascii_pbm(p: Pnm, data: Seq<u8>)
    requires
        p.writable(),
        reads_back(p),
        p.data_encodes(data),
        p is AsciiPbm,
    ensures
        super::image::data_view(
            p.spec_kind(),
            if p.spec_kind().spec_is_pbm() { seq![10u8] + data } else { data },
            max_of(p),
            p.spec_width() as nat,
            p.spec_height() as nat,
        ) == own_view(p),
{
    lemma_kind_consts();
    let w = p.spec_width() as nat;
    let ht = p.spec_height() as nat;
    let b = p->AsciiPbm_0;
    let bits = b.data@;
    lemma_pbm_ascii_view(bits, w, ht);
    assert(seq![10u8] + data =~= seq![10u8] + pbm_ascii_prefix(bits, w, bits.len()) + seq![10u8]);
}

/// The data section of AsciiPgm reads back as its pixels.
proof fn lemma_data_view_ascii_pgm(p: Pnm, data: Seq<u8>)
    requires
        p.writable(),
        reads_back(p),
        p.data_encodes(data),
        p is AsciiPgm,
    ensures
        super::image::data_view(
            p.spec_kind(),
            if p.spec_kind().spec_is_pbm() { seq![10u8] + data } else { data },
            max_of(p),
            p.spec_width() as nat,
            p.spec_height() as nat,
        ) == own_view(p),
{
    lemma_kind_consts();
    let w = p.spec_width() as nat;
    let ht = p.spec_height() as nat;
    let b = p->AsciiPgm_0;
    let vals = b.data.pixel_seq();
    let wide = b.max_val@ > 255;
    assert forall|i: int| 0 <= i < vals.len() implies #[trigger] vals[i] <= sample_max(wide) by {
        match b.data {
            GrayData::U8(v) => {
                assert(vals[i] == v@[i] as u16);
            },
            GrayData::U16(_) => {},
        }
    }
    lemma_pgm_ascii_view(vals, w, ht, wide);
    match b.data {
        GrayData::U8(v) => {
            assert(vals.map_values(|x: u16| x as u8) =~= v@);
        },
        GrayData::U16(v) => {},
    }
}

/// The widened colors of 8-bit storage are at most 255 and narrow back to
/// the stored colors.
proof fn lemma_widen_rgb(d: RgbData)
    requires
        d is U8,
    ensures
        forall|i: int, c: int| 0 <= i < d.pixel_seq().len() && 0 <= c < 3 ==> #[trigger] d.pixel_seq()[i][c] <= 255,
        d.pixel_seq().map_values(|c: [u16; 3]| [c[0] as u8, c[1] as u8, c[2] as u8]) == d->U8_0@,
{
    let v = d->U8_0@;
    let w = d.pixel_seq();
    let n = w.map_values(|c: [u16; 3]| [c[0] as u8, c[1] as u8, c[2] as u8]);
    assert forall|i: int| 0 <= i < v.len() implies #[trigger] n[i] == v[i] by {
        assert(w[i] == super::data::widen_rgb(v[i]));
        assert(n[i] =~= v[i]);
    }
    assert(n =~= v);
    assert forall|i: int, c: int| 0 <= i < w.len() && 0 <= c < 3 implies #[trigger] w[i][c] <= 255 by {
        assert(w[i] == super::data::widen_rgb(v[i]));
    }
}

/// The data section of an ASCII pixmap reads back as its pixels.
#[verifier::rlimit(30)]
proof fn lemma_data_view_ascii_ppm(p: Pnm, data: Seq<u8>)
    requires
        p.writable(),
        reads_back(p),
        p.data_encodes(data),
        p is AsciiPpm,
    ensures
        super::image::data_view(
            p.spec_kind(),
            if p.spec_kind().spec_is_pbm() { seq![10u8] + data } else { data },
            max_of(p),
            p.spec_width() as nat,
            p.spec_height() as nat,
        ) == own_view(p),
{
    lemma_kind_consts();
    let w = p.spec_width() as nat;
    let ht = p.spec_height() as nat;
    let b = p->AsciiPpm_0;
    let vals = b.data.pixel_seq();
    let wide = b.max_val@ > 255;
    let max = sample_max(wide);
    assert(data == super::encode::ppm_ascii_prefix(vals, w, vals.len()));
    if b.data is U8 {
        lemma_widen_rgb(b.data);
    }
    lemma_ppm_ascii_view(vals, w, ht, max);
    let f = flat_samples(vals, vals.len());
    assert(f.len() == 3 * (w * ht));
}

/// The data section of BinaryPgm reads back as its pixels.
proof fn lemma_data_view_binary_pgm(p: Pnm, data: Seq<u8>)
    requires
        p.writable(),
        reads_back(p),
        p.data_encodes(data),
        p is BinaryPgm,
    ensures
        super::image::data_view(
            p.spec_kind(),
            if p.spec_kind().spec_is_pbm() { seq![10u8] + data } else { data },
            max_of(p),
            p.spec_width() as nat,
            p.spec_height() as nat,
        ) == own_view(p),
{
    lemma_kind_consts();
    let w = p.spec_width() as nat;
    let ht = p.spec_height() as nat;
    let b = p->BinaryPgm_0;
    match b.data {
        GrayData::U8(v) => {
            assert(data == v@);
            assert(v@.len() == b.data.pixel_seq().len());
        },
        GrayData::U16(v) => {
            assert(data == be16_bytes(v@));
            lemma_be16_bytes(v@);
            assert(v@.len() == b.data.pixel_seq().len());
            assert(data.len() / 2 == v@.len());
        },
    }
}

/// The data section of BinaryPpm reads back as its pixels.
proof fn lemma_data_view_binary_ppm(p: Pnm, data: Seq<u8>)
    requires
        p.writable(),
        reads_back(p),
        p.data_encodes(data),
        p is BinaryPpm,
    ensures
        super::image::data_view(
            p.spec_kind(),
            if p.spec_kind().spec_is_pbm() { seq![10u8] + data } else { data },
            max_of(p),
            p.spec_width() as nat,
            p.spec_height() as nat,
        ) == own_view(p),
{
    lemma_kind_consts();
    let w = p.spec_width() as nat;
    let ht = p.spec_height() as nat;
    let b = p->BinaryPpm_0;
    match b.data {
        RgbData::U8(v) => {
            let n = w * ht;
            assert(v@.len() == b.data.pixel_seq().len());
            assert(crate::bindings::rgb8_bytes_spec(v@, data));
            assert forall|i: int| 0 <= i < n implies #[trigger] v@[i] == rgb8_colors(data, n)[i] by {
                assert(data[3 * i + 0] == v@[i][0]);
                assert(data[3 * i + 1] == v@[i][1]);
                assert(data[3 * i + 2] == v@[i][2]);
                assert(v@[i] =~= [data[3 * i], data[3 * i + 1], data[3 * i + 2]]);
            }
            assert(rgb8_colors(data, n) =~= v@);
        },
        RgbData::U16(_) => {},
    }
}

/// The data section that writing wrote reads back as the image's pixels.
proof fn lemma_data_view(p: Pnm, data: Seq<u8>)
    requires
        p.writable(),
        reads_back(p),
        p.data_encodes(data),
    ensures
        super::image::data_view(
            p.spec_kind(),
            if p.spec_kind().spec_is_pbm() { seq![10u8] + data } else { data },
            max_of(p),
            p.spec_width() as nat,
            p.spec_height() as nat,
        ) == own_view(p),
{
    match p {
        Pnm::AsciiPbm(_) => lemma_data_view_ascii_pbm(p, data),
        Pnm::AsciiPgm(_) => lemma_data_view_ascii_pgm(p, data),
        Pnm::AsciiPpm(_) => lemma_data_view_ascii_ppm(p, data),
        Pnm::BinaryPgm(_) => lemma_data_view_binary_pgm(p, data),
        Pnm::BinaryPpm(_) => lemma_data_view_binary_ppm(p, data),
        _ => {},
    }
}

/// Reading what writing wrote gives back the image, for the images that
/// `reads_back` describes.
pub proof fn law_read_after_write(p: Pnm, out: Seq<u8>, r: super::error::PnmResult<Pnm>)
    requires
        p.writable(),
        reads_back(p),
        p.encodes(out),
        out.len() <= usize::MAX,
        Pnm::read_spec(out, r),
    ensures
        r matches Ok(q) && same_image(p, q),
{
    lemma_kind_consts();
    lemma_header_of(p);
    let h = p.header();
    let kind = p.spec_kind();
    let w = p.spec_width();
    let ht = p.spec_height();
    let max = max_of(p);
    let cs = p.spec_comments();
    p.lemma_encodes(out);
    assert(out.take(h.len() as int) == h);
    assert(holds_at(out, 0, h)) by {
        assert(out.subrange(0, h.len() as int) =~= out.take(h.len() as int));
    }
    lemma_header_view(out, kind, cs, w, ht, max);
    let end: int = h.len() - if max is None { 1int } else { 0 };
    let rest = out.skip(end);
    let data = out.skip(h.len() as int);
    assert((end as usize) as int == end);
    if max is None {
        assert(h.last() == 10);
        assert(rest =~= seq![10u8] + data);
    } else {
        assert(rest == data);
    }
    lemma_data_view(p, data);
}

} // verus!
