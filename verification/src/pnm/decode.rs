//! Reading PNM input: its lines as `BufRead::lines` splits them, the header,
//! and the data section of each kind.

use vstd::prelude::*;
use vstd::string::{StrSliceExecFns, StringExecFns};
use vstd::utf8::{decode_utf8, valid_utf8};
use crate::bindings::{
    invalid_utf8_error, parse_nonzero_u16, parse_usize, str_from_utf8,
};
use crate::text::{
    chars_of, parses_unsigned, split_ws, tokens, token_ranges, trim_bounds, trim_hi, trim_lo,
    unsigned_value, lemma_trim_bounds,
};
use super::error::{EofAt, PnmError, PnmResult};
use super::kind::PnmKind;
use super::maxval::MaxValue;
use super::bits::{max_bits, BitData};
use super::data::{GrayData, RgbData};
use super::encode::bit_weight;

verus! {

broadcast use vstd::string::group_string_axioms;

/// The index of the first newline at or after `pos`, or the end of `b`.
pub open spec fn newline_at(b: Seq<u8>, pos: int) -> int
    decreases b.len() - pos,
{
    if pos >= b.len() {
        b.len() as int
    } else if b[pos] == 10 {
        pos
    } else {
        newline_at(b, pos + 1)
    }
}

/// Where the line that starts at `pos` ends, its newline included.
pub open spec fn line_end(b: Seq<u8>, pos: int) -> int {
    let n = newline_at(b, pos);
    if n < b.len() {
        n + 1
    } else {
        b.len() as int
    }
}

/// The bytes of the line that starts at `pos`, without its newline and
/// without a carriage return before that newline.
pub open spec fn line_bytes(b: Seq<u8>, pos: int) -> Seq<u8> {
    let n = newline_at(b, pos);
    let raw = b.subrange(pos, n);
    if n < b.len() && raw.len() > 0 && raw.last() == 13 {
        raw.drop_last()
    } else {
        raw
    }
}

/// The characters of the line that starts at `pos`.
pub open spec fn line_chars(b: Seq<u8>, pos: int) -> Seq<char> {
    decode_utf8(line_bytes(b, pos))
}

pub proof fn lemma_newline_at(b: Seq<u8>, pos: int)
    requires
        0 <= pos <= b.len(),
    ensures
        pos <= newline_at(b, pos) <= b.len(),
        newline_at(b, pos) < b.len() ==> b[newline_at(b, pos)] == 10,
        forall|k: int| pos <= k < newline_at(b, pos) ==> b[k] != 10,
    decreases b.len() - pos,
{
    if pos < b.len() && b[pos] != 10 {
        lemma_newline_at(b, pos + 1);
    }
}

pub proof fn lemma_line_end(b: Seq<u8>, pos: int)
    requires
        0 <= pos < b.len(),
    ensures
        pos < line_end(b, pos) <= b.len(),
{
    lemma_newline_at(b, pos);
}

/// Reads the line that starts at `pos`: `None` at the end of the input;
/// otherwise where the line ends, and its text with its characters, or
/// `None` for a line that is not valid UTF-8.
pub fn next_line<'a>(input: &'a [u8], pos: usize) -> (r: Option<(Option<(&'a str, Vec<char>)>, usize)>)
    requires
        pos <= input@.len(),
    ensures
        r is None <==> pos == input@.len(),
        r matches Some((l, e)) ==> {
            &&& e == line_end(input@, pos as int)
            &&& l is Some <==> valid_utf8(line_bytes(input@, pos as int))
            &&& l matches Some((s, cs)) ==> s@ == line_chars(input@, pos as int) && cs@ == s@
                && cs@.len() <= e - pos
            &&& pos < e <= input@.len()
        },
{
    if pos == input.len() {
        return None;
    }
    let mut n = pos;
    while n < input.len() && input[n] != 10u8
        invariant
            pos <= n <= input@.len(),
            newline_at(input@, n as int) == newline_at(input@, pos as int),
        decreases input@.len() - n,
    {
        n = n + 1;
    }
    let end = if n < input.len() { n + 1 } else { n };
    let content_end = if n < input.len() && n > pos && input[n - 1] == 13u8 { n - 1 } else { n };
    let bytes = &input[pos..content_end];
    assert(bytes@ =~= line_bytes(input@, pos as int));
    match str_from_utf8(bytes) {
        Some(s) => {
            proof {
                vstd::utf8::encode_utf8_decode_utf8(s@);
                crate::text::lemma_encode_len(s@);
            }
            let cs = chars_of(s);
            Some((Some((s, cs)), end))
        },
        None => Some((None, end)),
    }
}

/// The header fields read from the input.
pub struct HeaderFields {
    pub kind: PnmKind,
    pub width: usize,
    pub height: usize,
    pub max_val: Option<u16>,
    pub comments: Seq<Seq<char>>,
    pub end: usize,
}

/// What reading the header gives.
pub enum HeaderView {
    /// A line that is not valid UTF-8 (an I/O error).
    BadUtf8,
    /// The input ended before the field.
    Eof(EofAt),
    /// The magic line, trimmed, is no kind.
    UnknownKind(Seq<char>),
    /// The size line, trimmed, is not two numbers.
    InvalidSize(Seq<char>),
    Parsed(HeaderFields),
}

/// The text of a comment line `t` whose trimmed content `t[lo..hi]` starts
/// with `#`: the rest, trimmed.
pub open spec fn comment_text(t: Seq<char>, lo: int, hi: int) -> Seq<char> {
    t.subrange(trim_lo(t, lo + 1, hi), trim_hi(t, lo + 1, hi))
}

/// Reading the magic line from `pos`, with comments `cs` found so far.
pub open spec fn kind_stage(b: Seq<u8>, pos: int, cs: Seq<Seq<char>>) -> HeaderView
    decreases b.len() - pos, 2int,
{
    if pos < 0 || pos >= b.len() {
        HeaderView::Eof(EofAt::Kind)
    } else if !valid_utf8(line_bytes(b, pos)) {
        HeaderView::BadUtf8
    } else {
        let t = line_chars(b, pos);
        let lo = trim_lo(t, 0, t.len() as int);
        let hi = trim_hi(t, 0, t.len() as int);
        let next = line_end(b, pos);
        proof {
            lemma_line_end(b, pos);
        }
        if lo == hi {
            kind_stage(b, next, cs)
        } else if t[lo] == '#' {
            kind_stage(b, next, cs.push(comment_text(t, lo, hi)))
        } else {
            match PnmKind::from_name_spec(t.subrange(lo, hi)) {
                None => HeaderView::UnknownKind(t.subrange(lo, hi)),
                Some(k) => size_stage(b, next, k, cs),
            }
        }
    }
}

/// Reading the size line from `pos`.
pub open spec fn size_stage(b: Seq<u8>, pos: int, kind: PnmKind, cs: Seq<Seq<char>>) -> HeaderView
    decreases b.len() - pos, 1int,
{
    if pos < 0 || pos >= b.len() {
        HeaderView::Eof(EofAt::Size)
    } else if !valid_utf8(line_bytes(b, pos)) {
        HeaderView::BadUtf8
    } else {
        let t = line_chars(b, pos);
        let lo = trim_lo(t, 0, t.len() as int);
        let hi = trim_hi(t, 0, t.len() as int);
        let next = line_end(b, pos);
        proof {
            lemma_line_end(b, pos);
        }
        if lo == hi {
            size_stage(b, next, kind, cs)
        } else if t[lo] == '#' {
            size_stage(b, next, kind, cs.push(comment_text(t, lo, hi)))
        } else {
            let toks = tokens(t, lo, hi);
            if toks.len() == 2 && parses_unsigned(toks[0], usize::MAX as nat) && parses_unsigned(
                toks[1],
                usize::MAX as nat,
            ) {
                let width = unsigned_value(toks[0]) as usize;
                let height = unsigned_value(toks[1]) as usize;
                if kind.spec_is_pbm() {
                    HeaderView::Parsed(
                        HeaderFields {
                            kind,
                            width,
                            height,
                            max_val: None,
                            comments: cs,
                            end: next as usize,
                        },
                    )
                } else {
                    maxval_stage(b, next, kind, width, height, cs)
                }
            } else {
                HeaderView::InvalidSize(t.subrange(lo, hi))
            }
        }
    }
}

/// Reading the sample-maximum line from `pos`; lines that are no number
/// from 1 to 65535 are passed over.
pub open spec fn maxval_stage(
    b: Seq<u8>,
    pos: int,
    kind: PnmKind,
    width: usize,
    height: usize,
    cs: Seq<Seq<char>>,
) -> HeaderView
    decreases b.len() - pos, 0int,
{
    if pos < 0 || pos >= b.len() {
        HeaderView::Eof(EofAt::MaxVal)
    } else if !valid_utf8(line_bytes(b, pos)) {
        HeaderView::BadUtf8
    } else {
        let t = line_chars(b, pos);
        let lo = trim_lo(t, 0, t.len() as int);
        let hi = trim_hi(t, 0, t.len() as int);
        let next = line_end(b, pos);
        proof {
            lemma_line_end(b, pos);
        }
        if lo == hi {
            maxval_stage(b, next, kind, width, height, cs)
        } else if t[lo] == '#' {
            maxval_stage(b, next, kind, width, height, cs.push(comment_text(t, lo, hi)))
        } else if parses_unsigned(t.subrange(lo, hi), 65535) && unsigned_value(t.subrange(lo, hi))
            != 0 {
            HeaderView::Parsed(
                HeaderFields {
                    kind,
                    width,
                    height,
                    max_val: Some(unsigned_value(t.subrange(lo, hi)) as u16),
                    comments: cs,
                    end: next as usize,
                },
            )
        } else {
            maxval_stage(b, next, kind, width, height, cs)
        }
    }
}

/// What reading the header of `b` gives.
pub open spec fn header_view(b: Seq<u8>) -> HeaderView {
    kind_stage(b, 0, Seq::empty())
}

} // verus!

verus! {

/// The header of a PNM input, as read.
pub struct PnmHeader {
    pub kind: PnmKind,
    pub width: usize,
    pub height: usize,
    pub max_val: Option<MaxValue>,
    pub comments: Vec<String>,
    /// Where the data section starts.
    pub end: usize,
}

/// The texts of `comments`.
pub open spec fn comment_views(comments: Seq<String>) -> Seq<Seq<char>> {
    comments.map_values(|c: String| c@)
}

/// The error that reading gives for a header view other than `Parsed`.
pub open spec fn header_error_matches(view: HeaderView, e: PnmError) -> bool {
    match view {
        HeaderView::BadUtf8 => e is Io,
        HeaderView::Eof(at) => e matches PnmError::UnexpectedEof(a) && a == at,
        HeaderView::UnknownKind(s) => e matches PnmError::UnknownKind(m) && m@ == s,
        HeaderView::InvalidSize(s) => e matches PnmError::InvalidHeader(m) && m@ == "invalid size: "@ + s,
        HeaderView::Parsed(_) => false,
    }
}

/// Whether `h` holds the fields `f`.
pub open spec fn header_fields_match(f: HeaderFields, h: PnmHeader) -> bool {
    &&& h.kind == f.kind
    &&& h.width == f.width
    &&& h.height == f.height
    &&& match f.max_val {
        None => h.max_val is None,
        Some(v) => h.max_val matches Some(m) && m@ == v,
    }
    &&& comment_views(h.comments@) == f.comments
    &&& h.end == f.end
}

/// Whether `r` is what reading a header whose view is `view` gives.
pub open spec fn header_matches(view: HeaderView, r: PnmResult<PnmHeader>) -> bool {
    match view {
        HeaderView::Parsed(f) => r matches Ok(h) && header_fields_match(f, h),
        _ => r matches Err(e) && header_error_matches(view, e),
    }
}

proof fn lemma_push_comment(comments: Seq<String>, c: String)
    ensures
        comment_views(comments.push(c)) == comment_views(comments).push(c@),
{
    assert(comment_views(comments.push(c)) =~= comment_views(comments).push(c@));
}

/// Reads the header of a PNM input: the magic line, the size line and, but
/// for bitmaps, the sample-maximum line, with the comment lines among them.
pub fn read_header(input: &[u8]) -> (r: PnmResult<PnmHeader>)
    ensures
        header_matches(header_view(input@), r),
        r matches Ok(h) ==> h.end <= input@.len() && (h.max_val is None <==> h.kind.spec_is_pbm()),
{
    let ghost b = input@;
    let mut pos: usize = 0;
    let mut comments: Vec<String> = Vec::new();
    assert(comment_views(comments@) =~= Seq::<Seq<char>>::empty());
    let mut kind_opt: Option<PnmKind> = None;
    while kind_opt.is_none()
        invariant
            b == input@,
            pos <= b.len(),
            kind_opt is None ==> kind_stage(b, pos as int, comment_views(comments@)) == header_view(b),
            kind_opt matches Some(k) ==> size_stage(b, pos as int, k, comment_views(comments@))
                == header_view(b),
        decreases b.len() - pos,
    {
        match next_line(input, pos) {
            None => {
                return Err(PnmError::UnexpectedEof(EofAt::Kind));
            },
            Some((None, _)) => {
                return Err(PnmError::Io(invalid_utf8_error()));
            },
            Some((Some((s, cs)), end)) => {
                proof {
                    lemma_line_end(b, pos as int);
                }
                let ghost t = cs@;
                let (lo, hi) = trim_bounds(&cs, 0, cs.len());
                let ghost old_comments = comments@;
                if lo < hi {
                    if cs[lo] == '#' {
                        let (clo, chi) = trim_bounds(&cs, lo + 1, hi);
                        comments.push(s.substring_char(clo, chi).to_string());
                        proof {
                            lemma_push_comment(old_comments, comments@.last());
                            assert(comments@ == old_comments.push(comments@.last()));
                        }
                    } else {
                        let trimmed = s.substring_char(lo, hi);
                        match PnmKind::from_name(trimmed) {
                            Ok(k) => {
                                kind_opt = Some(k);
                            },
                            Err(e) => {
                                return Err(e);
                            },
                        }
                    }
                }
                pos = end;
            },
        }
    }
    let kind = match kind_opt {
        Some(k) => k,
        None => PnmKind::P1,
    };
    let mut size: Option<(usize, usize)> = None;
    while size.is_none()
        invariant
            b == input@,
            pos <= b.len(),
            size is None ==> size_stage(b, pos as int, kind, comment_views(comments@)) == header_view(b),
            size matches Some((w, h)) ==> (if kind.spec_is_pbm() {
                header_view(b) == HeaderView::Parsed(
                    HeaderFields {
                        kind,
                        width: w,
                        height: h,
                        max_val: None,
                        comments: comment_views(comments@),
                        end: pos,
                    },
                )
            } else {
                maxval_stage(b, pos as int, kind, w, h, comment_views(comments@)) == header_view(b)
            }),
        decreases b.len() - pos,
    {
        match next_line(input, pos) {
            None => {
                return Err(PnmError::UnexpectedEof(EofAt::Size));
            },
            Some((None, _)) => {
                return Err(PnmError::Io(invalid_utf8_error()));
            },
            Some((Some((s, cs)), end)) => {
                proof {
                    lemma_line_end(b, pos as int);
                }
                let ghost t = cs@;
                let (lo, hi) = trim_bounds(&cs, 0, cs.len());
                let ghost old_comments = comments@;
                if lo < hi {
                    if cs[lo] == '#' {
                        let (clo, chi) = trim_bounds(&cs, lo + 1, hi);
                        comments.push(s.substring_char(clo, chi).to_string());
                        proof {
                            lemma_push_comment(old_comments, comments@.last());
                            assert(comments@ == old_comments.push(comments@.last()));
                        }
                    } else {
                        let ranges = split_ws(&cs, lo, hi);
                        proof {
                            assert(ranges@.len() == token_ranges(t, lo as int, hi as int).len()) by {
                                assert(ranges@.map_values(|p: (usize, usize)| (p.0 as int, p.1 as int)).len()
                                    == ranges@.len());
                            }
                        }
                        let mut parsed: Option<(usize, usize)> = None;
                        if ranges.len() == 2 {
                            let (a0, b0) = ranges[0];
                            let (a1, b1) = ranges[1];
                            proof {
                                let m = ranges@.map_values(|p: (usize, usize)| (p.0 as int, p.1 as int));
                                assert(m[0] == (a0 as int, b0 as int));
                                assert(m[1] == (a1 as int, b1 as int));
                                assert(tokens(t, lo as int, hi as int)[0] == t.subrange(a0 as int, b0 as int));
                                assert(tokens(t, lo as int, hi as int)[1] == t.subrange(a1 as int, b1 as int));
                            }
                            let w = parse_usize(s.substring_char(a0, b0));
                            let h = parse_usize(s.substring_char(a1, b1));
                            if let (Some(w), Some(h)) = (w, h) {
                                parsed = Some((w, h));
                            }
                        }
                        match parsed {
                            Some(p) => {
                                size = Some(p);
                            },
                            None => {
                                let mut message = "invalid size: ".to_string();
                                message.append(s.substring_char(lo, hi));
                                return Err(PnmError::InvalidHeader(message));
                            },
                        }
                    }
                }
                pos = end;
            },
        }
    }
    let (width, height) = match size {
        Some(p) => p,
        None => (0, 0),
    };
    if kind.is_pbm() {
        return Ok(PnmHeader { kind, width, height, max_val: None, comments, end: pos });
    }
    let mut max_val: Option<MaxValue> = None;
    while max_val.is_none()
        invariant
            b == input@,
            pos <= b.len(),
            max_val is None ==> maxval_stage(b, pos as int, kind, width, height, comment_views(comments@))
                == header_view(b),
            max_val matches Some(m) ==> header_view(b) == HeaderView::Parsed(
                HeaderFields {
                    kind,
                    width,
                    height,
                    max_val: Some(m@),
                    comments: comment_views(comments@),
                    end: pos,
                },
            ),
        decreases b.len() - pos,
    {
        match next_line(input, pos) {
            None => {
                return Err(PnmError::UnexpectedEof(EofAt::MaxVal));
            },
            Some((None, _)) => {
                return Err(PnmError::Io(invalid_utf8_error()));
            },
            Some((Some((s, cs)), end)) => {
                proof {
                    lemma_line_end(b, pos as int);
                }
                let (lo, hi) = trim_bounds(&cs, 0, cs.len());
                let ghost old_comments = comments@;
                if lo < hi {
                    if cs[lo] == '#' {
                        let (clo, chi) = trim_bounds(&cs, lo + 1, hi);
                        comments.push(s.substring_char(clo, chi).to_string());
                        proof {
                            lemma_push_comment(old_comments, comments@.last());
                            assert(comments@ == old_comments.push(comments@.last()));
                        }
                    } else {
                        if let Some(v) = parse_nonzero_u16(s.substring_char(lo, hi)) {
                            max_val = MaxValue::new(v);
                        }
                    }
                }
                pos = end;
            },
        }
    }
    Ok(PnmHeader { kind, width, height, max_val, comments, end: pos })
}

} // verus!

verus! {

/// What reading a data section gives.
pub enum DataView {
    /// A text line that is not valid UTF-8 (an I/O error).
    BadUtf8,
    /// The input ended before the data did (an I/O error).
    Short,
    /// A comment line in the data of an ASCII kind.
    CommentInData,
    /// A token of an ASCII bitmap other than `0` and `1`.
    BadBit(Seq<char>),
    /// A token of an ASCII graymap or pixmap that does not parse.
    BadNumber,
    /// A number of values expected, another number found.
    Mismatch(usize, usize),
    /// An ASCII bitmap with another number of bits than `width * height`.
    BitMismatch,
    Bits(Seq<bool>),
    Gray8(Seq<u8>),
    Gray16(Seq<u16>),
    Rgb8(Seq<[u8; 3]>),
    Rgb16(Seq<[u16; 3]>),
}

/// "data length mismatch: expected {expected}, got {got}"
pub open spec fn msg_length_mismatch(expected: nat, got: nat) -> Seq<char> {
    "data length mismatch: expected "@ + crate::text::decimal(expected) + ", got "@
        + crate::text::decimal(got)
}

/// Whether `e` is the error of a data view that is an error.
pub open spec fn data_error_matches(v: DataView, e: PnmError) -> bool {
    match v {
        DataView::BadUtf8 => e is Io,
        DataView::Short => e is Io,
        DataView::CommentInData => e is CommentInData,
        DataView::BadBit(tok) => e matches PnmError::InvalidPixel(m) && m@ == tok,
        DataView::BadNumber => e is ParseError,
        DataView::Mismatch(x, y) => e matches PnmError::InvalidPixel(m) && m@ == msg_length_mismatch(
            x as nat,
            y as nat,
        ),
        DataView::BitMismatch => e matches PnmError::InvalidPixel(m) && m@ == "data length mismatch"@,
        _ => false,
    }
}

/// Whether `r` is what reading bitmap data whose view is `v` gives.
pub open spec fn bits_result(v: DataView, r: PnmResult<BitData>) -> bool {
    match v {
        DataView::Bits(bs) => r matches Ok(d) && d@ == bs,
        _ => r matches Err(e) && data_error_matches(v, e),
    }
}

/// Whether `r` is what reading graymap data whose view is `v` gives.
pub open spec fn gray_result(v: DataView, r: PnmResult<GrayData>) -> bool {
    match v {
        DataView::Gray8(s) => r matches Ok(GrayData::U8(d)) && d@ == s,
        DataView::Gray16(s) => r matches Ok(GrayData::U16(d)) && d@ == s,
        _ => r matches Err(e) && data_error_matches(v, e),
    }
}

/// Whether `r` is what reading pixmap data whose view is `v` gives.
pub open spec fn rgb_result(v: DataView, r: PnmResult<RgbData>) -> bool {
    match v {
        DataView::Rgb8(s) => r matches Ok(RgbData::U8(d)) && d@ == s,
        DataView::Rgb16(s) => r matches Ok(RgbData::U16(d)) && d@ == s,
        _ => r matches Err(e) && data_error_matches(v, e),
    }
}

/// The bit that an ASCII bitmap token stands for.
pub open spec fn bit_token(tok: Seq<char>) -> Option<bool> {
    if tok.len() == 1 && tok[0] == '0' {
        Some(false)
    } else if tok.len() == 1 && tok[0] == '1' {
        Some(true)
    } else {
        None
    }
}

/// The bits of `toks[k..]`, or the first token that is no bit.
pub open spec fn token_bits(toks: Seq<Seq<char>>, k: int) -> Result<Seq<bool>, Seq<char>>
    decreases toks.len() - k,
{
    if k < 0 || k >= toks.len() {
        Ok(Seq::empty())
    } else {
        match bit_token(toks[k]) {
            None => Err(toks[k]),
            Some(b) => match token_bits(toks, k + 1) {
                Ok(rest) => Ok(seq![b] + rest),
                Err(t) => Err(t),
            },
        }
    }
}

/// P1: reading the lines from `pos` on, with `bits` read so far.
pub open spec fn pbm_ascii_stage(b: Seq<u8>, pos: int, bits: Seq<bool>, width: nat, height: nat) -> DataView
    decreases b.len() - pos,
{
    if pos < 0 || pos >= b.len() {
        if bits.len() == width * height {
            DataView::Bits(bits)
        } else {
            DataView::BitMismatch
        }
    } else if !valid_utf8(line_bytes(b, pos)) {
        DataView::BadUtf8
    } else {
        let t = line_chars(b, pos);
        let lo = trim_lo(t, 0, t.len() as int);
        let hi = trim_hi(t, 0, t.len() as int);
        let next = line_end(b, pos);
        proof {
            lemma_line_end(b, pos);
        }
        if lo == hi {
            pbm_ascii_stage(b, next, bits, width, height)
        } else if t[lo] == '#' {
            DataView::CommentInData
        } else {
            match token_bits(tokens(t, lo, hi), 0) {
                Err(tok) => DataView::BadBit(tok),
                Ok(bs) => pbm_ascii_stage(b, next, bits + bs, width, height),
            }
        }
    }
}

/// The values of the numeric tokens `toks[k..]`, if every one parses as an
/// unsigned integer up to `max`.
pub open spec fn token_values(toks: Seq<Seq<char>>, k: int, max: nat) -> Option<Seq<nat>>
    decreases toks.len() - k,
{
    if k < 0 || k >= toks.len() {
        Some(Seq::empty())
    } else if parses_unsigned(toks[k], max) {
        match token_values(toks, k + 1, max) {
            Some(rest) => Some(seq![unsigned_value(toks[k])] + rest),
            None => None,
        }
    } else {
        None
    }
}

/// What reading the numeric lines of an ASCII graymap or pixmap gives.
pub enum SamplesView {
    /// A line that is not valid UTF-8.
    BadUtf8,
    /// A line whose first character after white space is `#`.
    Comment,
    /// A token that does not parse as a number up to the maximum.
    BadNumber,
    /// The values of all tokens, in order.
    Samples(Seq<nat>),
}

/// P2 and P3: reading the lines from `pos` on, with `vals` read so far; each
/// token must parse as a number up to `max`.
pub open spec fn samples_stage(b: Seq<u8>, pos: int, vals: Seq<nat>, max: nat) -> SamplesView
    decreases b.len() - pos,
{
    if pos < 0 || pos >= b.len() {
        SamplesView::Samples(vals)
    } else if !valid_utf8(line_bytes(b, pos)) {
        SamplesView::BadUtf8
    } else {
        let t = line_chars(b, pos);
        let lo = trim_lo(t, 0, t.len() as int);
        let hi = trim_hi(t, 0, t.len() as int);
        let next = line_end(b, pos);
        proof {
            lemma_line_end(b, pos);
        }
        if lo < hi && t[lo] == '#' {
            SamplesView::Comment
        } else {
            match token_values(tokens(t, 0, t.len() as int), 0, max) {
                None => SamplesView::BadNumber,
                Some(vs) => samples_stage(b, next, vals + vs, max),
            }
        }
    }
}

/// The largest sample: 65535 for 16-bit samples, 255 otherwise.
pub open spec fn sample_max(wide: bool) -> nat {
    if wide { 65535 } else { 255 }
}

/// P2: the numbers of the lines, 8-bit when the sample maximum is at most 255.
pub open spec fn pgm_ascii_view(b: Seq<u8>, wide: bool, width: nat, height: nat) -> DataView {
    match samples_stage(b, 0, Seq::empty(), sample_max(wide)) {
        SamplesView::BadUtf8 => DataView::BadUtf8,
        SamplesView::Comment => DataView::CommentInData,
        SamplesView::BadNumber => DataView::BadNumber,
        SamplesView::Samples(vals) => if vals.len() == width * height {
            if wide {
                DataView::Gray16(vals.map_values(|v: nat| v as u16))
            } else {
                DataView::Gray8(vals.map_values(|v: nat| v as u8))
            }
        } else {
            DataView::Mismatch((width * height) as usize, vals.len() as usize)
        },
    }
}

/// The colors of the samples `vals`, three to a color.
pub open spec fn sample_colors(vals: Seq<nat>, n: nat) -> Seq<[u16; 3]> {
    Seq::new(n, |i: int| [vals[3 * i] as u16, vals[3 * i + 1] as u16, vals[3 * i + 2] as u16])
}

/// P3: the numbers of the lines, three to a color; 8-bit when the sample
/// maximum is at most 255. The counts in a mismatch are of samples.
pub open spec fn ppm_ascii_view(b: Seq<u8>, wide: bool, width: nat, height: nat) -> DataView {
    match samples_stage(b, 0, Seq::empty(), sample_max(wide)) {
        SamplesView::BadUtf8 => DataView::BadUtf8,
        SamplesView::Comment => DataView::CommentInData,
        SamplesView::BadNumber => DataView::BadNumber,
        SamplesView::Samples(vals) => if vals.len() == 3 * (width * height) {
            if wide {
                DataView::Rgb16(sample_colors(vals, width * height))
            } else {
                DataView::Rgb8(sample_colors(vals, width * height).map_values(
                    |c: [u16; 3]| [c[0] as u8, c[1] as u8, c[2] as u8],
                ))
            }
        } else {
            DataView::Mismatch((3 * (width * height)) as usize, vals.len() as usize)
        },
    }
}

/// Bit `c` of row `r` of P4 data whose rows are `rb` bytes each: most
/// significant bit first.
pub open spec fn row_bit(bytes: Seq<u8>, rb: nat, r: nat, c: nat) -> bool {
    (bytes[(r * rb + c / 8) as int] as nat / bit_weight(c % 8)) % 2 == 1
}

/// The number of bytes of one P4 row.
pub open spec fn row_bytes(width: nat) -> nat {
    width / 8 + if width % 8 != 0 { 1nat } else { 0 }
}

/// P4: `height` rows of `row_bytes(width)` bytes; each row's first `width`
/// bits are its pixels and the padding bits after them are passed over.
pub open spec fn pbm_binary_view(b: Seq<u8>, width: nat, height: nat) -> DataView {
    if b.len() < height * row_bytes(width) {
        DataView::Short
    } else {
        DataView::Bits(
            Seq::new(width * height, |i: int| row_bit(b, row_bytes(width), (i / width as int) as nat, (i % width as int) as nat)),
        )
    }
}

/// The big-endian 16-bit number of bytes `i` and `i + 1`.
pub open spec fn be16_at(b: Seq<u8>, i: int) -> u16 {
    (b[i] as nat * 256 + b[i + 1] as nat) as u16
}

/// The first `n` big-endian 16-bit samples of `b`.
pub open spec fn be16_values(b: Seq<u8>, n: nat) -> Seq<u16> {
    Seq::new(n, |i: int| be16_at(b, 2 * i))
}

/// P5: all remaining bytes, one per 8-bit sample or two per 16-bit sample
/// (big-endian); a trailing half sample is a read cut short.
pub open spec fn pgm_binary_view(b: Seq<u8>, wide: bool, width: nat, height: nat) -> DataView {
    if !wide {
        if b.len() == width * height {
            DataView::Gray8(b)
        } else {
            DataView::Mismatch((width * height) as usize, b.len() as usize)
        }
    } else if b.len() % 2 != 0 {
        DataView::Short
    } else if b.len() / 2 == width * height {
        DataView::Gray16(be16_values(b, width * height))
    } else {
        DataView::Mismatch((width * height) as usize, (b.len() / 2) as usize)
    }
}

/// The colors of the first `3 * n` bytes.
pub open spec fn rgb8_colors(b: Seq<u8>, n: nat) -> Seq<[u8; 3]> {
    Seq::new(n, |i: int| [b[3 * i], b[3 * i + 1], b[3 * i + 2]])
}

/// The colors of the first `6 * n` bytes, each sample big-endian.
pub open spec fn rgb16_be_colors(b: Seq<u8>, n: nat) -> Seq<[u16; 3]> {
    Seq::new(n, |i: int| [be16_at(b, 6 * i), be16_at(b, 6 * i + 2), be16_at(b, 6 * i + 4)])
}

/// P6: three bytes per 8-bit color, six per 16-bit color (big-endian
/// samples); bytes after the last color are left unread.
pub open spec fn ppm_binary_view(b: Seq<u8>, wide: bool, width: nat, height: nat) -> DataView {
    if !wide {
        if b.len() < 3 * (width * height) {
            DataView::Short
        } else {
            DataView::Rgb8(rgb8_colors(b, width * height))
        }
    } else if b.len() < 6 * (width * height) {
        DataView::Short
    } else {
        DataView::Rgb16(rgb16_be_colors(b, width * height))
    }
}

} // verus!

verus! {

/// The message "data length mismatch: expected {expected}, got {got}".
fn length_mismatch_error(expected: usize, got: usize) -> (r: PnmError)
    ensures
        r matches PnmError::InvalidPixel(m) && m@ == msg_length_mismatch(expected as nat, got as nat),
{
    let mut s = "data length mismatch: expected ".to_string();
    crate::text::push_decimal(&mut s, expected);
    s.append(", got ");
    crate::text::push_decimal(&mut s, got);
    PnmError::InvalidPixel(s)
}

/// Reads P1 data: the tokens `0` and `1` of its lines.
pub fn read_pbm_ascii(input: &[u8], width: usize, height: usize) -> (r: PnmResult<BitData>)
    requires
        width * height <= max_bits(),
        input@.len() < max_bits(),
    ensures
        bits_result(pbm_ascii_stage(input@, 0, Seq::empty(), width as nat, height as nat), r),
{
    let ghost b = input@;
    let total = width * height;
    let mut data = BitData::new();
    let mut pos: usize = 0;
    while pos < input.len()
        invariant
            b == input@,
            b.len() < max_bits(),
            total == width * height,
            pos <= b.len(),
            data@.len() <= pos,
            pbm_ascii_stage(b, pos as int, data@, width as nat, height as nat) == pbm_ascii_stage(
                b,
                0,
                Seq::empty(),
                width as nat,
                height as nat,
            ),
        decreases b.len() - pos,
    {
        match next_line(input, pos) {
            None => {
                // `pos` is before the end of the input, so a line starts there.
                proof {
                    assert(false);
                }
                return Err(PnmError::CommentInData);
            },
            Some((None, _)) => {
                return Err(PnmError::Io(invalid_utf8_error()));
            },
            Some((Some((s, cs)), end)) => {
                let ghost t = cs@;
                let (lo, hi) = trim_bounds(&cs, 0, cs.len());
                if lo < hi {
                    if cs[lo] == '#' {
                        return Err(PnmError::CommentInData);
                    }
                    let ranges = split_ws(&cs, lo, hi);
                    let ghost toks = tokens(t, lo as int, hi as int);
                    let ghost base = data@;
                    proof {
                        crate::text::lemma_scan_count(t, lo as int, hi as int, None, Seq::empty());
                        assert(ranges@.map_values(|p: (usize, usize)| (p.0 as int, p.1 as int)).len()
                            == ranges@.len());
                    }
                    let mut k: usize = 0;
                    while k < ranges.len()
                        invariant
                            0 <= lo <= hi <= t.len(),
                            b == input@,
                            total == width * height,
                            t == cs@,
                            s@ == t,
                            pos < end,
                            valid_utf8(line_bytes(b, pos as int)),
                            t == line_chars(b, pos as int),
                            lo == trim_lo(t, 0, t.len() as int),
                            hi == trim_hi(t, 0, t.len() as int),
                            lo < hi,
                            t[lo as int] != '#',
                            end == line_end(b, pos as int),
                            pbm_ascii_stage(b, pos as int, base, width as nat, height as nat)
                                == pbm_ascii_stage(b, 0, Seq::empty(), width as nat, height as nat),
                            toks == tokens(t, lo as int, hi as int),
                            toks.len() == ranges@.len(),
                            ranges@.len() <= hi - lo,
                            forall|j: int| 0 <= j < ranges@.len() ==> lo <= #[trigger] ranges@[j].0
                                <= ranges@[j].1 <= hi,
                            ranges@.map_values(|p: (usize, usize)| (p.0 as int, p.1 as int))
                                == token_ranges(t, lo as int, hi as int),
                            k <= ranges@.len(),
                            cs@.len() <= end - pos,
                            end <= b.len(),
                            b.len() < max_bits(),
                            base.len() <= pos,
                            data@.len() == base.len() + k,
                            match token_bits(toks, k as int) {
                                Ok(rest) => token_bits(toks, 0) == Ok::<Seq<bool>, Seq<char>>(
                                    data@.skip(base.len() as int) + rest,
                                ),
                                Err(tk) => token_bits(toks, 0) == Err::<Seq<bool>, Seq<char>>(tk),
                            },
                            data@.take(base.len() as int) == base,
                        decreases ranges@.len() - k,
                    {
                        let (a, c) = ranges[k];
                        proof {
                            let m = ranges@.map_values(|p: (usize, usize)| (p.0 as int, p.1 as int));
                            assert(m[k as int] == (a as int, c as int));
                            assert(toks[k as int] == t.subrange(a as int, c as int));
                        }
                        let bit = if c - a == 1 && cs[a] == '0' {
                            false
                        } else if c - a == 1 && cs[a] == '1' {
                            true
                        } else {
                            let token = s.substring_char(a, c).to_string();
                            proof {
                                assert(bit_token(toks[k as int]) is None);
                                assert(token_bits(toks, 0) == Err::<Seq<bool>, Seq<char>>(toks[k as int]));
                            }
                            return Err(PnmError::InvalidPixel(token));
                        };
                        let ghost before = data@;
                        data.push(bit);
                        proof {
                            assert(data@.skip(base.len() as int) =~= before.skip(base.len() as int).push(bit));
                            assert(data@.take(base.len() as int) =~= before.take(base.len() as int));
                            match token_bits(toks, k + 1) {
                                Ok(rest) => {
                                    assert(before.skip(base.len() as int) + (seq![bit] + rest)
                                        =~= data@.skip(base.len() as int) + rest);
                                },
                                Err(_) => {},
                            }
                        }
                        k = k + 1;
                    }
                    proof {
                        assert(token_bits(toks, k as int) == Ok::<Seq<bool>, Seq<char>>(Seq::empty()));
                        assert(data@ =~= base + data@.skip(base.len() as int));
                        assert(data@.skip(base.len() as int) + Seq::<bool>::empty() =~= data@.skip(
                            base.len() as int,
                        ));
                    }
                }
                pos = end;
            },
        }
    }
    if data.len() != total {
        return Err(PnmError::InvalidPixel("data length mismatch".to_string()));
    }
    Ok(data)
}

} // verus!

verus! {

/// Narrows values that are all at most 255 to bytes.
fn narrow_to_u8(vals: &Vec<u16>) -> (r: Vec<u8>)
    requires
        forall|i: int| 0 <= i < vals@.len() ==> vals@[i] <= 255,
    ensures
        r@ == vals@.map_values(|v: u16| v as u8),
{
    let mut out: Vec<u8> = Vec::new();
    for i in 0..vals.len()
        invariant
            forall|j: int| 0 <= j < vals@.len() ==> vals@[j] <= 255,
            out@ == vals@.take(i as int).map_values(|v: u16| v as u8),
    {
        out.push(vals[i] as u8);
        assert(out@ =~= vals@.take(i + 1).map_values(|v: u16| v as u8));
    }
    assert(vals@.take(vals@.len() as int) =~= vals@);
    out
}

/// Whether `r` is what reading numeric lines whose view is `v` gives.
pub open spec fn samples_result(v: SamplesView, r: PnmResult<Vec<u16>>) -> bool {
    match v {
        SamplesView::BadUtf8 => r matches Err(e) && e is Io,
        SamplesView::Comment => r matches Err(e) && e is CommentInData,
        SamplesView::BadNumber => r matches Err(e) && e is ParseError,
        SamplesView::Samples(vals) => r matches Ok(d) && d@.map_values(|x: u16| x as nat) == vals,
    }
}

/// Reads the decimal numbers of the lines of an ASCII graymap or pixmap:
/// up to 255 each, or up to 65535 when `wide`.
pub fn read_samples(input: &[u8], wide: bool) -> (r: PnmResult<Vec<u16>>)
    ensures
        samples_result(samples_stage(input@, 0, Seq::empty(), sample_max(wide)), r),
        r matches Ok(d) ==> forall|j: int| 0 <= j < d@.len() ==> d@[j] <= sample_max(wide),
{
    let ghost b = input@;
    let ghost max: nat = sample_max(wide);
    let mut vals: Vec<u16> = Vec::new();
    let mut pos: usize = 0;
    assert(vals@.map_values(|v: u16| v as nat) =~= Seq::<nat>::empty());
    while pos < input.len()
        invariant
            b == input@,
            max == sample_max(wide),
            pos <= b.len(),
            forall|j: int| 0 <= j < vals@.len() ==> vals@[j] <= max,
            samples_stage(b, pos as int, vals@.map_values(|v: u16| v as nat), max)
                == samples_stage(b, 0, Seq::empty(), max),
        decreases b.len() - pos,
    {
        match next_line(input, pos) {
            None => {
                // `pos` is before the end of the input, so a line starts there.
                proof {
                    assert(false);
                }
                return Err(PnmError::CommentInData);
            },
            Some((None, _)) => {
                return Err(PnmError::Io(invalid_utf8_error()));
            },
            Some((Some((s, cs)), end)) => {
                let ghost t = cs@;
                let (lo, hi) = trim_bounds(&cs, 0, cs.len());
                if lo < hi && cs[lo] == '#' {
                    return Err(PnmError::CommentInData);
                }
                let ranges = split_ws(&cs, 0, cs.len());
                let ghost toks = tokens(t, 0, t.len() as int);
                let ghost base = vals@;
                proof {
                    assert(ranges@.map_values(|p: (usize, usize)| (p.0 as int, p.1 as int)).len()
                        == ranges@.len());
                }
                let mut k: usize = 0;
                while k < ranges.len()
                    invariant
                        b == input@,
                        max == sample_max(wide),
                        t == cs@,
                        s@ == t,
                        pos < end,
                        end == line_end(b, pos as int),
                        valid_utf8(line_bytes(b, pos as int)),
                        t == line_chars(b, pos as int),
                        lo == trim_lo(t, 0, t.len() as int),
                        hi == trim_hi(t, 0, t.len() as int),
                        !(lo < hi && t[lo as int] == '#'),
                        samples_stage(b, pos as int, base.map_values(|v: u16| v as nat), max)
                            == samples_stage(b, 0, Seq::empty(), max),
                        toks == tokens(t, 0, t.len() as int),
                        toks.len() == ranges@.len(),
                        forall|j: int| 0 <= j < ranges@.len() ==> 0 <= #[trigger] ranges@[j].0
                            <= ranges@[j].1 <= t.len(),
                        ranges@.map_values(|p: (usize, usize)| (p.0 as int, p.1 as int))
                            == token_ranges(t, 0, t.len() as int),
                        k <= ranges@.len(),
                        vals@.len() == base.len() + k,
                        vals@.take(base.len() as int) == base,
                        forall|j: int| 0 <= j < vals@.len() ==> vals@[j] <= max,
                        match token_values(toks, k as int, max) {
                            Some(rest) => token_values(toks, 0, max) == Some(
                                vals@.skip(base.len() as int).map_values(|v: u16| v as nat) + rest,
                            ),
                            None => token_values(toks, 0, max) is None,
                        },
                    decreases ranges@.len() - k,
                {
                    let (a, c) = ranges[k];
                    proof {
                        let m = ranges@.map_values(|p: (usize, usize)| (p.0 as int, p.1 as int));
                        assert(m[k as int] == (a as int, c as int));
                        assert(toks[k as int] == t.subrange(a as int, c as int));
                    }
                    let token = s.substring_char(a, c);
                    let v: u16 = if wide {
                        match crate::bindings::parse_u16(token) {
                            Ok(v) => v,
                            Err(e) => {
                                proof {
                                    assert(samples_stage(b, pos as int, base.map_values(|v: u16| v as nat), max)
                                        == SamplesView::BadNumber);
                                }
                                return Err(PnmError::ParseError(e));
                            },
                        }
                    } else {
                        match crate::bindings::parse_u8(token) {
                            Ok(v) => v as u16,
                            Err(e) => {
                                proof {
                                    assert(samples_stage(b, pos as int, base.map_values(|v: u16| v as nat), max)
                                        == SamplesView::BadNumber);
                                }
                                return Err(PnmError::ParseError(e));
                            },
                        }
                    };
                    let ghost before = vals@;
                    vals.push(v);
                    proof {
                        assert(vals@.skip(base.len() as int) =~= before.skip(base.len() as int).push(v));
                        assert(vals@.take(base.len() as int) =~= before.take(base.len() as int));
                        match token_values(toks, k + 1, max) {
                            Some(rest) => {
                                assert(before.skip(base.len() as int).map_values(|v: u16| v as nat) + (seq![v as nat] + rest)
                                    =~= vals@.skip(base.len() as int).map_values(|v: u16| v as nat) + rest);
                            },
                            None => {},
                        }
                    }
                    k = k + 1;
                }
                proof {
                    assert(token_values(toks, k as int, max) == Some(Seq::<nat>::empty()));
                    assert(vals@.map_values(|v: u16| v as nat) =~= base.map_values(|v: u16| v as nat)
                        + vals@.skip(base.len() as int).map_values(|v: u16| v as nat));
                    assert(vals@.skip(base.len() as int).map_values(|v: u16| v as nat) + Seq::<nat>::empty()
                        =~= vals@.skip(base.len() as int).map_values(|v: u16| v as nat));
                }
                pos = end;
            },
        }
    }
    Ok(vals)
}

/// Reads P2 data: the decimal numbers of its lines, 8-bit or, when `wide`,
/// 16-bit; a comment line is refused.
pub fn read_pgm_ascii(input: &[u8], wide: bool, width: usize, height: usize) -> (r: PnmResult<GrayData>)
    requires
        width * height <= usize::MAX,
    ensures
        gray_result(pgm_ascii_view(input@, wide, width as nat, height as nat), r),
{
    let total = width * height;
    let vals = match read_samples(input, wide) {
        Ok(v) => v,
        Err(e) => {
            return Err(e);
        },
    };
    proof {
        assert(vals@.map_values(|v: u16| v as nat).len() == vals@.len());
    }
    if vals.len() != total {
        return Err(length_mismatch_error(total, vals.len()));
    }
    if wide {
        proof {
            assert(vals@.map_values(|v: u16| v as nat).map_values(|v: nat| v as u16) =~= vals@);
        }
        Ok(GrayData::U16(vals))
    } else {
        let narrow = narrow_to_u8(&vals);
        proof {
            assert(vals@.map_values(|v: u16| v as nat).map_values(|v: nat| v as u8) =~= narrow@);
        }
        Ok(GrayData::U8(narrow))
    }
}

} // verus!

verus! {

fn weight_u8(t: usize) -> (r: u8)
    requires
        t < 8,
    ensures
        r == bit_weight(t as nat),
{
    if t == 0 { 128 } else if t == 1 { 64 } else if t == 2 { 32 } else if t == 3 { 16 }
    else if t == 4 { 8 } else if t == 5 { 4 } else if t == 6 { 2 } else { 1 }
}

/// The first `n` pixels, row by row, as `pbm_binary_view` reads them from
/// rows of `rb` bytes.
pub open spec fn rows_read(b: Seq<u8>, width: nat, rb: nat, n: nat) -> Seq<bool> {
    Seq::new(n, |i: int| row_bit(b, rb, (i / width as int) as nat, (i % width as int) as nat))
}

/// Reads P4 data: `height` rows of `row_bytes(width)` bytes; the pixels of a
/// row are its first `width` bits, most significant first, and its padding
/// bits are passed over.
pub fn read_pbm_binary(input: &[u8], width: usize, height: usize) -> (r: PnmResult<BitData>)
    requires
        width * height <= max_bits(),
    ensures
        bits_result(pbm_binary_view(input@, width as nat, height as nat), r),
{
    let rb = width / 8 + if width % 8 != 0 { 1 } else { 0 };
    proof {
        assert(rb == row_bytes(width as nat));
        if width > 0 {
            assert(rb <= width);
            vstd::arithmetic::mul::lemma_mul_inequality(rb as int, width as int, height as int);
            vstd::arithmetic::mul::lemma_mul_is_commutative(rb as int, height as int);
            vstd::arithmetic::mul::lemma_mul_is_commutative(width as int, height as int);
        }
    }
    let need = height * rb;
    if input.len() < need {
        return Err(PnmError::Io(crate::bindings::unexpected_eof_error()));
    }
    let ghost b = input@;
    let mut data = BitData::new();
    assert(data@ =~= rows_read(b, width as nat, rb as nat, 0));
    let mut r: usize = 0;
    while r < height
        invariant
            b == input@,
            rb == row_bytes(width as nat),
            need == height * rb,
            need <= b.len(),
            width * height <= max_bits(),
            r <= height,
            data@ == rows_read(b, width as nat, rb as nat, (r * width) as nat),
        decreases height - r,
    {
        proof {
            assert(r * width + width == (r + 1) * width) by (nonlinear_arith);
            assert((r + 1) * width <= height * width) by (nonlinear_arith)
                requires r + 1 <= height;
            assert(height * width == width * height) by (nonlinear_arith);
            assert(r * rb + rb == (r + 1) * rb) by (nonlinear_arith);
            assert((r + 1) * rb <= height * rb) by (nonlinear_arith)
                requires r + 1 <= height;
        }
        let start = r * rb;
        let mut c: usize = 0;
        while c < width
            invariant
                b == input@,
                rb == row_bytes(width as nat),
                need == height * rb,
                need <= b.len(),
                width * height <= max_bits(),
                r < height,
                start == r * rb,
                start + rb <= need,
                r * width + width <= width * height,
                c <= width,
                data@ == rows_read(b, width as nat, rb as nat, (r * width + c) as nat),
            decreases width - c,
        {
            proof {
                assert(c / 8 < rb) by {
                    vstd::arithmetic::div_mod::lemma_div_is_ordered(c as int, width as int - 1, 8);
                }
            }
            let byte = input[start + c / 8];
            let bit = (byte / weight_u8(c % 8)) % 2 == 1;
            let ghost before = data@;
            data.push(bit);
            proof {
                let n = (r * width + c) as int;
                vstd::arithmetic::div_mod::lemma_fundamental_div_mod_converse(
                    n,
                    width as int,
                    r as int,
                    c as int,
                );
                assert(data@ =~= rows_read(b, width as nat, rb as nat, (n + 1) as nat));
            }
            c = c + 1;
        }
        r = r + 1;
    }
    proof {
        assert(r * width == width * height) by (nonlinear_arith)
            requires r == height;
    }
    Ok(data)
}

/// Reads the first `n` big-endian 16-bit samples of `input`.
fn read_be16(input: &[u8], n: usize) -> (r: Vec<u16>)
    requires
        2 * n <= input@.len(),
    ensures
        r@ == be16_values(input@, n as nat),
{
    let mut data: Vec<u16> = Vec::new();
    let mut i: usize = 0;
    let len = input.len();
    while i < n
        invariant
            len == input@.len(),
            2 * n <= input@.len(),
            i <= n,
            data@ == be16_values(input@, i as nat),
        decreases n - i,
    {
        let v = crate::bindings::u16_from_be_bytes([input[2 * i], input[2 * i + 1]]);
        data.push(v);
        i = i + 1;
        assert(data@ =~= be16_values(input@, i as nat));
    }
    data
}

/// Reads P5 data: all remaining bytes, one per 8-bit sample or two per
/// 16-bit sample (big-endian).
pub fn read_pgm_binary(input: &[u8], wide: bool, width: usize, height: usize) -> (r: PnmResult<GrayData>)
    requires
        width * height <= usize::MAX,
    ensures
        gray_result(pgm_binary_view(input@, wide, width as nat, height as nat), r),
{
    let total = width * height;
    if !wide {
        if input.len() != total {
            return Err(length_mismatch_error(total, input.len()));
        }
        let mut data: Vec<u8> = Vec::new();
        crate::text::push_bytes(&mut data, input);
        assert(data@ =~= input@);
        Ok(GrayData::U8(data))
    } else {
        if input.len() % 2 != 0 {
            return Err(PnmError::Io(crate::bindings::unexpected_eof_error()));
        }
        if input.len() / 2 != total {
            return Err(length_mismatch_error(total, input.len() / 2));
        }
        Ok(GrayData::U16(read_be16(input, total)))
    }
}

/// Reads P3 data: the decimal numbers of its lines, three to a color, 8-bit
/// or, when `wide`, 16-bit; a comment line is refused.
pub fn read_ppm_ascii(input: &[u8], wide: bool, width: usize, height: usize) -> (r: PnmResult<RgbData>)
    requires
        6 * (width * height) <= usize::MAX,
    ensures
        rgb_result(ppm_ascii_view(input@, wide, width as nat, height as nat), r),
{
    let total = width * height;
    let vals = match read_samples(input, wide) {
        Ok(v) => v,
        Err(e) => {
            return Err(e);
        },
    };
    let ghost nv = vals@.map_values(|v: u16| v as nat);
    proof {
        assert(nv.len() == vals@.len());
    }
    if vals.len() != 3 * total {
        return Err(length_mismatch_error(3 * total, vals.len()));
    }
    if wide {
        let mut data: Vec<[u16; 3]> = Vec::new();
        let mut i: usize = 0;
        while i < total
            invariant
                6 * total <= usize::MAX,
                vals@.len() == 3 * total,
                nv == vals@.map_values(|v: u16| v as nat),
                i <= total,
                data@ == sample_colors(nv, i as nat),
            decreases total - i,
        {
            data.push([vals[3 * i], vals[3 * i + 1], vals[3 * i + 2]]);
            i = i + 1;
            assert(data@ =~= sample_colors(nv, i as nat));
        }
        Ok(RgbData::U16(data))
    } else {
        let mut data: Vec<[u8; 3]> = Vec::new();
        let mut i: usize = 0;
        while i < total
            invariant
                6 * total <= usize::MAX,
                vals@.len() == 3 * total,
                nv == vals@.map_values(|v: u16| v as nat),
                forall|j: int| 0 <= j < vals@.len() ==> vals@[j] <= 255,
                i <= total,
                data@ == sample_colors(nv, i as nat).map_values(
                    |c: [u16; 3]| [c[0] as u8, c[1] as u8, c[2] as u8],
                ),
            decreases total - i,
        {
            data.push([vals[3 * i] as u8, vals[3 * i + 1] as u8, vals[3 * i + 2] as u8]);
            i = i + 1;
            assert(data@ =~= sample_colors(nv, i as nat).map_values(
                |c: [u16; 3]| [c[0] as u8, c[1] as u8, c[2] as u8],
            ));
        }
        Ok(RgbData::U8(data))
    }
}

/// Reads P6 data: three bytes per 8-bit color, six per 16-bit color
/// (big-endian samples).
pub fn read_ppm_binary(input: &[u8], wide: bool, width: usize, height: usize) -> (r: PnmResult<RgbData>)
    requires
        6 * (width * height) <= usize::MAX,
    ensures
        rgb_result(ppm_binary_view(input@, wide, width as nat, height as nat), r),
{
    let total = width * height;
    if !wide {
        if input.len() < 3 * total {
            return Err(PnmError::Io(crate::bindings::unexpected_eof_error()));
        }
        let data = crate::bindings::rgb8_from_bytes(&input[0..3 * total]);
        proof {
            let s = input@.subrange(0, 3 * total as int);
            assert forall|i: int| 0 <= i < total implies #[trigger] data@[i] == rgb8_colors(input@, total as nat)[i] by {
                assert(data@[i][0] == s[3 * i + 0]);
                assert(data@[i][1] == s[3 * i + 1]);
                assert(data@[i][2] == s[3 * i + 2]);
                assert(data@[i] =~= [s[3 * i], s[3 * i + 1], s[3 * i + 2]]);
            }
            assert(data@ =~= rgb8_colors(input@, total as nat));
        }
        Ok(RgbData::U8(data))
    } else {
        if input.len() < 6 * total {
            return Err(PnmError::Io(crate::bindings::unexpected_eof_error()));
        }
        let samples = read_be16(input, 3 * total);
        let mut data: Vec<[u16; 3]> = Vec::new();
        let mut i: usize = 0;
        while i < total
            invariant
                6 * total <= usize::MAX,
                samples@.len() == 3 * total,
                samples@ == be16_values(input@, (3 * total) as nat),
                6 * total <= input@.len(),
                i <= total,
                data@ == rgb16_be_colors(input@, i as nat),
            decreases total - i,
        {
            data.push([samples[3 * i], samples[3 * i + 1], samples[3 * i + 2]]);
            i = i + 1;
            assert(data@ =~= rgb16_be_colors(input@, i as nat));
        }
        Ok(RgbData::U16(data))
    }
}

} // verus!
