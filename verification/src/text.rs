//! Decimal numerals, Unicode whitespace and the string pieces that the PNM
//! header and the error messages are made of.

use vstd::prelude::*;
use vstd::string::StringExecFns;

verus! {

broadcast use vstd::string::group_string_axioms;

/// The character of a decimal digit.
pub open spec fn digit_char(d: int) -> char {
    if d == 0 { '0' } else if d == 1 { '1' } else if d == 2 { '2' } else if d == 3 { '3' }
    else if d == 4 { '4' } else if d == 5 { '5' } else if d == 6 { '6' } else if d == 7 { '7' }
    else if d == 8 { '8' } else { '9' }
}

/// The decimal numeral of `n`, without sign or leading zeros, as `Display` writes it.
pub open spec fn decimal(n: nat) -> Seq<char>
    decreases n,
{
    if n < 10 {
        seq![digit_char(n as int)]
    } else {
        decimal(n / 10).push(digit_char((n % 10) as int))
    }
}

/// The bytes of an ASCII character sequence.
pub open spec fn ascii_bytes(s: Seq<char>) -> Seq<u8> {
    s.map_values(|c: char| c as u8)
}

/// The bytes of the decimal numeral of `n`.
pub open spec fn decimal_bytes(n: nat) -> Seq<u8> {
    ascii_bytes(decimal(n))
}

fn digit_str(d: usize) -> (r: &'static str)
    requires
        d < 10,
    ensures
        r@ == seq![digit_char(d as int)],
{
    proof {
        reveal_strlit("0"); reveal_strlit("1"); reveal_strlit("2"); reveal_strlit("3");
        reveal_strlit("4"); reveal_strlit("5"); reveal_strlit("6"); reveal_strlit("7");
        reveal_strlit("8"); reveal_strlit("9");
    }
    if d == 0 { "0" } else if d == 1 { "1" } else if d == 2 { "2" } else if d == 3 { "3" }
    else if d == 4 { "4" } else if d == 5 { "5" } else if d == 6 { "6" } else if d == 7 { "7" }
    else if d == 8 { "8" } else { "9" }
}

/// Appends the decimal numeral of `n` to `s`.
pub fn push_decimal(s: &mut String, n: usize)
    ensures
        final(s)@ == old(s)@ + decimal(n as nat),
    decreases n,
{
    if n < 10 {
        s.append(digit_str(n));
    } else {
        push_decimal(s, n / 10);
        s.append(digit_str(n % 10));
        assert(decimal(n as nat) == decimal((n / 10) as nat).push(digit_char((n % 10) as int)));
    }
}

/// Appends the bytes of the decimal numeral of `n` to `out`.
pub fn push_decimal_bytes(out: &mut Vec<u8>, n: usize)
    ensures
        final(out)@ == old(out)@ + decimal_bytes(n as nat),
    decreases n,
{
    if n < 10 {
        out.push((48 + n) as u8);
        assert(decimal_bytes(n as nat) =~= seq![(48 + n) as u8]);
    } else {
        push_decimal_bytes(out, n / 10);
        out.push((48 + n % 10) as u8);
        assert(decimal_bytes(n as nat) =~= decimal_bytes((n / 10) as nat).push((48 + n % 10) as u8));
    }
}

} // verus!

verus! {

/// Appends the bytes of `s` to `out`.
pub fn push_bytes(out: &mut Vec<u8>, s: &[u8])
    ensures
        final(out)@ == old(out)@ + s@,
{
    let ghost start = out@;
    for i in 0..s.len()
        invariant
            out@ == start + s@.take(i as int),
    {
        out.push(s[i]);
        assert(out@ =~= start + s@.take(i + 1));
    }
    assert(s@.take(s@.len() as int) =~= s@);
}

} // verus!

verus! {

/// `char::is_whitespace`: the Unicode `White_Space` characters.
pub open spec fn is_ws(c: char) -> bool {
    ('\u{9}' <= c && c <= '\u{d}') || c == ' ' || c == '\u{85}' || c == '\u{a0}' || c == '\u{1680}'
        || ('\u{2000}' <= c && c <= '\u{200a}') || c == '\u{2028}' || c == '\u{2029}' || c
        == '\u{202f}' || c == '\u{205f}' || c == '\u{3000}'
}

/// Whether `c` is white space, as `char::is_whitespace` decides.
pub fn is_whitespace(c: char) -> (r: bool)
    ensures
        r == is_ws(c),
{
    ('\u{9}' <= c && c <= '\u{d}') || c == ' ' || c == '\u{85}' || c == '\u{a0}' || c == '\u{1680}'
        || ('\u{2000}' <= c && c <= '\u{200a}') || c == '\u{2028}' || c == '\u{2029}' || c
        == '\u{202f}' || c == '\u{205f}' || c == '\u{3000}'
}

/// The first index at or after `i`, and not past `hi`, that holds no white space.
pub open spec fn skip_ws_fwd(s: Seq<char>, i: int, hi: int) -> int
    decreases hi - i,
{
    if i < hi && is_ws(s[i]) {
        skip_ws_fwd(s, i + 1, hi)
    } else {
        i
    }
}

/// The index after the last character before `j`, and not before `lo`, that
/// is not white space.
pub open spec fn skip_ws_bwd(s: Seq<char>, lo: int, j: int) -> int
    decreases j - lo,
{
    if lo < j && is_ws(s[j - 1]) {
        skip_ws_bwd(s, lo, j - 1)
    } else {
        j
    }
}

/// Start of `s[lo..hi]` with white space trimmed from both ends.
pub open spec fn trim_lo(s: Seq<char>, lo: int, hi: int) -> int {
    skip_ws_fwd(s, lo, hi)
}

/// End of `s[lo..hi]` with white space trimmed from both ends.
pub open spec fn trim_hi(s: Seq<char>, lo: int, hi: int) -> int {
    skip_ws_bwd(s, skip_ws_fwd(s, lo, hi), hi)
}

/// `str::trim`: `s` without leading and trailing white space.
pub open spec fn trim(s: Seq<char>) -> Seq<char> {
    s.subrange(trim_lo(s, 0, s.len() as int), trim_hi(s, 0, s.len() as int))
}

pub proof fn lemma_skip_fwd_bounds(s: Seq<char>, i: int, hi: int)
    requires
        i <= hi,
    ensures
        i <= skip_ws_fwd(s, i, hi) <= hi,
    decreases hi - i,
{
    if i < hi && is_ws(s[i]) {
        lemma_skip_fwd_bounds(s, i + 1, hi);
    }
}

pub proof fn lemma_skip_bwd_bounds(s: Seq<char>, lo: int, j: int)
    requires
        lo <= j,
    ensures
        lo <= skip_ws_bwd(s, lo, j) <= j,
    decreases j - lo,
{
    if lo < j && is_ws(s[j - 1]) {
        lemma_skip_bwd_bounds(s, lo, j - 1);
    }
}

pub proof fn lemma_trim_bounds(s: Seq<char>, lo: int, hi: int)
    requires
        lo <= hi,
    ensures
        lo <= trim_lo(s, lo, hi) <= trim_hi(s, lo, hi) <= hi,
{
    lemma_skip_fwd_bounds(s, lo, hi);
    lemma_skip_bwd_bounds(s, skip_ws_fwd(s, lo, hi), hi);
}

/// The bounds of `s[lo..hi]` trimmed of white space at both ends.
pub fn trim_bounds(s: &Vec<char>, lo: usize, hi: usize) -> (r: (usize, usize))
    requires
        lo <= hi <= s@.len(),
    ensures
        r.0 == trim_lo(s@, lo as int, hi as int),
        r.1 == trim_hi(s@, lo as int, hi as int),
        lo <= r.0 <= r.1 <= hi,
{
    let mut a = lo;
    while a < hi && is_whitespace(s[a])
        invariant
            lo <= a <= hi <= s@.len(),
            skip_ws_fwd(s@, a as int, hi as int) == skip_ws_fwd(s@, lo as int, hi as int),
        decreases hi - a,
    {
        a = a + 1;
    }
    let mut b = hi;
    while b > a && is_whitespace(s[b - 1])
        invariant
            lo <= a <= b <= hi <= s@.len(),
            a == skip_ws_fwd(s@, lo as int, hi as int),
            skip_ws_bwd(s@, a as int, b as int) == skip_ws_bwd(s@, a as int, hi as int),
        decreases b - a,
    {
        b = b - 1;
    }
    (a, b)
}

/// The token ranges of `s[i..hi]` found by scanning on from state
/// `start` (the start of the token under way, if any) with `acc` found so far.
pub open spec fn scan_tokens(s: Seq<char>, i: int, hi: int, start: Option<int>, acc: Seq<(int, int)>) -> Seq<(int, int)>
    decreases hi - i,
{
    if i >= hi {
        match start {
            Some(a) => acc.push((a, hi)),
            None => acc,
        }
    } else if is_ws(s[i]) {
        scan_tokens(
            s,
            i + 1,
            hi,
            None,
            match start {
                Some(a) => acc.push((a, i)),
                None => acc,
            },
        )
    } else {
        scan_tokens(
            s,
            i + 1,
            hi,
            match start {
                Some(a) => Some(a),
                None => Some(i),
            },
            acc,
        )
    }
}

/// `str::split_whitespace` on `s[lo..hi]`: the ranges of its maximal runs
/// of characters that are not white space.
pub open spec fn token_ranges(s: Seq<char>, lo: int, hi: int) -> Seq<(int, int)> {
    scan_tokens(s, lo, hi, None, Seq::empty())
}

/// The tokens of `s[lo..hi]`.
pub open spec fn tokens(s: Seq<char>, lo: int, hi: int) -> Seq<Seq<char>> {
    token_ranges(s, lo, hi).map_values(|r: (int, int)| s.subrange(r.0, r.1))
}

/// The token ranges of `s[lo..hi]`, as `str::split_whitespace` finds them.
pub fn split_ws(s: &Vec<char>, lo: usize, hi: usize) -> (r: Vec<(usize, usize)>)
    requires
        lo <= hi <= s@.len(),
    ensures
        r@.map_values(|p: (usize, usize)| (p.0 as int, p.1 as int)) == token_ranges(s@, lo as int, hi as int),
        forall|k: int| 0 <= k < r@.len() ==> lo <= #[trigger] r@[k].0 <= r@[k].1 <= hi,
{
    let mut out: Vec<(usize, usize)> = Vec::new();
    let mut start: Option<usize> = None;
    let mut i = lo;
    assert(out@.map_values(|p: (usize, usize)| (p.0 as int, p.1 as int)) =~= Seq::<(int, int)>::empty());
    while i < hi
        invariant
            lo <= i <= hi <= s@.len(),
            start matches Some(a) ==> lo <= a <= i,
            forall|k: int| 0 <= k < out@.len() ==> lo <= #[trigger] out@[k].0 <= out@[k].1 <= hi,
            scan_tokens(
                s@,
                i as int,
                hi as int,
                match start {
                    Some(a) => Some(a as int),
                    None => None,
                },
                out@.map_values(|p: (usize, usize)| (p.0 as int, p.1 as int)),
            ) == token_ranges(s@, lo as int, hi as int),
        decreases hi - i,
    {
        if is_whitespace(s[i]) {
            if let Some(a) = start {
                let ghost before = out@;
                out.push((a, i));
                assert(out@.map_values(|p: (usize, usize)| (p.0 as int, p.1 as int)) =~= before.map_values(
                    |p: (usize, usize)| (p.0 as int, p.1 as int),
                ).push((a as int, i as int)));
            }
            start = None;
        } else if start.is_none() {
            start = Some(i);
        }
        i = i + 1;
    }
    if let Some(a) = start {
        let ghost before = out@;
        out.push((a, hi));
        assert(out@.map_values(|p: (usize, usize)| (p.0 as int, p.1 as int)) =~= before.map_values(
            |p: (usize, usize)| (p.0 as int, p.1 as int),
        ).push((a as int, hi as int)));
    }
    out
}

/// The characters of `s`.
pub fn chars_of(s: &str) -> (r: Vec<char>)
    ensures
        r@ == s@,
{
    let mut v: Vec<char> = Vec::new();
    for c in it: s.chars()
        invariant
            v@ == it.seq().take(it.index() as int),
    {
        v.push(c);
    }
    v
}

/// An ASCII decimal digit.
pub open spec fn is_digit(c: char) -> bool {
    '0' <= c && c <= '9'
}

/// The number that the decimal digits `s` spell.
pub open spec fn digits_value(s: Seq<char>) -> nat
    decreases s.len(),
{
    if s.len() == 0 {
        0
    } else {
        digits_value(s.drop_last()) * 10 + ((s.last() as int) - 48) as nat
    }
}

/// The digits of an unsigned numeral: without one leading `+` when more follows.
pub open spec fn unsigned_digits(s: Seq<char>) -> Seq<char> {
    if s.len() > 1 && s[0] == '+' {
        s.drop_first()
    } else {
        s
    }
}

/// Whether `str::parse` of an unsigned integer type whose maximum is `max`
/// accepts `s`: an optional `+`, then at least one ASCII digit and nothing
/// else, of a value up to `max`.
pub open spec fn parses_unsigned(s: Seq<char>, max: nat) -> bool {
    let d = unsigned_digits(s);
    &&& d.len() > 0
    &&& forall|i: int| 0 <= i < d.len() ==> is_digit(#[trigger] d[i])
    &&& digits_value(d) <= max
}

/// The value that `str::parse` gives for `s`.
pub open spec fn unsigned_value(s: Seq<char>) -> nat {
    digits_value(unsigned_digits(s))
}

} // verus!

verus! {

/// Scanning finds at most one token per character.
pub proof fn lemma_scan_count(s: Seq<char>, i: int, hi: int, start: Option<int>, acc: Seq<(int, int)>)
    requires
        i <= hi,
    ensures
        scan_tokens(s, i, hi, start, acc).len() <= acc.len() + (hi - i) + if start is Some { 1int } else { 0 },
    decreases hi - i,
{
    if i >= hi {
    } else if is_ws(s[i]) {
        let acc2 = match start {
            Some(a) => acc.push((a, i)),
            None => acc,
        };
        lemma_scan_count(s, i + 1, hi, None, acc2);
    } else {
        let st = match start {
            Some(a) => Some(a),
            None => Some(i),
        };
        lemma_scan_count(s, i + 1, hi, st, acc);
    }
}

/// The UTF-8 encoding of `chars` has at least one byte per character.
pub proof fn lemma_encode_len(chars: Seq<char>)
    ensures
        vstd::utf8::encode_utf8(chars).len() >= chars.len(),
    decreases chars.len(),
{
    if chars.len() > 0 {
        lemma_encode_len(chars.drop_first());
    }
}

} // verus!
