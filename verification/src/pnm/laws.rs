//! Properties that span several operations: what a read gives back after a
//! write, what a write leaves alone, and how the kinds partition.

use vstd::prelude::*;
use super::buf::PnmBuf;
use super::content::{PnmContent, PnmKindTrait};
use super::data::PnmPixelData;
use super::image::Pnm;
use super::kind::PnmKind;
use super::pixel::PnmPixel;
use super::maxval::MaxValue;
use super::error::PnmResult;
use super::iter::enumerated;

verus! {

/// Two distinct points inside a row of `width` have distinct row-major
/// indices.
proof fn lemma_index_injective(width: nat, x1: nat, y1: nat, x2: nat, y2: nat)
    requires
        x1 < width,
        x2 < width,
        x1 != x2 || y1 != y2,
    ensures
        y1 * width + x1 != y2 * width + x2,
{
    if y1 == y2 {
    } else if y1 < y2 {
        assert(y1 * width + width <= y2 * width) by (nonlinear_arith)
            requires y1 < y2;
    } else {
        assert(y2 * width + width <= y1 * width) by (nonlinear_arith)
            requires y2 < y1;
    }
}

/// After a successful `set_pixel_at(index, pixel)` on a pixel storage,
/// `pixel_at(index)` gives back `pixel`, every other index gives what it gave
/// before, and the length is unchanged.
pub proof fn law_pixel_at_after_set_pixel_at<D: PnmPixelData>(
    before: D,
    after: D,
    index: nat,
    pixel: D::Pixel,
)
    requires
        index < before.pixel_seq().len(),
        after.pixel_seq() == before.pixel_seq().update(index as int, pixel),
    ensures
        after.pixel_seq().len() == before.pixel_seq().len(),
        after.pixel_seq()[index as int] == pixel,
        forall|j: int|
            0 <= j < before.pixel_seq().len() && j != index ==> #[trigger] after.pixel_seq()[j]
                == before.pixel_seq()[j],
{
}

/// After a successful `set_pixel(x, y, pixel)` on a buffer, `pixel(x, y)`
/// gives back `pixel`, and every other point reads as before.
pub proof fn law_buf_pixel_after_set_pixel<T: PnmKindTrait>(
    before: PnmBuf<T>,
    after: PnmBuf<T>,
    x: nat,
    y: nat,
    pixel: <<T::Content as PnmContent>::DataType as PnmPixelData>::Pixel,
)
    requires
        before.spec_contains(x, y),
        before.spec_index(x, y) < before.data.pixel_seq().len(),
        after.width == before.width,
        after.height == before.height,
        after.data.pixel_seq() == before.data.pixel_seq().update(
            before.spec_index(x, y) as int,
            pixel,
        ),
    ensures
        after.spec_pixel(x, y) == Some(pixel),
        forall|x2: nat, y2: nat|
            (x2 != x || y2 != y) ==> #[trigger] after.spec_pixel(x2, y2) == before.spec_pixel(
                x2,
                y2,
            ),
{
    assert forall|x2: nat, y2: nat| (x2 != x || y2 != y) implies #[trigger] after.spec_pixel(
        x2,
        y2,
    ) == before.spec_pixel(x2, y2) by {
        if before.spec_contains(x2, y2) {
            lemma_index_injective(before.width as nat, x, y, x2, y2);
        }
    }
}

/// After a successful `set_pixel(x, y, pixel)` on an image, `pixel(x, y)`
/// gives back `pixel`, and every other point reads as before.
pub proof fn law_pnm_pixel_after_set_pixel(before: Pnm, after: Pnm, x: nat, y: nat, pixel: PnmPixel)
    requires
        x < before.spec_width(),
        y < before.spec_height(),
        y * (before.spec_width() as nat) + x < before.spec_pixels().len(),
        after.spec_width() == before.spec_width(),
        after.spec_height() == before.spec_height(),
        after.spec_pixels() == before.spec_pixels().update(
            (y * (before.spec_width() as nat) + x) as int,
            pixel,
        ),
    ensures
        after.spec_pixel(x, y) == Some(pixel),
        forall|x2: nat, y2: nat|
            (x2 != x || y2 != y) ==> #[trigger] after.spec_pixel(x2, y2) == before.spec_pixel(
                x2,
                y2,
            ),
{
    assert forall|x2: nat, y2: nat| (x2 != x || y2 != y) implies #[trigger] after.spec_pixel(
        x2,
        y2,
    ) == before.spec_pixel(x2, y2) by {
        if x2 < before.spec_width() && y2 < before.spec_height() {
            lemma_index_injective(before.spec_width() as nat, x, y, x2, y2);
        }
    }
}

/// Every kind is either ASCII or binary, and of exactly one of the three
/// formats; its file extension names that format.
pub proof fn law_kind_partition(k: PnmKind)
    ensures
        k.spec_is_pbm() || k.spec_is_pgm() || k.spec_is_ppm(),
        !(k.spec_is_pbm() && k.spec_is_pgm()),
        !(k.spec_is_pbm() && k.spec_is_ppm()),
        !(k.spec_is_pgm() && k.spec_is_ppm()),
        k.spec_is_pbm() ==> k.extension_name() == "pbm"@,
        k.spec_is_pgm() ==> k.extension_name() == "pgm"@,
        k.spec_is_ppm() ==> k.extension_name() == "ppm"@,
{
}

/// Parsing the magic name of a kind gives back that kind.
pub proof fn law_kind_name_round_trip(k: PnmKind)
    ensures
        PnmKind::from_name_spec(k.name()) == Some(k),
{
}

/// Each item `(x, y, v)` that `enumerate_pixels` gives for the `k`-th
/// pixel names the point of index `k`, and `pixel(x, y)` there gives `v`.
pub proof fn law_enumerate_pixels_match_pixel(p: Pnm, k: int)
    requires
        p.spec_width() > 0,
        p.spec_pixels().len() <= p.spec_width() * p.spec_height(),
        0 <= k < p.spec_pixels().len(),
    ensures
        ({
            let (x, y, v) = enumerated(p.spec_width(), p.spec_pixels(), 0)[k];
            &&& v == p.spec_pixels()[k]
            &&& y * (p.spec_width() as nat) + x == k
            &&& p.spec_pixel(x as nat, y as nat) == Some(v)
        }),
{
    let w = p.spec_width() as int;
    let h = p.spec_height() as int;
    let x = k % w;
    let y = k / w;
    assert(0 <= x < w);
    assert(y * w + x == k) by {
        vstd::arithmetic::div_mod::lemma_fundamental_div_mod(k, w);
        assert(w * (k / w) == (k / w) * w) by (nonlinear_arith);
    }
    assert(0 <= y);
    assert(y < h) by {
        if y >= h {
            assert(y * w >= h * w) by (nonlinear_arith)
                requires y >= h, w > 0;
            assert(h * w == w * h) by (nonlinear_arith);
        }
    }
    assert(x as usize as int == x);
    assert(y as usize as int == y);
}

/// `pixel_index` is row-major: the index of a point inside the image is
/// `y * width + x`, below `width * height`, and two distinct points inside the
/// image have distinct indices.
pub proof fn law_pixel_index_row_major(p: Pnm, x: nat, y: nat, x2: nat, y2: nat)
    ensures
        x < p.spec_width() && y < p.spec_height() ==> y * (p.spec_width() as nat) + x < p.spec_width()
            * p.spec_height(),
        x < p.spec_width() && y < p.spec_height() && x2 < p.spec_width() && y2 < p.spec_height() && (x
            != x2 || y != y2) ==> y * (p.spec_width() as nat) + x != y2 * (p.spec_width() as nat) + x2,
{
    let w = p.spec_width() as nat;
    let h = p.spec_height() as nat;
    if x < w && y < h {
        assert(y * w + w <= h * w) by (nonlinear_arith)
            requires y < h;
        assert(h * w == w * h) by (nonlinear_arith);
        if x2 < w && y2 < h && (x != x2 || y != y2) {
            lemma_index_injective(w, x, y, x2, y2);
        }
    }
}

/// Whether a graymap's or pixmap's storage holds 16-bit samples.
pub open spec fn wide_samples(p: Pnm) -> bool {
    match p {
        Pnm::AsciiPgm(b) => b.data is U16,
        Pnm::BinaryPgm(b) => b.data is U16,
        Pnm::AsciiPpm(b) => b.data is U16,
        Pnm::BinaryPpm(b) => b.data is U16,
        _ => false,
    }
}

/// On a graymap with sample maximum `m`, `set_pixel` of a gray value `v`
/// succeeds only when `v <= m`; at a point inside the image, a value above
/// `m` is refused and leaves the pixels as they were, and a value up to `m`
/// (the maximum itself included) that the storage can hold is stored, so
/// that `pixel(x, y)` then gives it.
pub proof fn law_gray_set_pixel_max(
    p: Pnm,
    after: Pnm,
    m: MaxValue,
    x: nat,
    y: nat,
    v: u16,
    r: PnmResult<()>,
)
    requires
        p.spec_kind().spec_is_pgm(),
        p.spec_max_val() == Some(m),
        p.set_pixel_result(after, x, y, PnmPixel::Gray(v), r),
    ensures
        r is Ok ==> v <= m@,
        x < p.spec_width() && y < p.spec_height() && v > m@ ==> r is Err && after.spec_pixels()
            == p.spec_pixels(),
        x < p.spec_width() && y < p.spec_height() && y * (p.spec_width() as nat) + x
            < p.spec_pixels().len() && v <= m@ && (v <= 255 || wide_samples(p)) ==> r is Ok
            && after.spec_pixel(x, y) == Some(PnmPixel::Gray(v)),
{
    if x < p.spec_width() && y < p.spec_height() && y * (p.spec_width() as nat) + x
        < p.spec_pixels().len() && v <= m@ && (v <= 255 || wide_samples(p)) {
        let i = y * (p.spec_width() as nat) + x;
        assert(after.spec_pixels()[i as int] == PnmPixel::Gray(v));
    }
}

/// On a pixmap with sample maximum `m`, `set_pixel` of a color succeeds only
/// when each of its three channels is at most `m`; at a point inside the
/// image, a color with any channel above `m` is refused and leaves the pixels
/// as they were, and a color whose channels are all at most `m` and that the
/// storage can hold is stored, so that `pixel(x, y)` then gives it.
pub proof fn law_rgb_set_pixel_max(
    p: Pnm,
    after: Pnm,
    m: MaxValue,
    x: nat,
    y: nat,
    c: [u16; 3],
    r: PnmResult<()>,
)
    requires
        p.spec_kind().spec_is_ppm(),
        p.spec_max_val() == Some(m),
        p.set_pixel_result(after, x, y, PnmPixel::Rgb(c), r),
    ensures
        r is Ok ==> c[0] <= m@ && c[1] <= m@ && c[2] <= m@,
        x < p.spec_width() && y < p.spec_height() && (c[0] > m@ || c[1] > m@ || c[2] > m@) ==> r is Err
            && after.spec_pixels() == p.spec_pixels(),
        x < p.spec_width() && y < p.spec_height() && y * (p.spec_width() as nat) + x
            < p.spec_pixels().len() && c[0] <= m@ && c[1] <= m@ && c[2] <= m@ && ((c[0] <= 255
            && c[1] <= 255 && c[2] <= 255) || wide_samples(p)) ==> r is Ok && after.spec_pixel(x, y)
            == Some(PnmPixel::Rgb(c)),
{
    if x < p.spec_width() && y < p.spec_height() && y * (p.spec_width() as nat) + x
        < p.spec_pixels().len() && c[0] <= m@ && c[1] <= m@ && c[2] <= m@ && ((c[0] <= 255
        && c[1] <= 255 && c[2] <= 255) || wide_samples(p)) {
        let i = y * (p.spec_width() as nat) + x;
        assert(after.spec_pixels()[i as int] == PnmPixel::Rgb(c));
    }
}

} // verus!
