//! Byte-level conversions between the pixel layouts that the blur reads and writes:
//! 3-channel rows widened to opaque RGBA, and GPU read-back rows stripped of their padding.

use vstd::prelude::*;
use vstd::arithmetic::div_mod::{lemma_fundamental_div_mod, lemma_mod_pos_bound, lemma_multiply_divide_lt, lemma_div_pos_is_pos};
use vstd::arithmetic::mul::lemma_mul_is_commutative;

verus! {

/// Byte `j` of the RGBA image widened from the packed RGB bytes `rgb`: pixel `j / 4` keeps
/// its three colour bytes and becomes fully opaque when `rgb` holds all three of its bytes;
/// a pixel that `rgb` does not cover stays zero.
pub open spec fn rgba_byte_from_rgb(rgb: Seq<u8>, j: int) -> u8 {
    let p = j / 4;
    let k = j % 4;
    if 3 * p + 3 <= rgb.len() {
        if k < 3 { rgb[3 * p + k] } else { 255u8 }
    } else {
        0u8
    }
}

/// Byte `k` of pixel `p` of a packed image with `channels` bytes per pixel.
pub open spec fn pixel_byte(s: Seq<u8>, channels: int, p: int, k: int) -> u8 {
    s[channels * p + k]
}

/// Widens packed RGB rows of an image `width` pixels wide and `height` rows high to RGBA,
/// with alpha 255 for every pixel whose colour is present in `rgb`.
pub fn rgb_to_rgba(rgb: &[u8], width: u32, height: u32) -> (rgba: Vec<u8>)
    requires
        width > 0,
        4 * (width as int) * (height as int) <= u32::MAX,
    ensures
        rgba@.len() == 4 * (width as int) * (height as int),
        forall|j: int| 0 <= j < rgba@.len() ==> #[trigger] rgba@[j] == rgba_byte_from_rgb(rgb@, j),
        forall|p: int, k: int| 0 <= p < (width as int) * (height as int) && 0 <= k < 3 && 3 * p + 3 <= rgb@.len()
            ==> #[trigger] pixel_byte(rgba@, 4, p, k) == pixel_byte(rgb@, 3, p, k),
        forall|p: int| 0 <= p < (width as int) * (height as int) && 3 * p + 3 <= rgb@.len()
            ==> #[trigger] pixel_byte(rgba@, 4, p, 3) == 255u8,
        forall|p: int, k: int| 0 <= p < (width as int) * (height as int) && 0 <= k < 4 && 3 * p + 3 > rgb@.len()
            ==> #[trigger] pixel_byte(rgba@, 4, p, k) == 0u8,
{
    assert(4 * ((width as int) * (height as int)) == 4 * (width as int) * (height as int))
        by (nonlinear_arith);
    let n_pixels: usize = (width as usize) * (height as usize);
    let mut rgba: Vec<u8> = Vec::new();
    let mut p: usize = 0;
    let mut src: usize = 0;
    while p < n_pixels
        invariant
            n_pixels == (width as int) * (height as int),
            4 * n_pixels <= u32::MAX,
            p <= n_pixels,
            src == 3 * p,
            rgba@.len() == 4 * p,
            forall|j: int| 0 <= j < rgba@.len() ==> #[trigger] rgba@[j] == rgba_byte_from_rgb(rgb@, j),
        decreases n_pixels - p,
    {
        let ghost before = rgba@;
        if src + 3 <= rgb.len() {
            rgba.push(rgb[src]);
            rgba.push(rgb[src + 1]);
            rgba.push(rgb[src + 2]);
            rgba.push(255u8);
        } else {
            rgba.push(0u8);
            rgba.push(0u8);
            rgba.push(0u8);
            rgba.push(0u8);
        }
        assert forall|j: int| 0 <= j < rgba@.len() implies #[trigger] rgba@[j] == rgba_byte_from_rgb(rgb@, j) by {
            if j < 4 * p {
                assert(rgba@[j] == before[j]);
            } else {
                assert(j / 4 == p as int);
                assert(j % 4 == j - 4 * p);
            }
        }
        p = p + 1;
        src = src + 3;
    }
    proof {
        assert forall|q: int, k: int| 0 <= q < n_pixels && 0 <= k < 4 implies
            #[trigger] pixel_byte(rgba@, 4, q, k) == rgba_byte_from_rgb(rgb@, 4 * q + k) by {
            assert(4 * q + k < 4 * n_pixels);
        }
        assert forall|q: int, k: int| 0 <= q < n_pixels && 0 <= k < 3 && 3 * q + 3 <= rgb@.len() implies
            #[trigger] pixel_byte(rgba@, 4, q, k) == pixel_byte(rgb@, 3, q, k) by {
            lemma_rgba_keeps_colour(rgb@, q, k);
            assert(pixel_byte(rgba@, 4, q, k) == rgba_byte_from_rgb(rgb@, 4 * q + k));
        }
        assert forall|q: int| 0 <= q < n_pixels && 3 * q + 3 <= rgb@.len() implies
            #[trigger] pixel_byte(rgba@, 4, q, 3) == 255u8 by {
            lemma_rgba_keeps_colour(rgb@, q, 0);
            assert(pixel_byte(rgba@, 4, q, 3) == rgba_byte_from_rgb(rgb@, 4 * q + 3));
        }
        assert forall|q: int, k: int| 0 <= q < n_pixels && 0 <= k < 4 && 3 * q + 3 > rgb@.len() implies
            #[trigger] pixel_byte(rgba@, 4, q, k) == 0u8 by {
            assert((4 * q + k) / 4 == q) by (nonlinear_arith)
                requires
                    0 <= k < 4,
                    0 <= q,
            ;
            assert(pixel_byte(rgba@, 4, q, k) == rgba_byte_from_rgb(rgb@, 4 * q + k));
        }
    }
    rgba
}


/// Row `r` of a byte image whose rows start every `stride` bytes and are `len` bytes long.
pub open spec fn row_slice(s: Seq<u8>, stride: int, len: int, r: int) -> Seq<u8> {
    s.subrange(r * stride, r * stride + len)
}

/// `n` zero bytes.
pub open spec fn zeros(n: nat) -> Seq<u8> {
    Seq::new(n, |i: int| 0u8)
}

/// Every row of the padded read-back that `mapped` begins (row `r` begins when
/// `r * padded < mapped.len()`) holds at least `row_bytes` bytes.
pub open spec fn rows_complete(len: nat, padded: nat, row_bytes: nat, height: nat) -> bool {
    forall|r: nat| r < height && #[trigger] row_start(r, padded) < len ==> len - row_start(r, padded) >= row_bytes
}

/// Offset of row `r` in a layout whose rows start every `stride` bytes.
pub open spec fn row_start(r: nat, stride: nat) -> nat {
    r * stride
}

/// Row `r` of the image recovered from a padded read-back: the first `row_bytes` bytes of
/// padded row `r` when the read-back reaches that row, zeros otherwise.
pub open spec fn unpadded_row(mapped: Seq<u8>, padded: nat, row_bytes: nat, r: int) -> Seq<u8> {
    if r * padded < mapped.len() {
        row_slice(mapped, padded as int, row_bytes as int, r)
    } else {
        zeros(row_bytes)
    }
}

proof fn lemma_row_before(q: int, r: int, row: int)
    requires
        0 <= q < r,
        0 <= row,
    ensures
        q * row + row <= r * row,
{
    assert(q * row + row <= r * row) by (nonlinear_arith)
        requires
            0 <= q < r,
            0 <= row,
    ;
}

fn push_slice(out: &mut Vec<u8>, data: &[u8], start: usize, len: usize)
    requires
        start + len <= data@.len(),
    ensures
        final(out)@ == old(out)@ + data@.subrange(start as int, start + len),
{
    let mut i: usize = 0;
    assert(data@.len() == data.len());
    while i < len
        invariant
            data@.len() == data.len(),
            start + len <= data@.len(),
            i <= len,
            out@ == old(out)@ + data@.subrange(start as int, start + i),
        decreases len - i,
    {
        out.push(data[start + i]);
        assert(data@.subrange(start as int, start + i + 1) == data@.subrange(start as int, start + i).push(data@[start + i]));
        i = i + 1;
    }
}

fn push_zeros(out: &mut Vec<u8>, n: usize)
    ensures
        final(out)@ == old(out)@ + zeros(n as nat),
{
    let mut i: usize = 0;
    while i < n
        invariant
            i <= n,
            out@ == old(out)@ + zeros(i as nat),
        decreases n - i,
    {
        out.push(0u8);
        assert(zeros((i + 1) as nat) == zeros(i as nat).push(0u8));
        i = i + 1;
    }
}

/// The image that `unpad_rows` recovers from a read-back: the read-back itself when its
/// rows carry no padding, otherwise `height` rows of `4 * width` bytes, row `r` being
/// `unpadded_row(mapped, padded, 4 * width, r)`.
pub open spec fn unpadded_image(mapped: Seq<u8>, width: u32, height: u32, padded: u32) -> Seq<u8> {
    let row = 4 * width as int;
    if padded == row {
        mapped
    } else {
        Seq::new((row * height) as nat, |j: int| unpadded_row(mapped, padded as nat, row as nat, j / row)[j % row])
    }
}

/// A byte image is determined by its rows.
pub proof fn lemma_rows_determine(s: Seq<u8>, row: int, height: int, rows: spec_fn(int) -> Seq<u8>)
    requires
        row > 0,
        height >= 0,
        s.len() == row * height,
        forall|r: int| 0 <= r < height ==> #[trigger] row_slice(s, row, row, r) == rows(r),
    ensures
        s == Seq::new((row * height) as nat, |j: int| rows(j / row)[j % row]),
{
    let t = Seq::new((row * height) as nat, |j: int| rows(j / row)[j % row]);
    assert forall|j: int| 0 <= j < s.len() implies s[j] == t[j] by {
        let r = j / row;
        let c = j % row;
        lemma_fundamental_div_mod(j, row);
        lemma_mod_pos_bound(j, row);
        lemma_multiply_divide_lt(j, row, height);
        lemma_div_pos_is_pos(j, row);
        lemma_mul_is_commutative(row, r);
        assert(row_slice(s, row, row, r) == rows(r));
        assert(r * row + row <= row * height) by (nonlinear_arith)
            requires
                0 <= r < height,
                row > 0,
        ;
        assert(row_slice(s, row, row, r)[c] == s[r * row + c]);
    }
    assert(s =~= t);
}

/// Strips the row padding from a texture read-back of `height` rows, each `width` RGBA
/// pixels wide and starting every `padded_width_in_bytes` bytes. When the rows are not
/// padded the read-back is returned as it is.
pub fn unpad_rows(mapped: &[u8], width: u32, height: u32, padded_width_in_bytes: u32) -> (out: Vec<u8>)
    requires
        4 * (width as int) <= u32::MAX,
        padded_width_in_bytes != 4 * width ==> {
            &&& 4 * width > 0
            &&& padded_width_in_bytes > 0
            &&& 4 * (width as int) * (height as int) <= usize::MAX
            &&& rows_complete(mapped@.len(), padded_width_in_bytes as nat, 4 * width as nat, height as nat)
        },
    ensures
        out@ == unpadded_image(mapped@, width, height, padded_width_in_bytes),
        padded_width_in_bytes == 4 * width ==> out@ == mapped@,
        padded_width_in_bytes != 4 * width ==> {
            &&& out@.len() == 4 * (width as int) * (height as int)
            &&& forall|r: int| 0 <= r < height ==>
                #[trigger] row_slice(out@, 4 * width as int, 4 * width as int, r)
                    == unpadded_row(mapped@, padded_width_in_bytes as nat, 4 * width as nat, r)
        },
{
    let row_bytes: u32 = width * 4;
    if padded_width_in_bytes == row_bytes {
        let mut out: Vec<u8> = Vec::new();
        push_slice(&mut out, mapped, 0, mapped.len());
        assert(mapped@.subrange(0, mapped@.len() as int) == mapped@);
        return out;
    }
    let ghost row = row_bytes as int;
    let ghost padded = padded_width_in_bytes as int;
    let mut out: Vec<u8> = Vec::new();
    let mut r: u32 = 0;
    let mut src: u64 = 0;
    while r < height
        invariant
            row == row_bytes,
            padded == padded_width_in_bytes,
            row > 0,
            padded > 0,
            row * (height as int) <= usize::MAX,
            rows_complete(mapped@.len(), padded as nat, row as nat, height as nat),
            r <= height,
            src == (r as int) * padded,
            out@.len() == (r as int) * row,
            forall|q: int| 0 <= q < r ==>
                #[trigger] row_slice(out@, row, row, q) == unpadded_row(mapped@, padded as nat, row as nat, q),
        decreases height - r,
    {
        let ghost before = out@;
        assert((r as int) * row + row <= row * (height as int)) by (nonlinear_arith)
            requires
                r < height,
                row > 0,
        ;
        if src < mapped.len() as u64 {
            assert(row_start(r as nat, padded as nat) < mapped@.len());
            push_slice(&mut out, mapped, src as usize, row_bytes as usize);
        } else {
            push_zeros(&mut out, row_bytes as usize);
        }
        assert forall|q: int| 0 <= q < r + 1 implies
            #[trigger] row_slice(out@, row, row, q) == unpadded_row(mapped@, padded as nat, row as nat, q) by {
            if q < r {
                lemma_row_before(q, r as int, row);
                assert(row_slice(out@, row, row, q) == row_slice(before, row, row, q));
            } else {
                assert(row_slice(out@, row, row, q) =~= out@.subrange(before.len() as int, out@.len() as int));
            }
        }
        assert(((r + 1) as int) * padded == (r as int) * padded + padded) by (nonlinear_arith);
        assert((r as int) * padded + padded <= 0xffff_ffff * 0xffff_ffff) by (nonlinear_arith)
            requires
                r < height,
                height <= 0xffff_ffff,
                padded <= 0xffff_ffff,
                padded >= 0,
        ;
        assert(((r + 1) as int) * row == (r as int) * row + row) by (nonlinear_arith);
        r = r + 1;
        src = src + padded_width_in_bytes as u64;
    }
    assert((height as int) * row == 4 * (width as int) * (height as int)) by (nonlinear_arith)
        requires
            row == 4 * width,
    ;
    proof {
        lemma_mul_is_commutative(row, height as int);
        lemma_rows_determine(out@, row, height as int, |q: int| unpadded_row(mapped@, padded as nat, row as nat, q));
    }
    out
}


/// Unpadding undoes the padding of the read-back: when the `padded`-byte rows of a
/// read-back of `height * padded` bytes begin with the `4 * width`-byte rows of `image`,
/// the recovered image is `image`.
pub proof fn lemma_unpad_recovers_image(mapped: Seq<u8>, image: Seq<u8>, width: u32, height: u32, padded: u32)
    requires
        width > 0,
        padded >= 4 * width,
        mapped.len() == (padded as int) * (height as int),
        image.len() == 4 * (width as int) * (height as int),
        forall|r: int| 0 <= r < height ==>
            #[trigger] row_slice(mapped, padded as int, 4 * width as int, r) == row_slice(image, 4 * width as int, 4 * width as int, r),
    ensures
        unpadded_image(mapped, width, height, padded) == image,
{
    let row = 4 * width as int;
    assert(image.len() == row * height) by (nonlinear_arith)
        requires
            image.len() == 4 * (width as int) * (height as int),
            row == 4 * width,
    ;
    if padded as int == row {
        lemma_rows_determine(mapped, row, height as int, |q: int| row_slice(image, row, row, q));
        lemma_rows_determine(image, row, height as int, |q: int| row_slice(image, row, row, q));
    } else {
        assert forall|r: int| 0 <= r < height implies
            #[trigger] row_slice(image, row, row, r) == unpadded_row(mapped, padded as nat, row as nat, r) by {
            assert((r as nat) * (padded as nat) < mapped.len()) by (nonlinear_arith)
                requires
                    0 <= r < height,
                    padded > 0,
                    mapped.len() == (padded as int) * (height as int),
            ;
        }
        lemma_rows_determine(image, row, height as int, |q: int| unpadded_row(mapped, padded as nat, row as nat, q));
    }
}

/// Widening keeps the colour of every pixel and makes it opaque when the RGB bytes cover
/// the whole image.
pub proof fn lemma_rgba_keeps_colour(rgb: Seq<u8>, p: int, k: int)
    requires
        0 <= p,
        3 * p + 3 <= rgb.len(),
        0 <= k < 3,
    ensures
        rgba_byte_from_rgb(rgb, 4 * p + k) == rgb[3 * p + k],
        rgba_byte_from_rgb(rgb, 4 * p + 3) == 255u8,
{
    assert((4 * p + k) / 4 == p && (4 * p + k) % 4 == k) by (nonlinear_arith)
        requires
            0 <= k < 3,
            0 <= p,
    ;
    assert((4 * p + 3) / 4 == p && (4 * p + 3) % 4 == 3) by (nonlinear_arith)
        requires
            0 <= p,
    ;
}


/// Index of colour byte `k` of pixel `c` of row `r` in packed RGB rows `width` pixels wide.
pub open spec fn rgb_index(width: int, r: int, c: int, k: int) -> int {
    3 * (r * width + c) + k
}

/// The byte that `copy_rgb_rows` leaves at `rgb_index(width, r, c, k)` of `out`: colour
/// byte `k` of pixel `c` of padded RGBA row `r` when `out` holds the whole pixel and the
/// read-back reaches row `r`, the byte that was there otherwise.
pub open spec fn rgb_copied(mapped: Seq<u8>, padded: int, width: int, out: Seq<u8>, r: int, c: int, k: int) -> u8 {
    if rgb_index(width, r, c, 2) < out.len() && r * padded < mapped.len() {
        mapped[r * padded + 4 * c + k]
    } else {
        out[rgb_index(width, r, c, k)]
    }
}

proof fn lemma_rgb_index_rows(width: int, q: int, r: int, c: int, k: int)
    requires
        width > 0,
        0 <= c < width,
        0 <= k < 3,
    ensures
        q < r ==> rgb_index(width, q, c, k) < r * (3 * width),
        q >= r ==> rgb_index(width, q, c, k) >= r * (3 * width),
        rgb_index(width, q, c, k) == q * (3 * width) + 3 * c + k,
{
    assert(rgb_index(width, q, c, k) == q * (3 * width) + 3 * c + k) by (nonlinear_arith);
    if q < r {
        assert(q * (3 * width) + 3 * width <= r * (3 * width)) by (nonlinear_arith)
            requires
                q < r,
                width > 0,
        ;
    } else {
        assert(q * (3 * width) >= r * (3 * width)) by (nonlinear_arith)
            requires
                q >= r,
                width > 0,
        ;
    }
}

/// Copies the colour bytes of the pixels of padded RGBA rows (`padded` bytes apart,
/// `width` pixels each) into packed RGB rows of `out`, pairing row `r` of the read-back
/// with row `r` of `out` for as many rows as both have, and within a row as many whole
/// pixels as `out` has room for. `out` keeps its length; what is not copied over stays.
pub fn copy_rgb_rows(mapped: &[u8], padded: usize, width: usize, out: &mut Vec<u8>)
    requires
        padded > 0,
        width > 0,
        4 * width <= usize::MAX,
        forall|r: nat| r * 3 * width < old(out)@.len() && #[trigger] row_start(r, padded as nat) < mapped@.len()
            ==> mapped@.len() - row_start(r, padded as nat) >= 4 * width,
    ensures
        final(out)@.len() == old(out)@.len(),
        forall|r: int, c: int, k: int| 0 <= r && 0 <= c < width && 0 <= k < 3
            && #[trigger] rgb_index(width as int, r, c, k) < old(out)@.len()
            ==> final(out)@[rgb_index(width as int, r, c, k)]
                == rgb_copied(mapped@, padded as int, width as int, old(out)@, r, c, k),
{
    let ghost orig = out@;
    let ghost w = width as int;
    let ghost pd = padded as int;
    let n: usize = out.len();
    let len: usize = mapped.len();
    let row_out: usize = 3 * width;
    let mut r: usize = 0;
    let mut dst_row: usize = 0;
    let mut src_row: usize = 0;
    let mut more: bool = n > 0 && len > 0;
    while more
        invariant
            w == width,
            pd == padded,
            w > 0,
            pd > 0,
            4 * width <= usize::MAX,
            row_out == 3 * width,
            n == orig.len(),
            len == mapped@.len(),
            out@.len() == n,
            forall|q: nat| q * 3 * width < orig.len() && #[trigger] row_start(q, padded as nat) < mapped@.len()
                ==> mapped@.len() - row_start(q, padded as nat) >= 4 * width,
            more ==> dst_row == (r as int) * (3 * w) && src_row == (r as int) * pd,
            more ==> dst_row < n && src_row < len,
            !more ==> forall|q: int| q >= r ==> #[trigger] row_start(q as nat, padded as nat) >= len || q * (3 * w) >= n,
            forall|q: int, c: int, k: int| 0 <= q < r && 0 <= c < w && 0 <= k < 3
                && #[trigger] rgb_index(w, q, c, k) < n
                ==> out@[rgb_index(w, q, c, k)] == rgb_copied(mapped@, pd, w, orig, q, c, k),
            forall|i: int| (r as int) * (3 * w) <= i < n ==> out@[i] == orig[i],
        decreases n - dst_row + (if more { 1int } else { 0int }),
    {
        assert((r as int) * 3 * w == (r as int) * (3 * w)) by (nonlinear_arith);
        assert(r < n) by (nonlinear_arith)
            requires
                (r as int) * (3 * w) < n,
                w > 0,
        ;
        assert(row_start(r as nat, padded as nat) == src_row);
        let mut c: usize = 0;
        let mut d: usize = dst_row;
        let mut s: usize = src_row;
        let ghost row_before = out@;
        while c < width && d < n && n - d >= 3
            invariant
                row_before.len() == n,
                d <= n,
                w == width,
                pd == padded,
                w > 0,
                4 * width <= usize::MAX,
                n == orig.len(),
                len == mapped@.len(),
                out@.len() == n,
                dst_row == (r as int) * (3 * w),
                src_row == (r as int) * pd,
                src_row < len,
                len - src_row >= 4 * w,
                c <= width,
                d == dst_row + 3 * c,
                s == src_row + 4 * c,
                forall|i: int| 0 <= i < dst_row ==> out@[i] == row_before[i],
                forall|i: int| d <= i < n ==> out@[i] == orig[i],
                forall|cc: int, k: int| 0 <= cc < c && 0 <= k < 3
                    ==> out@[#[trigger] rgb_index(w, r as int, cc, k)] == mapped@[src_row + 4 * cc + k],
            decreases width - c,
        {
            out.set(d, mapped[s]);
            out.set(d + 1, mapped[s + 1]);
            out.set(d + 2, mapped[s + 2]);
            proof {
                assert forall|cc: int, k: int| 0 <= cc < c + 1 && 0 <= k < 3
                    implies out@[#[trigger] rgb_index(w, r as int, cc, k)] == mapped@[src_row + 4 * cc + k] by {
                    lemma_rgb_index_rows(w, r as int, r as int, cc, k);
                }
            }
            c = c + 1;
            d = d + 3;
            s = s + 4;
        }
        assert forall|q: int, cc: int, k: int| 0 <= q < r + 1 && 0 <= cc < w && 0 <= k < 3
            && #[trigger] rgb_index(w, q, cc, k) < n
            implies out@[rgb_index(w, q, cc, k)] == rgb_copied(mapped@, pd, w, orig, q, cc, k) by {
            lemma_rgb_index_rows(w, q, r as int, cc, k);
            lemma_rgb_index_rows(w, q, r as int, cc, 2);
            if q < r {
                assert(out@[rgb_index(w, q, cc, k)] == row_before[rgb_index(w, q, cc, k)]);
            } else {
                if cc < c {
                    assert(out@[rgb_index(w, q, cc, k)] == mapped@[src_row + 4 * cc + k]);
                } else {
                    assert(rgb_index(w, q, cc, k) >= d);
                }
            }
        }
        assert(((r + 1) as int) * (3 * w) == (r as int) * (3 * w) + 3 * w) by (nonlinear_arith);
        assert(((r + 1) as int) * pd == (r as int) * pd + pd) by (nonlinear_arith);
        if row_out >= n - dst_row || padded >= len - src_row {
            more = false;
            assert forall|q: int| q >= r + 1 implies #[trigger] row_start(q as nat, padded as nat) >= len || q * (3 * w) >= n by {
                assert(q * (3 * w) >= ((r + 1) as int) * (3 * w)) by (nonlinear_arith)
                    requires
                        q >= r + 1,
                        w > 0,
                ;
                assert(q * pd >= ((r + 1) as int) * pd) by (nonlinear_arith)
                    requires
                        q >= r + 1,
                        pd > 0,
                ;
            }
        } else {
            dst_row = dst_row + row_out;
            src_row = src_row + padded;
        }
        r = r + 1;
    }
    assert forall|q: int, cc: int, k: int| 0 <= q && 0 <= cc < w && 0 <= k < 3
        && #[trigger] rgb_index(w, q, cc, k) < n
        implies out@[rgb_index(w, q, cc, k)] == rgb_copied(mapped@, pd, w, orig, q, cc, k) by {
        if q >= r {
            lemma_rgb_index_rows(w, q, r as int, cc, k);
            lemma_rgb_index_rows(w, q, r as int, cc, 2);
            assert(row_start(q as nat, padded as nat) >= len || q * (3 * w) >= n);
        }
    }
}

} // verus!
