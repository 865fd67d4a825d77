//! CPU conversions from the shared NV12 frame to the layouts DirectShow consumers negotiate.
//!
//! All buffers are tightly packed (stride == width); callers bound-check sizes with the
//! `*_size` helpers before converting.

use vstd::prelude::*;

verus! {

pub fn nv12_size(width: usize, height: usize) -> (n: usize)
    requires
        width * height * 3 <= usize::MAX,
    ensures
        n == width * height * 3 / 2,
{
    assert(0 <= width * height <= width * height * 3) by (nonlinear_arith);
    width * height * 3 / 2
}

pub fn i420_size(width: usize, height: usize) -> (n: usize)
    requires
        width * height * 3 <= usize::MAX,
    ensures
        n == width * height * 3 / 2,
{
    assert(0 <= width * height <= width * height * 3) by (nonlinear_arith);
    width * height * 3 / 2
}

pub fn yuy2_size(width: usize, height: usize) -> (n: usize)
    requires
        width * height * 2 <= usize::MAX,
    ensures
        n == width * height * 2,
{
    assert(0 <= width * height <= width * height * 2) by (nonlinear_arith);
    width * height * 2
}

// ---------------------------------------------------------------------------------------------
// I420

/// The I420 frame of an NV12 frame with `luma` luma bytes: luma, then U, then V.
pub open spec fn i420_of(src: Seq<u8>, luma: int) -> Seq<u8> {
    let quarter = luma / 4;
    Seq::new(
        (luma + 2 * quarter) as nat,
        |i: int|
            if i < luma {
                src[i]
            } else if i < luma + quarter {
                src[luma + 2 * (i - luma)]
            } else {
                src[luma + 2 * (i - luma - quarter) + 1]
            },
    )
}

/// NV12 → I420: copies luma and de-interleaves the chroma plane into U then V.
pub fn nv12_to_i420(src: &[u8], width: usize, height: usize, dst: &mut [u8])
    requires
        width * height + 2 * (width * height / 4) <= src@.len(),
        width * height + 2 * (width * height / 4) <= old(dst)@.len(),
    ensures
        final(dst)@ == i420_of(src@, width * height) + old(dst)@.skip(
            width * height + 2 * (width * height / 4),
        ),
{
    assert(src.len() == src@.len());
    assert(0 <= width * height) by (nonlinear_arith);
    let luma: usize = width * height;
    let quarter: usize = luma / 4;
    let mut i: usize = 0;
    while i < luma
        invariant
            i <= luma,
            luma + 2 * quarter <= src@.len(),
            luma + 2 * quarter <= dst@.len(),
            dst@.len() == old(dst)@.len(),
            forall|k: int| 0 <= k < i ==> #[trigger] dst@[k] == src@[k],
            forall|k: int| i <= k < dst@.len() ==> #[trigger] dst@[k] == old(dst)@[k],
        decreases luma - i,
    {
        dst[i] = src[i];
        i += 1;
    }
    let mut p: usize = 0;
    while p < quarter
        invariant
            p <= quarter,
            luma + 2 * quarter <= src@.len(),
            src@.len() <= usize::MAX,
            luma + 2 * quarter <= dst@.len(),
            dst@.len() == old(dst)@.len(),
            forall|k: int| 0 <= k < luma ==> #[trigger] dst@[k] == src@[k],
            forall|k: int|
                luma <= k < luma + p ==> #[trigger] dst@[k] == src@[luma + 2 * (k - luma)],
            forall|k: int|
                luma + quarter <= k < luma + quarter + p ==> #[trigger] dst@[k] == src@[luma + 2 * (k
                    - luma - quarter) + 1],
            forall|k: int|
                luma + 2 * quarter <= k < dst@.len() ==> #[trigger] dst@[k] == old(dst)@[k],
        decreases quarter - p,
    {
        dst[luma + p] = src[luma + 2 * p];
        dst[luma + quarter + p] = src[luma + 2 * p + 1];
        p += 1;
    }
    assert(dst@ =~= i420_of(src@, luma as int) + old(dst)@.skip(luma + 2 * quarter));
}

// ---------------------------------------------------------------------------------------------
// YUY2

/// Byte `c` of row `r` of the YUY2 frame of an NV12 frame: luma bytes at even places, at odd ones
/// U and V of the chroma row that two luma rows share.
pub open spec fn yuy2_byte(src: Seq<u8>, width: int, height: int, r: int, c: int) -> u8 {
    if c % 2 == 0 {
        src[r * width + c / 2]
    } else {
        src[width * height + (r / 2) * width + 2 * (c / 4) + (c % 4) / 2]
    }
}

/// The YUY2 frame of an NV12 frame. In a row of odd width the last pixel has no partner; its
/// bytes are those of `kept`.
pub open spec fn yuy2_of(src: Seq<u8>, width: int, height: int, kept: Seq<u8>) -> Seq<u8> {
    Seq::new(
        (height * (width * 2)) as nat,
        |i: int|
            if i % (width * 2) < 4 * (width / 2) {
                yuy2_byte(src, width, height, i / (width * 2), i % (width * 2))
            } else {
                kept[i]
            },
    )
}

/// Row and column of a byte of a table with rows of `n` bytes.
pub proof fn law_row_and_column(r: int, c: int, n: int)
    requires
        0 <= c < n,
    ensures
        (r * n + c) / n == r,
        (r * n + c) % n == c,
{
    vstd::arithmetic::div_mod::lemma_fundamental_div_mod_converse(r * n + c, n, r, c);
}

/// A row of a table lies within it.
proof fn lemma_row_within(r: int, n: int, rows: int)
    requires
        0 <= r < rows,
        0 <= n,
    ensures
        0 <= r * n,
        r * n + n == (r + 1) * n,
        (r + 1) * n <= rows * n,
{
    assert(0 <= r * n && r * n + n == (r + 1) * n && (r + 1) * n <= rows * n) by (nonlinear_arith)
        requires
            0 <= r < rows,
            0 <= n,
    ;
}

/// NV12 → YUY2 (packed Y0 U Y1 V); each chroma row is shared by two luma rows.
pub fn nv12_to_yuy2(src: &[u8], width: usize, height: usize, dst: &mut [u8])
    requires
        width * height + (height as int + 1) / 2 * width <= src@.len(),
        height * (width * 2) <= old(dst)@.len(),
    ensures
        final(dst)@ == yuy2_of(src@, width as int, height as int, old(dst)@) + old(dst)@.skip(
            height * (width * 2),
        ),
{
    assert(src.len() == src@.len());
    assert(dst.len() == dst@.len());
    assert(0 <= (height as int + 1) / 2 * width) by (nonlinear_arith);
    assert(0 <= width * height) by (nonlinear_arith);
    let ghost n: int = width * 2;
    let luma: usize = width * height;
    let half: usize = width / 2;
    let mut r: usize = 0;
    assert(0 * n == 0);
    while r < height
        invariant
            r <= height,
            n == width * 2,
            half == width / 2,
            luma == width * height,
            width * height + (height as int + 1) / 2 * width <= src@.len(),
            src@.len() <= usize::MAX,
            height * n <= dst@.len(),
            dst@.len() == old(dst)@.len(),
            dst@.len() <= usize::MAX,
            forall|i: int|
                0 <= i < r * n ==> #[trigger] dst@[i] == yuy2_of(
                    src@,
                    width as int,
                    height as int,
                    old(dst)@,
                )[i],
            forall|i: int| r * n <= i < dst@.len() ==> #[trigger] dst@[i] == old(dst)@[i],
        decreases height - r,
    {
        proof {
            lemma_row_within(r as int, n, height as int);
            lemma_row_within(r as int, width as int, height as int);
            lemma_row_within(r as int / 2, width as int, (height as int + 1) / 2);
            assert(height * width == width * height) by (nonlinear_arith);
            assert(r * n == 2 * (r * width)) by (nonlinear_arith)
                requires
                    n == width * 2,
            ;
        }
        let y: usize = r * width;
        let uv: usize = luma + (r / 2) * width;
        let out: usize = y * 2;
        let mut x: usize = 0;
        while x < half
            invariant
                x <= half,
                r < height,
                n == width * 2,
                half == width / 2,
                luma == width * height,
                y == r * width,
                uv == luma + (r / 2) * width,
                out == r * n,
                out + n <= dst@.len(),
                y + width <= src@.len(),
                uv + width <= src@.len(),
                src@.len() <= usize::MAX,
                (r + 1) * n <= height * n,
                r * n + n == (r + 1) * n,
                0 <= r * n,
                dst@.len() == old(dst)@.len(),
                dst@.len() <= usize::MAX,
                forall|i: int|
                    0 <= i < out + 4 * x ==> #[trigger] dst@[i] == yuy2_of(
                        src@,
                        width as int,
                        height as int,
                        old(dst)@,
                    )[i],
                forall|i: int|
                    out + 4 * x <= i < dst@.len() ==> #[trigger] dst@[i] == old(dst)@[i],
            decreases half - x,
        {
            proof {
                law_row_and_column(r as int, 4 * x as int, n);
                law_row_and_column(r as int, 4 * x + 1, n);
                law_row_and_column(r as int, 4 * x + 2, n);
                law_row_and_column(r as int, 4 * x + 3, n);
            }
            dst[out + 4 * x] = src[y + 2 * x];
            dst[out + 4 * x + 1] = src[uv + 2 * x];
            dst[out + 4 * x + 2] = src[y + 2 * x + 1];
            dst[out + 4 * x + 3] = src[uv + 2 * x + 1];
            x += 1;
        }
        proof {
            assert forall|i: int| 0 <= i < (r + 1) * n implies #[trigger] dst@[i] == yuy2_of(
                src@,
                width as int,
                height as int,
                old(dst)@,
            )[i] by {
                if i >= out + 4 * half {
                    law_row_and_column(r as int, i - out, n);
                }
            }
        }
        r += 1;
    }
    assert(dst@ =~= yuy2_of(src@, width as int, height as int, old(dst)@) + old(dst)@.skip(
        height * n,
    ));
}

// ---------------------------------------------------------------------------------------------
// Scaling

/// The source position for position `d` of `dn`, out of `sn`.
pub open spec fn nearest(d: int, dn: int, sn: int) -> int {
    (d * sn) / dn
}

/// A frame size that every layout can have.
pub open spec fn even_size(width: int, height: int) -> bool {
    0 < width && 0 < height && width % 2 == 0 && height % 2 == 0
}

/// Bytes of an NV12 frame with even dimensions.
pub open spec fn nv12_bytes(width: int, height: int) -> int {
    width * height + (height / 2) * width
}

/// Byte `c` of row `r` of the luma plane of a scaled frame.
pub open spec fn scaled_luma(src: Seq<u8>, sw: int, sh: int, dw: int, dh: int, r: int, c: int) -> u8 {
    src[nearest(r, dh, sh) * sw + nearest(c, dw, sw)]
}

/// Byte `c` of row `r` of the chroma plane of a scaled frame; U and V are moved as a pair.
pub open spec fn scaled_chroma(
    src: Seq<u8>,
    sw: int,
    sh: int,
    dw: int,
    dh: int,
    r: int,
    c: int,
) -> u8 {
    src[sw * sh + nearest(r, dh / 2, sh / 2) * sw + 2 * nearest(c / 2, dw / 2, sw / 2) + c % 2]
}

/// The frame scaled to `dw` x `dh`: each pixel is the nearest one of the source.
pub open spec fn scaled(src: Seq<u8>, sw: int, sh: int, dw: int, dh: int) -> Seq<u8> {
    Seq::new(
        nv12_bytes(dw, dh) as nat,
        |i: int|
            if i < dw * dh {
                scaled_luma(src, sw, sh, dw, dh, i / dw, i % dw)
            } else {
                scaled_chroma(src, sw, sh, dw, dh, (i - dw * dh) / dw, (i - dw * dh) % dw)
            },
    )
}

/// The nearest position lies in the source.
pub proof fn law_nearest_within(d: int, dn: int, sn: int)
    requires
        0 <= d < dn,
        0 < sn,
    ensures
        0 <= nearest(d, dn, sn) < sn,
        0 <= d * sn,
        d * sn <= dn * sn,
{
    assert(0 <= d * sn && d * sn < dn * sn) by (nonlinear_arith)
        requires
            0 <= d < dn,
            0 < sn,
    ;
    vstd::arithmetic::div_mod::lemma_div_pos_is_pos(d * sn, dn);
    vstd::arithmetic::div_mod::lemma_multiply_divide_lt(d * sn, dn, sn);
}

/// The source position for position `d` of `dn`, out of `sn`.
fn map(d: usize, dn: usize, sn: usize) -> (r: usize)
    requires
        d < dn,
        0 < sn,
        dn * sn <= usize::MAX,
    ensures
        r == nearest(d as int, dn as int, sn as int),
        r < sn,
{
    proof {
        law_nearest_within(d as int, dn as int, sn as int);
    }
    (d * sn) / dn
}

proof fn lemma_halves(a: int, b: int)
    requires
        0 <= a,
        0 <= b,
    ensures
        (a / 2) * (b / 2) <= a * b,
        (a / 2) * b <= a * b,
{
    assert((a / 2) * (b / 2) <= a * b && (a / 2) * b <= a * b) by (nonlinear_arith)
        requires
            0 <= a,
            0 <= b,
            0 <= a / 2 <= a,
            0 <= b / 2 <= b,
    ;
}

/// Fills the luma rows of a scaled frame.
fn scale_luma(src: &[u8], sw: usize, sh: usize, dst: &mut [u8], dw: usize, dh: usize)
    requires
        0 < sw,
        0 < sh,
        0 < dw,
        sw * sh <= src@.len(),
        dw * dh <= old(dst)@.len(),
        dw * sw <= usize::MAX,
        dh * sh <= usize::MAX,
    ensures
        final(dst)@.len() == old(dst)@.len(),
        forall|i: int|
            0 <= i < dw * dh ==> #[trigger] final(dst)@[i] == scaled_luma(
                src@,
                sw as int,
                sh as int,
                dw as int,
                dh as int,
                i / (dw as int),
                i % (dw as int),
            ),
        forall|i: int| dw * dh <= i < old(dst)@.len() ==> #[trigger] final(dst)@[i] == old(dst)@[i],
{
    assert(src.len() == src@.len());
    assert(dst.len() == dst@.len());
    let mut y: usize = 0;
    assert(0 * dw == 0);
    assert(dh * dw == dw * dh) by (nonlinear_arith);
    assert(sh * sw == sw * sh) by (nonlinear_arith);
    while y < dh
        invariant
            y <= dh,
            0 < sw,
            0 < sh,
            0 < dw,
            sh * sw <= src@.len(),
            dh * dw <= dst@.len(),
            src@.len() <= usize::MAX,
            dst@.len() <= usize::MAX,
            dw * sw <= usize::MAX,
            dh * sh <= usize::MAX,
            dst@.len() == old(dst)@.len(),
            forall|i: int|
                0 <= i < y * dw ==> #[trigger] dst@[i] == scaled_luma(
                    src@,
                    sw as int,
                    sh as int,
                    dw as int,
                    dh as int,
                    i / (dw as int),
                    i % (dw as int),
                ),
            forall|i: int| y * dw <= i < dst@.len() ==> #[trigger] dst@[i] == old(dst)@[i],
        decreases dh - y,
    {
        let row: usize = map(y, dh, sh);
        proof {
            lemma_row_within(y as int, dw as int, dh as int);
            lemma_row_within(row as int, sw as int, sh as int);
        }
        let s: usize = row * sw;
        let d: usize = y * dw;
        let mut x: usize = 0;
        while x < dw
            invariant
                x <= dw,
                y < dh,
                0 < sw,
                0 < dw,
                row == nearest(y as int, dh as int, sh as int),
                s == row * sw,
                s + sw <= src@.len(),
                d == y * dw,
                d + dw <= dst@.len(),
                y * dw + dw == (y + 1) * dw,
                dw * sw <= usize::MAX,
                src@.len() <= usize::MAX,
                dst@.len() <= usize::MAX,
                dst@.len() == old(dst)@.len(),
                forall|i: int|
                    0 <= i < d + x ==> #[trigger] dst@[i] == scaled_luma(
                        src@,
                        sw as int,
                        sh as int,
                        dw as int,
                        dh as int,
                        i / (dw as int),
                        i % (dw as int),
                    ),
                forall|i: int| d + x <= i < dst@.len() ==> #[trigger] dst@[i] == old(dst)@[i],
            decreases dw - x,
        {
            let c: usize = map(x, dw, sw);
            proof {
                law_row_and_column(y as int, x as int, dw as int);
            }
            dst[d + x] = src[s + c];
            x += 1;
        }
        y += 1;
    }
}

/// Fills the chroma rows of a scaled frame.
fn scale_chroma(src: &[u8], sw: usize, sh: usize, dst: &mut [u8], dw: usize, dh: usize)
    requires
        sw % 2 == 0,
        sh % 2 == 0,
        dw % 2 == 0,
        dh % 2 == 0,
        0 < sw,
        0 < sh,
        0 < dw,
        nv12_bytes(sw as int, sh as int) <= src@.len(),
        nv12_bytes(dw as int, dh as int) <= old(dst)@.len(),
        dw * sw <= usize::MAX,
        dh * sh <= usize::MAX,
    ensures
        final(dst)@.len() == old(dst)@.len(),
        forall|i: int|
            dw * dh <= i < nv12_bytes(dw as int, dh as int) ==> #[trigger] final(dst)@[i]
                == scaled_chroma(
                src@,
                sw as int,
                sh as int,
                dw as int,
                dh as int,
                (i - dw * dh) / (dw as int),
                (i - dw * dh) % (dw as int),
            ),
        forall|i: int|
            0 <= i < old(dst)@.len() && !(dw * dh <= i < nv12_bytes(dw as int, dh as int))
                ==> #[trigger] final(dst)@[i] == old(dst)@[i],
{
    assert(src.len() == src@.len());
    assert(dst.len() == dst@.len());
    proof {
        lemma_halves(dw as int, sw as int);
        lemma_halves(dh as int, sh as int);
        assert(0 <= (sh / 2) * sw && 0 <= (dh / 2) * dw && 0 <= sw * sh && 0 <= dw * dh)
            by (nonlinear_arith);
    }
    let s_uv: usize = sw * sh;
    let d_uv: usize = dw * dh;
    let scw: usize = sw / 2;
    let sch: usize = sh / 2;
    let dcw: usize = dw / 2;
    let dch: usize = dh / 2;
    let mut y: usize = 0;
    assert(0 * dw == 0);
    while y < dch
        invariant
            y <= dch,
            0 < scw,
            0 < sch,
            0 < dcw,
            sw == 2 * scw,
            sh == 2 * sch,
            dw == 2 * dcw,
            dh == 2 * dch,
            s_uv == sw * sh,
            d_uv == dw * dh,
            s_uv + sch * sw <= src@.len(),
            d_uv + dch * dw <= dst@.len(),
            src@.len() <= usize::MAX,
            dst@.len() <= usize::MAX,
            dcw * scw <= usize::MAX,
            dch * sch <= usize::MAX,
            dst@.len() == old(dst)@.len(),
            forall|i: int|
                d_uv <= i < d_uv + y * dw ==> #[trigger] dst@[i] == scaled_chroma(
                    src@,
                    sw as int,
                    sh as int,
                    dw as int,
                    dh as int,
                    (i - d_uv) / (dw as int),
                    (i - d_uv) % (dw as int),
                ),
            forall|i: int|
                0 <= i < dst@.len() && !(d_uv <= i < d_uv + y * dw) ==> #[trigger] dst@[i] == old(
                    dst,
                )@[i],
        decreases dch - y,
    {
        let row: usize = map(y, dch, sch);
        proof {
            lemma_row_within(y as int, dw as int, dch as int);
            lemma_row_within(row as int, sw as int, sch as int);
        }
        let s: usize = s_uv + row * sw;
        let d: usize = d_uv + y * dw;
        let mut x: usize = 0;
        while x < dcw
            invariant
                x <= dcw,
                y < dch,
                0 < scw,
                0 < dcw,
                sw == 2 * scw,
                sh == 2 * sch,
                dw == 2 * dcw,
                dh == 2 * dch,
                s_uv == sw * sh,
                d_uv == dw * dh,
                row == nearest(y as int, dch as int, sch as int),
                s == s_uv + row * sw,
                s + sw <= src@.len(),
                d == d_uv + y * dw,
                d + dw <= dst@.len(),
                y * dw + dw == (y + 1) * dw,
                0 <= y * dw,
                dcw * scw <= usize::MAX,
                src@.len() <= usize::MAX,
                dst@.len() <= usize::MAX,
                dst@.len() == old(dst)@.len(),
                forall|i: int|
                    d_uv <= i < d + 2 * x ==> #[trigger] dst@[i] == scaled_chroma(
                        src@,
                        sw as int,
                        sh as int,
                        dw as int,
                        dh as int,
                        (i - d_uv) / (dw as int),
                        (i - d_uv) % (dw as int),
                    ),
                forall|i: int|
                    0 <= i < dst@.len() && !(d_uv <= i < d + 2 * x) ==> #[trigger] dst@[i] == old(
                        dst,
                    )@[i],
            decreases dcw - x,
        {
            let c: usize = map(x, dcw, scw);
            proof {
                law_row_and_column(y as int, 2 * x as int, dw as int);
                law_row_and_column(y as int, 2 * x + 1, dw as int);
            }
            dst[d + 2 * x] = src[s + 2 * c];
            dst[d + 2 * x + 1] = src[s + 2 * c + 1];
            x += 1;
        }
        y += 1;
    }
}

/// Nearest-neighbour NV12 resize, used when the running app's resolution no longer matches the
/// format a consumer negotiated. Dimensions must be even.
pub fn scale_nv12_nearest(src: &[u8], sw: usize, sh: usize, dst: &mut [u8], dw: usize, dh: usize)
    requires
        sw % 2 == 0,
        sh % 2 == 0,
        dw % 2 == 0,
        dh % 2 == 0,
        0 < dw && 0 < dh ==> 0 < sw && 0 < sh,
        nv12_bytes(sw as int, sh as int) <= src@.len(),
        nv12_bytes(dw as int, dh as int) <= old(dst)@.len(),
        dw * sw <= usize::MAX,
        dh * sh <= usize::MAX,
    ensures
        final(dst)@ == scaled(src@, sw as int, sh as int, dw as int, dh as int) + old(dst)@.skip(
            nv12_bytes(dw as int, dh as int),
        ),
{
    proof {
        assert(0 <= (sh / 2) * sw && 0 <= (dh / 2) * dw && 0 <= dw * dh) by (nonlinear_arith);
        if dw == 0 || dh == 0 {
            assert(dw * dh == 0 && (dh / 2) * dw == 0) by (nonlinear_arith)
                requires
                    dw == 0 || dh == 0,
            ;
        }
    }
    if dw > 0 && dh > 0 {
        scale_luma(src, sw, sh, dst, dw, dh);
        scale_chroma(src, sw, sh, dst, dw, dh);
    }
    assert(dst@ =~= scaled(src@, sw as int, sh as int, dw as int, dh as int) + old(dst)@.skip(
        nv12_bytes(dw as int, dh as int),
    ));
}

// ---------------------------------------------------------------------------------------------
// Black

/// Limited-range black: luma 16, chroma 128 (the same in NV12 and I420).
pub open spec fn black_420_of(luma: int) -> Seq<u8> {
    Seq::new(
        (luma + luma / 2) as nat,
        |i: int|
            if i < luma {
                16u8
            } else {
                128u8
            },
    )
}

/// Limited-range black in YUY2 for `pixels` pixels.
pub open spec fn black_yuy2_of(pixels: int) -> Seq<u8> {
    Seq::new(
        (2 * pixels) as nat,
        |i: int|
            if i % 2 == 0 {
                16u8
            } else {
                128u8
            },
    )
}

/// BT.601 limited-range black in NV12 or I420 (both are 4:2:0 with a full-size luma plane).
pub fn black_420(width: usize, height: usize, dst: &mut [u8])
    requires
        width * height + width * height / 2 <= old(dst)@.len(),
    ensures
        final(dst)@ == black_420_of(width * height) + old(dst)@.skip(
            width * height + width * height / 2,
        ),
{
    assert(dst.len() == dst@.len());
    assert(0 <= width * height) by (nonlinear_arith);
    let luma: usize = width * height;
    let n: usize = luma + luma / 2;
    let mut i: usize = 0;
    while i < n
        invariant
            i <= n,
            n == luma + luma / 2,
            n <= dst@.len(),
            dst@.len() == old(dst)@.len(),
            forall|k: int| 0 <= k < i ==> #[trigger] dst@[k] == black_420_of(luma as int)[k],
            forall|k: int| i <= k < dst@.len() ==> #[trigger] dst@[k] == old(dst)@[k],
        decreases n - i,
    {
        dst[i] = if i < luma {
            16
        } else {
            128
        };
        i += 1;
    }
    assert(dst@ =~= black_420_of(luma as int) + old(dst)@.skip(n as int));
}

pub fn black_yuy2(width: usize, height: usize, dst: &mut [u8])
    requires
        width * height * 2 <= old(dst)@.len(),
    ensures
        final(dst)@ == black_yuy2_of(width * height) + old(dst)@.skip(width * height * 2),
{
    assert(dst.len() == dst@.len());
    let n: usize = yuy2_size(width, height);
    let mut i: usize = 0;
    while i < n
        invariant
            i <= n,
            n == width * height * 2,
            n <= dst@.len(),
            dst@.len() == old(dst)@.len(),
            forall|k: int| 0 <= k < i ==> #[trigger] dst@[k] == black_yuy2_of(width * height)[k],
            forall|k: int| i <= k < dst@.len() ==> #[trigger] dst@[k] == old(dst)@[k],
        decreases n - i,
    {
        dst[i] = if i % 2 == 0 {
            16
        } else {
            128
        };
        i += 1;
    }
    assert(dst@ =~= black_yuy2_of(width * height) + old(dst)@.skip(n as int));
}

// ---------------------------------------------------------------------------------------------
// Laws

/// With even dimensions the two ways to count the bytes of an NV12 frame agree.
pub proof fn law_nv12_bytes(width: int, height: int)
    requires
        0 <= width,
        0 <= height,
        height % 2 == 0,
    ensures
        nv12_bytes(width, height) == width * height * 3 / 2,
        nv12_bytes(width, height) == width * height + width * height / 2,
{
    let k = height / 2;
    assert(width * height == 2 * (k * width) && k * width >= 0) by (nonlinear_arith)
        requires
            height == 2 * k,
            0 <= width,
            0 <= k,
    ;
}

/// Scaling to the same size changes nothing.
pub proof fn law_scale_identity(src: Seq<u8>, width: int, height: int)
    requires
        0 < width,
        0 < height,
        width % 2 == 0,
        height % 2 == 0,
        nv12_bytes(width, height) <= src.len(),
    ensures
        scaled(src, width, height, width, height) == src.take(nv12_bytes(width, height)),
{
    let out = scaled(src, width, height, width, height);
    let luma = width * height;
    assert(0 <= luma) by (nonlinear_arith)
        requires
            0 < width,
            0 < height,
            luma == width * height,
    ;
    assert forall|i: int| 0 <= i < nv12_bytes(width, height) implies #[trigger] out[i] == src[i] by {
        if i < luma {
            lemma_nearest_same(i / width, height);
            lemma_nearest_same(i % width, width);
            vstd::arithmetic::div_mod::lemma_fundamental_div_mod(i, width);
            assert(i / width * width == width * (i / width)) by (nonlinear_arith);
        } else {
            let j = i - luma;
            let c = j % width;
            lemma_nearest_same(j / width, height / 2);
            lemma_nearest_same(c / 2, width / 2);
            vstd::arithmetic::div_mod::lemma_fundamental_div_mod(j, width);
            assert(j / width * width == width * (j / width)) by (nonlinear_arith);
        }
    }
    assert(out =~= src.take(nv12_bytes(width, height)));
}

proof fn lemma_nearest_same(d: int, n: int)
    requires
        0 < n,
    ensures
        nearest(d, n, n) == d,
{
    vstd::arithmetic::div_mod::lemma_div_multiples_vanish(d, n);
    assert(d * n == n * d) by (nonlinear_arith);
}

/// The position that a position comes from when a row is scaled down by `k`, and the one that it
/// came from when the row was scaled up by `k`.
proof fn lemma_up_and_back(d: int, n: int, k: int)
    requires
        0 <= d < n,
        1 <= k,
    ensures
        nearest(d, n, k * n) == d * k,
        0 <= d * k < k * n,
        nearest(d * k, k * n, n) == d,
{
    assert(d * (k * n) == (d * k) * n) by (nonlinear_arith);
    vstd::arithmetic::div_mod::lemma_div_multiples_vanish(d * k, n);
    assert((d * k) * n == n * (d * k)) by (nonlinear_arith);
    assert(0 <= d * k && d * k < k * n && 0 < k * n) by (nonlinear_arith)
        requires
            0 <= d < n,
            1 <= k,
    ;
    assert((d * k) * n == (k * n) * d) by (nonlinear_arith);
    vstd::arithmetic::div_mod::lemma_div_multiples_vanish(d, k * n);
}

/// A frame scaled up by a whole factor and back is the frame.
pub proof fn law_scale_up_and_back(src: Seq<u8>, width: int, height: int, k: int)
    requires
        0 < width,
        0 < height,
        width % 2 == 0,
        height % 2 == 0,
        1 <= k,
        nv12_bytes(width, height) <= src.len(),
    ensures
        scaled(
            scaled(src, width, height, k * width, k * height),
            k * width,
            k * height,
            width,
            height,
        ) == src.take(nv12_bytes(width, height)),
{
    let (bw, bh) = (k * width, k * height);
    let big = scaled(src, width, height, bw, bh);
    let out = scaled(big, bw, bh, width, height);
    let (w2, h2) = (width / 2, height / 2);
    assert(bw == 2 * (k * w2) && bh == 2 * (k * h2)) by (nonlinear_arith)
        requires
            bw == k * width,
            bh == k * height,
            width == 2 * w2,
            height == 2 * h2,
    ;
    assert(0 < bw && 0 < bh && 0 <= width * height && 0 <= bw * bh && 0 <= (bh / 2) * bw)
        by (nonlinear_arith)
        requires
            bw == k * width,
            bh == k * height,
            0 < width,
            0 < height,
            1 <= k,
    ;
    let luma = width * height;
    assert(luma == height * width) by (nonlinear_arith)
        requires
            luma == width * height,
    ;
    assert forall|i: int| 0 <= i < nv12_bytes(width, height) implies #[trigger] out[i] == src[i] by {
        vstd::arithmetic::div_mod::lemma_fundamental_div_mod(i, width);
        if i < luma {
            let (r, c) = (i / width, i % width);
            lemma_within_rows(i, width, height);
            lemma_up_and_back(r, height, k);
            lemma_up_and_back(c, width, k);
            let at = (r * k) * bw + c * k;
            law_row_and_column(r * k, c * k, bw);
            lemma_row_within(r * k, bw, bh);
            assert(bh * bw == bw * bh) by (nonlinear_arith);
            assert(out[i] == big[at]);
            assert(0 <= at < bw * bh);
            assert(big[at] == scaled_luma(src, width, height, bw, bh, r * k, c * k));
            assert(r * width + c == i) by (nonlinear_arith)
                requires
                    i == width * (i / width) + i % width,
                    r == i / width,
                    c == i % width,
            ;
        } else {
            let j = i - luma;
            vstd::arithmetic::div_mod::lemma_fundamental_div_mod(j, width);
            lemma_within_rows(j, width, h2);
            let (r, c) = (j / width, j % width);
            lemma_up_and_back(r, h2, k);
            lemma_up_and_back(c / 2, w2, k);
            assert(bh / 2 == k * h2 && bw / 2 == k * w2);
            let c2 = 2 * ((c / 2) * k) + c % 2;
            assert(c2 / 2 == (c / 2) * k && c2 % 2 == c % 2 && 0 <= c2 < bw);
            law_row_and_column(r * k, c2, bw);
            lemma_row_within(r * k, bw, bh / 2);
            let at = bw * bh + ((r * k) * bw + c2);
            assert(out[i] == big[at]);
            assert(bw * bh <= at < nv12_bytes(bw, bh));
            assert(big[at] == scaled_chroma(src, width, height, bw, bh, r * k, c2));
            assert(r * width + c == j) by (nonlinear_arith)
                requires
                    j == width * (j / width) + j % width,
                    r == j / width,
                    c == j % width,
            ;
        }
    }
    assert(out =~= src.take(nv12_bytes(width, height)));
}

/// A byte of a table lies in one of its rows.
proof fn lemma_within_rows(i: int, n: int, rows: int)
    requires
        0 < n,
        0 <= i < rows * n,
    ensures
        0 <= i / n < rows,
        0 <= i % n < n,
{
    vstd::arithmetic::div_mod::lemma_div_pos_is_pos(i, n);
    assert(rows * n == n * rows) by (nonlinear_arith);
    vstd::arithmetic::div_mod::lemma_multiply_divide_lt(i, n, rows);
    vstd::arithmetic::div_mod::lemma_mod_bound(i, n);
}

/// A scaled black frame is black.
pub proof fn law_scaled_black_is_black(sw: int, sh: int, dw: int, dh: int)
    requires
        0 < sw,
        0 < sh,
        0 < dw,
        0 < dh,
        sw % 2 == 0,
        sh % 2 == 0,
        dw % 2 == 0,
        dh % 2 == 0,
    ensures
        scaled(black_420_of(sw * sh), sw, sh, dw, dh) == black_420_of(dw * dh),
{
    let src = black_420_of(sw * sh);
    let out = scaled(src, sw, sh, dw, dh);
    law_nv12_bytes(dw, dh);
    law_nv12_bytes(sw, sh);
    assert(dh * dw == dw * dh) by (nonlinear_arith);
    assert(sh * sw == sw * sh) by (nonlinear_arith);
    assert forall|i: int| 0 <= i < out.len() implies #[trigger] out[i] == black_420_of(
        dw * dh,
    )[i] by {
        if i < dw * dh {
            let r = i / dw;
            let c = i % dw;
            lemma_within_rows(i, dw, dh);
            law_nearest_within(r, dh, sh);
            law_nearest_within(c, dw, sw);
            lemma_row_within(nearest(r, dh, sh), sw, sh);
        } else {
            let j = i - dw * dh;
            let r = j / dw;
            let c = j % dw;
            lemma_within_rows(j, dw, dh / 2);
            law_nearest_within(r, dh / 2, sh / 2);
            law_nearest_within(c / 2, dw / 2, sw / 2);
            lemma_row_within(nearest(r, dh / 2, sh / 2), sw, sh / 2);
        }
    }
    assert(out =~= black_420_of(dw * dh));
}

/// Black stays black as I420.
pub proof fn law_i420_of_black_is_black(luma: int)
    requires
        0 <= luma,
        luma % 4 == 0,
    ensures
        i420_of(black_420_of(luma), luma) == black_420_of(luma),
{
    assert(i420_of(black_420_of(luma), luma) =~= black_420_of(luma));
}

/// Black stays black as YUY2.
pub proof fn law_yuy2_of_black_is_black(width: int, height: int, kept: Seq<u8>)
    requires
        0 < width,
        0 <= height,
        width % 2 == 0,
        height % 2 == 0,
    ensures
        yuy2_of(black_420_of(width * height), width, height, kept) == black_yuy2_of(width * height),
{
    let src = black_420_of(width * height);
    let out = yuy2_of(src, width, height, kept);
    let n = width * 2;
    law_nv12_bytes(width, height);
    assert(height * n == 2 * (width * height)) by (nonlinear_arith)
        requires
            n == width * 2,
    ;
    assert(height * width == width * height) by (nonlinear_arith);
    assert forall|i: int| 0 <= i < out.len() implies #[trigger] out[i] == black_yuy2_of(
        width * height,
    )[i] by {
        let r = i / n;
        let c = i % n;
        lemma_within_rows(i, n, height);
        vstd::arithmetic::div_mod::lemma_fundamental_div_mod(i, n);
        assert(n * (i / n) == 2 * (width * (i / n))) by (nonlinear_arith)
            requires
                n == width * 2,
        ;
        lemma_row_within(r, width, height);
        lemma_row_within(r / 2, width, height / 2);
    }
    assert(out =~= black_yuy2_of(width * height));
}

/// The conversion to I420 loses nothing.
pub proof fn law_i420_is_lossless(a: Seq<u8>, b: Seq<u8>, luma: int)
    requires
        0 <= luma,
        luma % 4 == 0,
        luma + luma / 2 <= a.len(),
        luma + luma / 2 <= b.len(),
        i420_of(a, luma) == i420_of(b, luma),
    ensures
        a.take(luma + luma / 2) == b.take(luma + luma / 2),
{
    let x = i420_of(a, luma);
    let y = i420_of(b, luma);
    let q = luma / 4;
    assert forall|i: int| 0 <= i < luma + luma / 2 implies a[i] == b[i] by {
        if i < luma {
            assert(x[i] == y[i]);
            assert(x[i] == a[i] && y[i] == b[i]);
        } else {
            let p = (i - luma) / 2;
            assert(0 <= p < q);
            let (u, v) = (luma + p, luma + q + p);
            assert(x[u] == a[luma + 2 * p] && y[u] == b[luma + 2 * p]);
            assert(x[v] == a[luma + 2 * p + 1] && y[v] == b[luma + 2 * p + 1]);
            assert(x[u] == y[u] && x[v] == y[v]);
            assert(i == luma + 2 * p || i == luma + 2 * p + 1);
        }
    }
    assert(a.take(luma + luma / 2) =~= b.take(luma + luma / 2));
}

/// An I420 frame holds the luma plane, then all U bytes, then all V bytes: pair `k` of the NV12
/// chroma plane gives byte `k` of either plane.
pub proof fn law_i420_planes(src: Seq<u8>, width: int, height: int, i: int, k: int)
    requires
        even_size(width, height),
        nv12_bytes(width, height) <= src.len(),
        0 <= i < width * height,
        0 <= 4 * k < width * height,
    ensures
        ({
            let out = i420_of(src, width * height);
            let (luma, pairs) = (width * height, (width / 2) * (height / 2));
            &&& out.len() == luma + pairs + pairs
            &&& out[i] == src[i]
            &&& out[luma + k] == src[luma + 2 * k]
            &&& out[luma + pairs + k] == src[luma + 2 * k + 1]
        }),
{
    let (w2, h2) = (width / 2, height / 2);
    assert(width * height == 4 * (w2 * h2)) by (nonlinear_arith)
        requires
            width == 2 * w2,
            height == 2 * h2,
    ;
}

/// Pixels `2x` and `2x + 1` of row `r` of a YUY2 frame are four bytes, Y0 U Y1 V: the luma of the
/// two pixels and the chroma pair `x` of chroma row `r / 2`, which rows `2k` and `2k + 1` share.
pub proof fn law_yuy2_pixels(
    src: Seq<u8>,
    width: int,
    height: int,
    kept: Seq<u8>,
    r: int,
    k: int,
    x: int,
)
    requires
        even_size(width, height),
        0 <= r < height,
        r == 2 * k || r == 2 * k + 1,
        0 <= 2 * x < width,
    ensures
        ({
            let out = yuy2_of(src, width, height, kept);
            let at = 2 * (r * width + 2 * x);
            let chroma = width * height + k * width;
            &&& out.len() == 2 * (width * height)
            &&& out[at] == src[r * width + 2 * x]
            &&& out[at + 1] == src[chroma + 2 * x]
            &&& out[at + 2] == src[r * width + 2 * x + 1]
            &&& out[at + 3] == src[chroma + 2 * x + 1]
        }),
{
    let n = width * 2;
    assert(2 * (r * width + 2 * x) == r * n + 4 * x && height * n == 2 * (width * height))
        by (nonlinear_arith)
        requires
            n == width * 2,
    ;
    law_row_and_column(r, 4 * x, n);
    law_row_and_column(r, 4 * x + 1, n);
    law_row_and_column(r, 4 * x + 2, n);
    law_row_and_column(r, 4 * x + 3, n);
    lemma_row_within(r, n, height);
}

/// The conversion to YUY2 loses nothing: frames with the same YUY2 frame are the same.
pub proof fn law_yuy2_is_lossless(
    a: Seq<u8>,
    b: Seq<u8>,
    width: int,
    height: int,
    kept: Seq<u8>,
)
    requires
        even_size(width, height),
        nv12_bytes(width, height) <= a.len(),
        nv12_bytes(width, height) <= b.len(),
        yuy2_of(a, width, height, kept) == yuy2_of(b, width, height, kept),
    ensures
        a.take(nv12_bytes(width, height)) == b.take(nv12_bytes(width, height)),
{
    let luma = width * height;
    assert(height * width == luma) by (nonlinear_arith)
        requires
            luma == width * height,
    ;
    assert forall|i: int| 0 <= i < nv12_bytes(width, height) implies a[i] == b[i] by {
        let j = if i < luma {
            i
        } else {
            i - luma
        };
        let rows = if i < luma {
            height
        } else {
            height / 2
        };
        lemma_within_rows(j, width, rows);
        vstd::arithmetic::div_mod::lemma_fundamental_div_mod(j, width);
        let (r, c) = (j / width, j % width);
        assert(r * width == width * r) by (nonlinear_arith);
        let row = if i < luma {
            r
        } else {
            2 * r
        };
        law_yuy2_pixels(a, width, height, kept, row, row / 2, c / 2);
        law_yuy2_pixels(b, width, height, kept, row, row / 2, c / 2);
    }
    assert(a.take(nv12_bytes(width, height)) =~= b.take(nv12_bytes(width, height)));
}

/// Pixel (`r`, `c`) of a scaled frame is the pixel (`sr`, `sc`) of the source that lies at the same
/// fraction of its height and width: the last one that does not lie beyond.
pub proof fn law_scaled_pixel(
    src: Seq<u8>,
    sw: int,
    sh: int,
    dw: int,
    dh: int,
    r: int,
    c: int,
    sr: int,
    sc: int,
)
    requires
        even_size(sw, sh),
        even_size(dw, dh),
        0 <= r < dh,
        0 <= c < dw,
        sr * dh <= r * sh < (sr + 1) * dh,
        sc * dw <= c * sw < (sc + 1) * dw,
    ensures
        scaled(src, sw, sh, dw, dh).len() == dw * dh * 3 / 2,
        scaled(src, sw, sh, dw, dh)[r * dw + c] == src[sr * sw + sc],
{
    lemma_nearest_is(r, dh, sh, sr);
    lemma_nearest_is(c, dw, sw, sc);
    law_row_and_column(r, c, dw);
    lemma_row_within(r, dw, dh);
    assert(dh * dw == dw * dh) by (nonlinear_arith);
    law_nv12_bytes(dw, dh);
}

/// The chroma pair (`r`, `c`) of a scaled frame is the pair (`sr`, `sc`) of the source that lies at
/// the same fraction of the chroma plane; U stays U and V stays V.
pub proof fn law_scaled_chroma(
    src: Seq<u8>,
    sw: int,
    sh: int,
    dw: int,
    dh: int,
    r: int,
    c: int,
    sr: int,
    sc: int,
)
    requires
        even_size(sw, sh),
        even_size(dw, dh),
        0 <= 2 * r < dh,
        0 <= 2 * c < dw,
        sr * dh <= r * sh < (sr + 1) * dh,
        sc * dw <= c * sw < (sc + 1) * dw,
    ensures
        ({
            let out = scaled(src, sw, sh, dw, dh);
            let at = dw * dh + r * dw + 2 * c;
            let from = sw * sh + sr * sw + 2 * sc;
            out[at] == src[from] && out[at + 1] == src[from + 1]
        }),
{
    let (sh2, sw2, dh2, dw2) = (sh / 2, sw / 2, dh / 2, dw / 2);
    assert(sr * dh2 <= r * sh2 < (sr + 1) * dh2) by (nonlinear_arith)
        requires
            sr * dh <= r * sh < (sr + 1) * dh,
            dh == 2 * dh2,
            sh == 2 * sh2,
    ;
    assert(sc * dw2 <= c * sw2 < (sc + 1) * dw2) by (nonlinear_arith)
        requires
            sc * dw <= c * sw < (sc + 1) * dw,
            dw == 2 * dw2,
            sw == 2 * sw2,
    ;
    lemma_nearest_is(r, dh2, sh2, sr);
    lemma_nearest_is(c, dw2, sw2, sc);
    law_row_and_column(r, 2 * c, dw);
    law_row_and_column(r, 2 * c + 1, dw);
    lemma_row_within(r, dw, dh2);
    assert(0 <= dw * dh) by (nonlinear_arith)
        requires
            0 < dw,
            0 < dh,
    ;
}

proof fn lemma_nearest_is(d: int, dn: int, sn: int, s: int)
    requires
        0 < dn,
        s * dn <= d * sn < (s + 1) * dn,
    ensures
        nearest(d, dn, sn) == s,
{
    assert((s + 1) * dn == s * dn + dn) by (nonlinear_arith);
    vstd::arithmetic::div_mod::lemma_fundamental_div_mod_converse(d * sn, dn, s, d * sn - s * dn);
}

/// A black frame is 16 in every luma byte and 128 in every chroma byte, whatever the layout.
pub proof fn law_black_bytes(width: int, height: int, i: int)
    requires
        even_size(width, height),
        0 <= i,
    ensures
        black_420_of(width * height).len() == width * height * 3 / 2,
        black_yuy2_of(width * height).len() == width * height * 2,
        i < width * height ==> black_420_of(width * height)[i] == 16,
        width * height <= i < width * height * 3 / 2 ==> black_420_of(width * height)[i] == 128,
        i < width * height ==> black_yuy2_of(width * height)[2 * i] == 16,
        i < width * height ==> black_yuy2_of(width * height)[2 * i + 1] == 128,
{
    law_nv12_bytes(width, height);
    assert(0 <= width * height) by (nonlinear_arith)
        requires
            0 < width,
            0 < height,
    ;
}

}
