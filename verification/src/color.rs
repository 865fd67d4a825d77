//! NV12 (BT.601 limited range) to BGRX conversion for consumers that negotiate RGB32.

use vstd::prelude::*;

verus! {

/// `v` brought into the range of a byte.
pub open spec fn clamped(v: int) -> u8 {
    if v < 0 {
        0
    } else if v > 255 {
        255
    } else {
        v as u8
    }
}

fn clamp(v: i32) -> (r: u8)
    ensures
        r == clamped(v as int),
{
    if v < 0 {
        0
    } else if v > 255 {
        255
    } else {
        v as u8
    }
}

/// The four bytes (B, G, R, 255) of a pixel with the given luma and chroma.
pub open spec fn bgrx(y: u8, u: u8, v: u8) -> Seq<u8> {
    let c = 298 * (y - 16);
    let d = u - 128;
    let e = v - 128;
    seq![
        clamped((c + 516 * d + 128) / 256),
        clamped((c - 100 * d - 208 * e + 128) / 256),
        clamped((c + 409 * e + 128) / 256),
        255u8,
    ]
}

/// `width` pixels of a row; two neighbours share one chroma pair.
pub open spec fn bgrx_row(y: Seq<u8>, uv: Seq<u8>, width: int) -> Seq<u8> {
    Seq::new(
        (4 * width) as nat,
        |i: int|
            {
                let x = i / 4;
                bgrx(y[x], uv[x - x % 2], uv[x - x % 2 + 1])[i % 4]
            },
    )
}

fn shift8(v: i32) -> (r: i32)
    ensures
        r == v as int / 256,
{
    assert(v >> 8 == v as int / 256) by (bit_vector);
    v >> 8
}

/// The four bytes of a pixel.
pub fn pixel(y: u8, u: u8, v: u8) -> (r: [u8; 4])
    ensures
        r@ == bgrx(y, u, v),
{
    let c: i32 = 298 * (y as i32 - 16);
    let d: i32 = u as i32 - 128;
    let e: i32 = v as i32 - 128;
    [
        clamp(shift8(c + 516 * d + 128)),
        clamp(shift8(c - 100 * d - 208 * e + 128)),
        clamp(shift8(c + 409 * e + 128)),
        255,
    ]
}

/// Converts one output row. `y` holds the luma bytes, `uv` the interleaved chroma row shared by
/// this luma row pair, `out` receives four bytes (B, G, R, 255) per pixel.
pub fn nv12_row_to_bgrx(y: &[u8], uv: &[u8], out: &mut [u8])
    requires
        old(out)@.len() / 4 <= y@.len(),
        old(out)@.len() / 4 + (old(out)@.len() / 4) % 2 <= uv@.len(),
    ensures
        final(out)@ == bgrx_row(y@, uv@, old(out)@.len() as int / 4) + old(out)@.skip(
            4 * (old(out)@.len() as int / 4),
        ),
{
    let width: usize = out.len() / 4;
    let mut x: usize = 0;
    while x < width
        invariant
            x <= width,
            width == old(out)@.len() / 4,
            out@.len() == old(out)@.len(),
            out@.len() <= usize::MAX,
            width <= y@.len(),
            width + width % 2 <= uv@.len(),
            forall|i: int|
                0 <= i < 4 * x ==> #[trigger] out@[i] == bgrx_row(y@, uv@, width as int)[i],
            forall|i: int| 4 * x <= i < out@.len() ==> #[trigger] out@[i] == old(out)@[i],
        decreases width - x,
    {
        let pair: usize = x - x % 2;
        let px = pixel(y[x], uv[pair], uv[pair + 1]);
        let ghost row = bgrx_row(y@, uv@, width as int);
        assert(row[4 * x + 0] == px@[0]);
        assert(row[4 * x + 1] == px@[1]);
        assert(row[4 * x + 2] == px@[2]);
        assert(row[4 * x + 3] == px@[3]);
        out[4 * x] = px[0];
        out[4 * x + 1] = px[1];
        out[4 * x + 2] = px[2];
        out[4 * x + 3] = px[3];
        x += 1;
    }
    assert(out@ =~= bgrx_row(y@, uv@, width as int) + old(out)@.skip(4 * width));
}

/// Limited-range black and white become full-range black and white.
pub proof fn law_black_and_white()
    ensures
        bgrx(16, 128, 128) == seq![0u8, 0, 0, 255],
        bgrx(235, 128, 128) == seq![255u8, 255, 255, 255],
{
}

/// Without chroma a pixel is grey.
pub proof fn law_neutral_chroma_is_grey(y: u8)
    ensures
        bgrx(y, 128, 128)[0] == bgrx(y, 128, 128)[1],
        bgrx(y, 128, 128)[1] == bgrx(y, 128, 128)[2],
{
}

/// Blue, green and red are the rounded sums of luma and chroma with the weights 298, 409, 516, 100
/// and 208 in 256ths, and the fourth byte is full.
pub proof fn law_pixel_is_weighted_sum(y: u8, u: u8, v: u8)
    ensures
        bgrx(y, u, v).len() == 4,
        ({
            let p = bgrx(y, u, v);
            let (b, g, r) = (p[0] as int, p[1] as int, p[2] as int);
            let light = 298 * y - 298 * 16;
            let tb = light + 516 * u - 516 * 128;
            let tg = light - 100 * u + 100 * 128 - 208 * v + 208 * 128;
            let tr = light + 409 * v - 409 * 128;
            &&& 0 < b < 255 ==> 256 * b <= tb + 128 < 256 * b + 256
            &&& 0 < g < 255 ==> 256 * g <= tg + 128 < 256 * g + 256
            &&& 0 < r < 255 ==> 256 * r <= tr + 128 < 256 * r + 256
            &&& (b == 0 ==> tb + 128 < 256) && (b == 255 ==> 256 * 255 <= tb + 128)
            &&& (g == 0 ==> tg + 128 < 256) && (g == 255 ==> 256 * 255 <= tg + 128)
            &&& (r == 0 ==> tr + 128 < 256) && (r == 255 ==> 256 * 255 <= tr + 128)
            &&& p[3] == 255
        }),
{
}

/// A pixel is what BT.601 says of limited-range luma and chroma, to within one step: the exact
/// value in thousandths is 1.164 of the luma above 16, and 1.596, 0.392, 0.813 and 2.017 of the
/// chroma from 128.
pub proof fn law_pixel_is_bt601(y: u8, u: u8, v: u8)
    ensures
        ({
            let p = bgrx(y, u, v);
            let tb = 1164 * (y - 16) + 2017 * (u - 128);
            let tg = 1164 * (y - 16) - 392 * (u - 128) - 813 * (v - 128);
            let tr = 1164 * (y - 16) + 1596 * (v - 128);
            &&& 0 <= tb <= 255_000 ==> -1000 <= 1000 * p[0] - tb <= 1000
            &&& 0 <= tg <= 255_000 ==> -1000 <= 1000 * p[1] - tg <= 1000
            &&& 0 <= tr <= 255_000 ==> -1000 <= 1000 * p[2] - tr <= 1000
            &&& tb < 0 ==> p[0] <= 1
            &&& tg < 0 ==> p[1] <= 1
            &&& tr < 0 ==> p[2] <= 1
            &&& tb > 255_000 ==> p[0] >= 254
            &&& tg > 255_000 ==> p[1] >= 254
            &&& tr > 255_000 ==> p[2] >= 254
        }),
{
}

/// Pixels `2p` and `2p + 1` of a row are each made of their own luma and of pair `p` of the chroma
/// row, which they share.
pub proof fn law_row_pixel(y: Seq<u8>, uv: Seq<u8>, width: int, x: int, p: int)
    requires
        0 <= x < width,
        x == 2 * p || x == 2 * p + 1,
    ensures
        bgrx_row(y, uv, width).len() == 4 * width,
        bgrx_row(y, uv, width).subrange(4 * x, 4 * x + 4) == bgrx(y[x], uv[2 * p], uv[2 * p + 1]),
{
    let row = bgrx_row(y, uv, width);
    let px = bgrx(y[x], uv[2 * p], uv[2 * p + 1]);
    assert(x - x % 2 == 2 * p);
    assert(row[4 * x] == px[0] && row[4 * x + 1] == px[1] && row[4 * x + 2] == px[2] && row[4 * x
        + 3] == px[3]);
    assert(row.subrange(4 * x, 4 * x + 4) =~= px);
}

}
