//! Writing frames into sample buffers.
//!
//! A buffer is a sequence of bytes in which row 0 starts at `origin` and each further row `pitch`
//! bytes on; the pitch is negative for buffers that hold the picture upside down.

use vstd::prelude::*;
use crate::codes::{Code, E_FAIL};
use crate::color::nv12_row_to_bgrx;
use crate::layout::{FrameRing, ReadOutcome};
use crate::source::media_stream::Format;

verus! {

/// Bytes of a row.
pub open spec fn row_bytes_of(format: Format, width: int) -> int {
    match format {
        Format::Nv12 => width,
        Format::Rgb32 => width * 4,
    }
}

/// Rows of a frame; NV12 has the chroma rows below the luma rows.
pub open spec fn rows_of(format: Format, height: int) -> int {
    match format {
        Format::Nv12 => height * 3 / 2,
        Format::Rgb32 => height,
    }
}

/// Bytes of a row.
pub fn row_bytes(format: Format, width: u32) -> (n: u64)
    ensures
        n == row_bytes_of(format, width as int),
{
    match format {
        Format::Nv12 => width as u64,
        Format::Rgb32 => width as u64 * 4,
    }
}

/// Rows of a frame.
pub fn rows(format: Format, height: u32) -> (n: u64)
    ensures
        n == rows_of(format, height as int),
{
    match format {
        Format::Nv12 => height as u64 * 3 / 2,
        Format::Rgb32 => height as u64,
    }
}

/// A buffer of `len` bytes with rows `pitch` apart, in either direction, can take a frame.
pub open spec fn holds_rows(format: Format, width: int, height: int, pitch: int, len: int) -> bool {
    &&& crate::num::magnitude(pitch) >= row_bytes_of(format, width)
    &&& crate::num::magnitude(pitch) * rows_of(format, height) <= len
}

/// Whether a locked buffer of `len` bytes with rows `pitch` apart can take a frame.
pub fn check_2d(format: Format, width: u32, height: u32, pitch: i32, len: u32) -> (r: Result<
    (),
    Code,
>)
    ensures
        r == (if holds_rows(format, width as int, height as int, pitch as int, len as int) {
            Ok::<(), Code>(())
        } else {
            Err(E_FAIL)
        }),
{
    let p: u64 = if pitch < 0 {
        (-(pitch as i64)) as u64
    } else {
        pitch as u64
    };
    let n: u64 = rows(format, height);
    assert(p * n <= 0x8000_0000 * 0x1_8000_0000) by (nonlinear_arith)
        requires
            0 <= p <= 0x8000_0000,
            0 <= n <= 0x1_8000_0000,
    ;
    assert(0 <= p * n) by (nonlinear_arith)
        requires
            0 <= p,
            0 <= n,
    ;
    if p >= row_bytes(format, width) && p * n <= len as u64 {
        Ok(())
    } else {
        Err(E_FAIL)
    }
}

/// Whether a locked buffer of `max` bytes without gaps can take a frame: the bytes needed.
pub fn check_packed(format: Format, width: u32, height: u32, max: u32) -> (r: Result<u32, Code>)
    ensures
        ({
            let needed = row_bytes_of(format, width as int) * rows_of(format, height as int);
            match r {
                Ok(n) => max >= needed && n == needed,
                Err(code) => max < needed && code == E_FAIL,
            }
        }),
{
    let b: u64 = row_bytes(format, width);
    let n: u64 = rows(format, height);
    assert(0 <= b * n <= 0x4_0000_0000 * 0x1_8000_0000) by (nonlinear_arith)
        requires
            0 <= b <= 0x4_0000_0000,
            0 <= n <= 0x1_8000_0000,
    ;
    let needed: u128 = b as u128 * n as u128;
    if max as u128 >= needed {
        Ok(needed as u32)
    } else {
        Err(E_FAIL)
    }
}

/// Row `r` of the frame in the negotiated format, or of a black one.
pub open spec fn row_of(frame: Option<Seq<u8>>, format: Format, width: int, height: int, r: int) -> Seq<
    u8,
> {
    match format {
        Format::Nv12 => match frame {
            Some(f) => f.subrange(r * width, r * width + width),
            None => Seq::new(
                width as nat,
                |c: int|
                    if r < height {
                        16u8
                    } else {
                        128u8
                    },
            ),
        },
        Format::Rgb32 => match frame {
            Some(f) => crate::color::bgrx_row(
                f.subrange(r * width, r * width + width),
                f.subrange(
                    width * height + (r / 2) * width,
                    width * height + (r / 2) * width + width,
                ),
                width,
            ),
            None => Seq::new(
                (4 * width) as nat,
                |c: int|
                    if c % 4 == 3 {
                        255u8
                    } else {
                        0u8
                    },
            ),
        },
    }
}

proof fn lemma_rows_within(width: int, height: int, r: int)
    requires
        crate::convert::even_size(width, height),
        0 <= r,
    ensures
        0 <= width * height,
        crate::convert::nv12_bytes(width, height) == width * height + (height / 2) * width,
        r < height * 3 / 2 ==> 0 <= r * width && r * width + width <= crate::convert::nv12_bytes(
            width,
            height,
        ),
        r < height ==> 0 <= (r / 2) * width && width * height + (r / 2) * width + width
            <= crate::convert::nv12_bytes(width, height) && 0 <= r * width && r * width + width
            <= width * height,
{
    let k = height / 2;
    assert(0 <= width * height && width * height == 2 * (k * width)) by (nonlinear_arith)
        requires
            0 < width,
            height == 2 * k,
            0 < k,
    ;
    if r < height * 3 / 2 {
        assert(r < 3 * k);
        assert(0 <= r * width && r * width + width <= 3 * (k * width)) by (nonlinear_arith)
            requires
                0 <= r,
                r + 1 <= 3 * k,
                0 < width,
        ;
    }
    if r < height {
        assert(r / 2 + 1 <= k);
        let q = r / 2;
        assert(0 <= q * width && q * width + width <= k * width) by (nonlinear_arith)
            requires
                0 <= q,
                q + 1 <= k,
                0 < width,
        ;
        assert(r * width + width <= 2 * (k * width)) by (nonlinear_arith)
            requires
                0 <= r,
                r + 1 <= 2 * k,
                0 < width,
        ;
    }
}

/// Row `r` of the frame in the negotiated format, or of a black one.
fn frame_row(frame: Option<&[u8]>, format: Format, width: usize, height: usize, r: usize) -> (row: Vec<
    u8,
>)
    requires
        crate::convert::even_size(width as int, height as int),
        width * height * 3 <= usize::MAX,
        width * 4 <= usize::MAX,
        r < rows_of(format, height as int),
        frame matches Some(f) ==> f@.len() >= crate::convert::nv12_bytes(
            width as int,
            height as int,
        ),
    ensures
        row@ == row_of(
            match frame {
                Some(f) => Some(f@),
                None => None,
            },
            format,
            width as int,
            height as int,
            r as int,
        ),
        row@.len() == row_bytes_of(format, width as int),
{
    proof {
        lemma_rows_within(width as int, height as int, r as int);
        crate::convert::law_nv12_bytes(width as int, height as int);
    }
    let mut row: Vec<u8> = Vec::new();
    match format {
        Format::Nv12 => match frame {
            Some(f) => {
                let start: usize = r * width;
                assert(f.len() == f@.len());
                let mut c: usize = 0;
                while c < width
                    invariant
                        c <= width,
                        start + width <= f@.len(),
                        f@.len() <= usize::MAX,
                        row@.len() == c,
                        forall|k: int| 0 <= k < c ==> #[trigger] row@[k] == f@[start + k],
                    decreases width - c,
                {
                    row.push(f[start + c]);
                    c += 1;
                }
                assert(row@ =~= f@.subrange(start as int, start + width));
            },
            None => {
                let v: u8 = if r < height {
                    16
                } else {
                    128
                };
                row.resize(width, v);
                assert(row@ =~= row_of(None, format, width as int, height as int, r as int));
            },
        },
        Format::Rgb32 => {
            row.resize(width * 4, 0);
            match frame {
                Some(f) => {
                    let start: usize = r * width;
                    let luma: usize = width * height;
                    let uv_start: usize = luma + (r / 2) * width;
                    let y = vstd::slice::slice_subrange(f, start, start + width);
                    let uv = vstd::slice::slice_subrange(f, uv_start, uv_start + width);
                    nv12_row_to_bgrx(y, uv, row.as_mut_slice());
                    assert(row@ =~= crate::color::bgrx_row(y@, uv@, width as int));
                },
                None => {
                    let mut c: usize = 0;
                    while c < width * 4
                        invariant
                            c <= width * 4,
                            width * 4 <= usize::MAX,
                            row@.len() == width * 4,
                            forall|k: int|
                                0 <= k < c ==> #[trigger] row@[k] == (if k % 4 == 3 {
                                    255u8
                                } else {
                                    0u8
                                }),
                        decreases width * 4 - c,
                    {
                        row.set(
                            c,
                            if c % 4 == 3 {
                                255
                            } else {
                                0
                            },
                        );
                        c += 1;
                    }
                    assert(row@ =~= row_of(None, format, width as int, height as int, r as int));
                },
            }
        },
    }
    row
}

/// Where row `r` starts.
pub open spec fn row_start(origin: int, pitch: int, r: int) -> int {
    origin + r * pitch
}

/// Byte `c` of row `r` of a buffer.
pub open spec fn pixel_byte(buf: Seq<u8>, origin: int, pitch: int, r: int, c: int) -> u8 {
    buf[row_start(origin, pitch, r) + c]
}

/// Byte `i` of a buffer belongs to one of its first `n` rows.
pub open spec fn in_rows(i: int, origin: int, pitch: int, n: int, bytes: int) -> bool {
    exists|r: int|
        0 <= r < n && #[trigger] row_start(origin, pitch, r) <= i < row_start(origin, pitch, r) + bytes
}

proof fn lemma_rows_apart(origin: int, pitch: int, bytes: int, a: int, b: int)
    requires
        crate::num::magnitude(pitch) >= bytes,
        a < b,
    ensures
        row_start(origin, pitch, a) + bytes <= row_start(origin, pitch, b) || row_start(
            origin,
            pitch,
            b,
        ) + bytes <= row_start(origin, pitch, a),
{
    let d = b - a;
    assert(b * pitch - a * pitch == d * pitch) by (nonlinear_arith)
        requires
            d == b - a,
    ;
    if pitch >= 0 {
        assert(d * pitch >= pitch) by (nonlinear_arith)
            requires
                d >= 1,
                pitch >= 0,
        ;
    } else {
        assert(d * pitch <= pitch) by (nonlinear_arith)
            requires
                d >= 1,
                pitch < 0,
        ;
    }
}

/// `after` is `before` with a frame, or black, in the rows that start at `origin + r * pitch`.
pub open spec fn shows(
    before: Seq<u8>,
    after: Seq<u8>,
    frame: Option<Seq<u8>>,
    format: Format,
    width: int,
    height: int,
    origin: int,
    pitch: int,
) -> bool {
    &&& after.len() == before.len()
    &&& forall|r: int, c: int|
        0 <= r < rows_of(format, height) && 0 <= c < row_bytes_of(format, width)
            ==> #[trigger] pixel_byte(after, origin, pitch, r, c) == row_of(
            frame,
            format,
            width,
            height,
            r,
        )[c]
    &&& forall|i: int|
        0 <= i < before.len() && !in_rows(
            i,
            origin,
            pitch,
            rows_of(format, height),
            row_bytes_of(format, width),
        ) ==> #[trigger] after[i] == before[i]
}

/// All rows lie within a buffer of `len` bytes, and apart from each other.
pub open spec fn rows_fit(
    format: Format,
    width: int,
    height: int,
    origin: int,
    pitch: int,
    len: int,
) -> bool {
    &&& crate::num::magnitude(pitch) >= row_bytes_of(format, width)
    &&& forall|r: int|
        0 <= r < rows_of(format, height) ==> 0 <= #[trigger] row_start(origin, pitch, r)
            && row_start(origin, pitch, r) + row_bytes_of(format, width) <= len
}

/// Writes the frame, or black, into a locked buffer whose row `r` starts at `origin + r * pitch`.
pub fn write_frame(
    frame: Option<&[u8]>,
    format: Format,
    width: u32,
    height: u32,
    buf: &mut [u8],
    origin: usize,
    pitch: i64,
)
    requires
        crate::convert::even_size(width as int, height as int),
        width * height * 3 <= usize::MAX,
        width * 4 <= usize::MAX,
        frame matches Some(f) ==> f@.len() >= crate::convert::nv12_bytes(
            width as int,
            height as int,
        ),
        rows_fit(
            format,
            width as int,
            height as int,
            origin as int,
            pitch as int,
            old(buf)@.len() as int,
        ),
    ensures
        shows(
            old(buf)@,
            final(buf)@,
            match frame {
                Some(f) => Some(f@),
                None => None,
            },
            format,
            width as int,
            height as int,
            origin as int,
            pitch as int,
        ),
{
    assert(buf.len() == buf@.len());
    let ghost o = origin as int;
    let ghost p = pitch as int;
    let ghost view = match frame {
        Some(f) => Some(f@),
        None => None,
    };
    let w: usize = width as usize;
    let h: usize = height as usize;
    let n: usize = match format {
        Format::Nv12 => {
            assert(h * 3 <= usize::MAX) by {
                assert(h * 3 <= w * h * 3) by (nonlinear_arith)
                    requires
                        1 <= w,
                        0 <= h,
                ;
            }
            h * 3 / 2
        },
        Format::Rgb32 => h,
    };
    let bytes: usize = match format {
        Format::Nv12 => w,
        Format::Rgb32 => w * 4,
    };
    let mut off: i128 = origin as i128;
    let mut r: usize = 0;
    assert(0 * p == 0);
    while r < n
        invariant
            r <= n,
            o == origin,
            p == pitch,
            w == width,
            h == height,
            n == rows_of(format, height as int),
            bytes == row_bytes_of(format, width as int),
            crate::convert::even_size(width as int, height as int),
            w * h * 3 <= usize::MAX,
            w * 4 <= usize::MAX,
            frame matches Some(f) ==> f@.len() >= crate::convert::nv12_bytes(
                width as int,
                height as int,
            ),
            view == (match frame {
                Some(f) => Some(f@),
                None => None,
            }),
            crate::num::magnitude(p) >= bytes,
            forall|k: int|
                0 <= k < n ==> 0 <= #[trigger] row_start(o, p, k) && row_start(o, p, k) + bytes
                    <= buf@.len(),
            off == row_start(o, p, r as int),
            buf@.len() == old(buf)@.len(),
            buf@.len() <= usize::MAX,
            forall|k: int, c: int|
                0 <= k < r && 0 <= c < bytes ==> #[trigger] pixel_byte(buf@, o, p, k, c) == row_of(
                    view,
                    format,
                    width as int,
                    height as int,
                    k,
                )[c],
            forall|i: int|
                0 <= i < buf@.len() && !in_rows(i, o, p, r as int, bytes as int) ==> #[trigger] buf@[i]
                    == old(buf)@[i],
        decreases n - r,
    {
        let row = frame_row(frame, format, w, h, r);
        assert(0 <= row_start(o, p, r as int));
        let start: usize = off as usize;
        let ghost before = buf@;
        put_row(buf, start, row.as_slice());
        proof {
            assert forall|k: int, c: int| 0 <= k < r + 1 && 0 <= c < bytes implies #[trigger] pixel_byte(
                buf@,
                o,
                p,
                k,
                c,
            ) == row_of(view, format, width as int, height as int, k)[c] by {
                if k < r {
                    lemma_rows_apart(o, p, bytes as int, k, r as int);
                    assert(pixel_byte(before, o, p, k, c) == row_of(
                        view,
                        format,
                        width as int,
                        height as int,
                        k,
                    )[c]);
                    assert(0 <= row_start(o, p, k));
                }
            }
            assert forall|i: int|
                0 <= i < buf@.len() && !in_rows(i, o, p, r + 1, bytes as int) implies #[trigger] buf@[i]
                == old(buf)@[i] by {
                if in_rows(i, o, p, r as int, bytes as int) {
                    let k = choose|k: int|
                        0 <= k < r && #[trigger] row_start(o, p, k) <= i < row_start(o, p, k)
                            + bytes;
                    assert(row_start(o, p, k) <= i < row_start(o, p, k) + bytes);
                }
                if start <= i < start + bytes {
                    assert(row_start(o, p, r as int) <= i < row_start(o, p, r as int) + bytes);
                }
            }
            assert((r + 1) * p == r * p + p) by (nonlinear_arith);
        }
        off = off + pitch as i128;
        r += 1;
    }
}

fn put_row(buf: &mut [u8], start: usize, row: &[u8])
    requires
        start + row@.len() <= old(buf)@.len(),
    ensures
        final(buf)@ == old(buf)@.take(start as int) + row@ + old(buf)@.skip(start + row@.len()),
{
    assert(buf.len() == buf@.len());
    let mut c: usize = 0;
    while c < row.len()
        invariant
            c <= row@.len(),
            start + row@.len() <= buf@.len(),
            buf@.len() == old(buf)@.len(),
            buf@.len() <= usize::MAX,
            forall|i: int|
                0 <= i < buf@.len() ==> #[trigger] buf@[i] == (if start <= i < start + c {
                    row@[i - start]
                } else {
                    old(buf)@[i]
                }),
        decreases row@.len() - c,
    {
        buf[start + c] = row[c];
        c += 1;
    }
    assert(buf@ =~= old(buf)@.take(start as int) + row@ + old(buf)@.skip(start + row@.len()));
}

/// The frame that a reader of the ring gets, if any.
pub open spec fn newest_of(ring: FrameRing, now: u64) -> Option<Seq<u8>> {
    if ring@.outcome(now as int) == ReadOutcome::Frame {
        Some(ring@.frame())
    } else {
        None
    }
}

/// Writes the newest frame of the section, or black, into a locked buffer.
pub fn write_newest(
    ring: &FrameRing,
    now: u64,
    format: Format,
    buf: &mut [u8],
    origin: usize,
    pitch: i64,
) -> (outcome: ReadOutcome)
    requires
        ring.wf(),
        crate::convert::even_size(ring.spec_width() as int, ring.spec_height() as int),
        ring.spec_width() * 4 <= usize::MAX,
        rows_fit(
            format,
            ring.spec_width() as int,
            ring.spec_height() as int,
            origin as int,
            pitch as int,
            old(buf)@.len() as int,
        ),
    ensures
        outcome == ring@.outcome(now as int),
        shows(
            old(buf)@,
            final(buf)@,
            newest_of(*ring, now),
            format,
            ring.spec_width() as int,
            ring.spec_height() as int,
            origin as int,
            pitch as int,
        ),
{
    let (outcome, slot) = ring.newest(now);
    if outcome == ReadOutcome::Frame {
        proof {
            crate::layout::lemma_slot_len(ring, ring@.latest);
            crate::convert::law_nv12_bytes(ring.spec_width() as int, ring.spec_height() as int);
        }
        write_frame(Some(slot), format, ring.width(), ring.height(), buf, origin, pitch);
    }
    finish_frame(outcome, format, ring.width(), ring.height(), buf, origin, pitch);
    outcome
}

/// A read is over, or there is no section to read: the buffer keeps the frame that was read, and
/// without one it shows black.
pub fn finish_frame(
    outcome: ReadOutcome,
    format: Format,
    width: u32,
    height: u32,
    buf: &mut [u8],
    origin: usize,
    pitch: i64,
)
    requires
        crate::convert::even_size(width as int, height as int),
        width * height * 3 <= usize::MAX,
        width * 4 <= usize::MAX,
        rows_fit(
            format,
            width as int,
            height as int,
            origin as int,
            pitch as int,
            old(buf)@.len() as int,
        ),
    ensures
        if outcome == ReadOutcome::Frame {
            final(buf)@ == old(buf)@
        } else {
            shows(
                old(buf)@,
                final(buf)@,
                None,
                format,
                width as int,
                height as int,
                origin as int,
                pitch as int,
            )
        },
{
    if outcome != ReadOutcome::Frame {
        write_frame(None, format, width, height, buf, origin, pitch);
    }
}

// ---------------------------------------------------------------------------------------------
// Laws

/// A black NV12 frame and a black RGB frame show the same: black.
pub proof fn law_black_rows_agree(width: int, height: int, r: int, c: int)
    requires
        crate::convert::even_size(width, height),
        0 <= r < height,
        0 <= c < 4 * width,
    ensures
        row_of(None, Format::Rgb32, width, height, r)[c] == crate::color::bgrx(16, 128, 128)[c % 4],
{
}

/// Row `r` of an NV12 sample is row `r` of the frame: first the luma rows, then the chroma rows.
pub proof fn law_nv12_row(frame: Seq<u8>, width: int, height: int, r: int, c: int)
    requires
        crate::convert::even_size(width, height),
        crate::convert::nv12_bytes(width, height) <= frame.len(),
        0 <= r,
        2 * r < 3 * height,
        0 <= c < width,
    ensures
        rows_of(Format::Nv12, height) == height + height / 2,
        row_bytes_of(Format::Nv12, width) == width,
        row_of(Some(frame), Format::Nv12, width, height, r).len() == width,
        row_of(Some(frame), Format::Nv12, width, height, r)[c] == frame[r * width + c],
{
    lemma_row_in_frame(width, height, r);
}

proof fn lemma_row_in_frame(width: int, height: int, r: int)
    requires
        crate::convert::even_size(width, height),
        0 <= r,
        2 * r < 3 * height,
    ensures
        0 <= r * width,
        r * width + width <= crate::convert::nv12_bytes(width, height),
{
    let h2 = height / 2;
    assert(0 <= r * width && r * width + width <= width * height + h2 * width) by (nonlinear_arith)
        requires
            height == 2 * h2,
            0 < width,
            0 <= r,
            2 * r < 3 * height,
    ;
}

/// Pixel `x` of row `r` of an RGB32 sample is the BT.601 pixel of its own luma byte and of the
/// chroma pair that it shares with three neighbours: rows `2k` and `2k + 1` have chroma row `k`,
/// pixels `2p` and `2p + 1` its pair `p`.
pub proof fn law_rgb_pixel(
    frame: Seq<u8>,
    width: int,
    height: int,
    r: int,
    k: int,
    x: int,
    p: int,
)
    requires
        crate::convert::even_size(width, height),
        crate::convert::nv12_bytes(width, height) <= frame.len(),
        0 <= r < height,
        r == 2 * k || r == 2 * k + 1,
        0 <= x < width,
        x == 2 * p || x == 2 * p + 1,
    ensures
        rows_of(Format::Rgb32, height) == height,
        row_bytes_of(Format::Rgb32, width) == 4 * width,
        row_of(Some(frame), Format::Rgb32, width, height, r).len() == 4 * width,
        row_of(Some(frame), Format::Rgb32, width, height, r).subrange(4 * x, 4 * x + 4)
            == crate::color::bgrx(
            frame[r * width + x],
            frame[width * height + k * width + 2 * p],
            frame[width * height + k * width + 2 * p + 1],
        ),
{
    let h2 = height / 2;
    lemma_row_in_frame(width, height, r);
    assert(0 <= k * width && k * width + width <= h2 * width && 0 <= width * height)
        by (nonlinear_arith)
        requires
            0 < width,
            0 < height,
            0 <= k < h2,
    ;
    let y = frame.subrange(r * width, r * width + width);
    let uv = frame.subrange(
        width * height + k * width,
        width * height + k * width + width,
    );
    let row = row_of(Some(frame), Format::Rgb32, width, height, r);
    assert(row == crate::color::bgrx_row(y, uv, width)) by {
        assert(r / 2 == k);
    }
    assert(y[x] == frame[r * width + x]);
    assert(uv[2 * p] == frame[width * height + k * width + 2 * p]);
    assert(uv[2 * p + 1] == frame[width * height + k * width + 2 * p + 1]);
    crate::color::law_row_pixel(y, uv, width, x, p);
}

/// A change of chroma row `k` of a frame changes nothing in an RGB32 sample but rows `2k` and
/// `2k + 1`; a change of luma row `k` nothing but row `k`.
pub proof fn law_rgb_rows_depend_on_their_bytes(
    a: Seq<u8>,
    b: Seq<u8>,
    width: int,
    height: int,
    r: int,
    k: int,
)
    requires
        crate::convert::even_size(width, height),
        crate::convert::nv12_bytes(width, height) <= a.len(),
        a.len() == b.len(),
        0 <= r < height,
        r == 2 * k || r == 2 * k + 1,
        forall|c: int|
            0 <= c < width ==> #[trigger] a[r * width + c] == b[r * width + c],
        forall|c: int|
            0 <= c < width ==> #[trigger] a[width * height + k * width + c] == b[width * height + k
                * width + c],
    ensures
        row_of(Some(a), Format::Rgb32, width, height, r) == row_of(
            Some(b),
            Format::Rgb32,
            width,
            height,
            r,
        ),
{
    let ra = row_of(Some(a), Format::Rgb32, width, height, r);
    let rb = row_of(Some(b), Format::Rgb32, width, height, r);
    law_rgb_pixel(a, width, height, r, k, 0, 0);
    law_rgb_pixel(b, width, height, r, k, 0, 0);
    assert forall|i: int| 0 <= i < 4 * width implies #[trigger] ra[i] == rb[i] by {
        let x = i / 4;
        let p = x / 2;
        law_rgb_pixel(a, width, height, r, k, x, p);
        law_rgb_pixel(b, width, height, r, k, x, p);
        assert(a[width * height + k * width + 2 * p] == b[width * height + k * width + 2 * p]);
        let q = 2 * p + 1;
        assert(a[width * height + k * width + q] == b[width * height + k * width + q]);
        assert(a[r * width + x] == b[r * width + x]);
        assert(ra.subrange(4 * x, 4 * x + 4)[i - 4 * x] == ra[i]);
        assert(rb.subrange(4 * x, 4 * x + 4)[i - 4 * x] == rb[i]);
    }
    assert(ra =~= rb);
}

/// A black sample is the sample of a black frame, in either format.
pub proof fn law_black_sample_is_black_frame(width: int, height: int, format: Format, r: int)
    requires
        crate::convert::even_size(width, height),
        0 <= r < rows_of(format, height),
    ensures
        row_of(None, format, width, height, r) == row_of(
            Some(crate::convert::black_420_of(width * height)),
            format,
            width,
            height,
            r,
        ),
{
    let black = crate::convert::black_420_of(width * height);
    crate::convert::law_nv12_bytes(width, height);
    let none = row_of(None, format, width, height, r);
    let some = row_of(Some(black), format, width, height, r);
    match format {
        Format::Nv12 => {
            lemma_row_in_frame(width, height, r);
            assert forall|c: int| 0 <= c < width implies #[trigger] none[c] == some[c] by {
                if r < height {
                    assert(r * width + c < width * height) by (nonlinear_arith)
                        requires
                            0 <= r < height,
                            0 <= c < width,
                    ;
                } else {
                    assert(width * height <= r * width) by (nonlinear_arith)
                        requires
                            height <= r,
                            0 < width,
                    ;
                }
            }
        },
        Format::Rgb32 => {
            lemma_black_pixel(width, height, r, 0);
            assert forall|i: int| 0 <= i < 4 * width implies #[trigger] none[i] == some[i] by {
                let x = i / 4;
                lemma_black_pixel(width, height, r, x);
                assert(some.subrange(4 * x, 4 * x + 4)[i - 4 * x] == some[i]);
            }
        },
    }
    assert(none =~= some);
}

proof fn lemma_black_pixel(width: int, height: int, r: int, x: int)
    requires
        crate::convert::even_size(width, height),
        0 <= r < height,
        0 <= x < width,
    ensures
        ({
            let row = row_of(
                Some(crate::convert::black_420_of(width * height)),
                Format::Rgb32,
                width,
                height,
                r,
            );
            row.len() == 4 * width && row.subrange(4 * x, 4 * x + 4) == seq![0u8, 0, 0, 255]
        }),
{
    let black = crate::convert::black_420_of(width * height);
    let (k, p, h2) = (r / 2, x / 2, height / 2);
    crate::convert::law_nv12_bytes(width, height);
    law_rgb_pixel(black, width, height, r, k, x, p);
    assert(0 <= r * width && r * width + width <= width * height && 0 <= k * width && k * width
        + width <= h2 * width && width * height == 2 * (h2 * width)) by (nonlinear_arith)
        requires
            0 <= r < height,
            0 <= k < h2,
            0 < width,
            height == 2 * h2,
    ;
    assert(black[r * width + x] == 16);
    assert(black[width * height + k * width + 2 * p] == 128);
    assert(black[width * height + k * width + 2 * p + 1] == 128);
    crate::color::law_black_and_white();
}

/// A frame written without gaps, row after row from the start of the buffer, is the frame itself.
pub proof fn law_packed_nv12_is_a_copy(
    before: Seq<u8>,
    after: Seq<u8>,
    frame: Seq<u8>,
    width: int,
    height: int,
)
    requires
        crate::convert::even_size(width, height),
        crate::convert::nv12_bytes(width, height) <= frame.len(),
        crate::convert::nv12_bytes(width, height) <= before.len(),
        shows(before, after, Some(frame), Format::Nv12, width, height, 0, width),
    ensures
        after == frame.take(crate::convert::nv12_bytes(width, height)) + before.skip(
            crate::convert::nv12_bytes(width, height),
        ),
{
    let n = crate::convert::nv12_bytes(width, height);
    let rows = height * 3 / 2;
    assert(n == rows * width && 0 <= n) by (nonlinear_arith)
        requires
            n == width * height + (height / 2) * width,
            rows == height + height / 2,
            0 < width,
            0 < height,
    ;
    assert forall|i: int| 0 <= i < after.len() implies #[trigger] after[i] == (frame.take(n)
        + before.skip(n))[i] by {
        let (r, c) = (i / width, i % width);
        vstd::arithmetic::div_mod::lemma_fundamental_div_mod(i, width);
        vstd::arithmetic::div_mod::lemma_mod_bound(i, width);
        vstd::arithmetic::div_mod::lemma_div_pos_is_pos(i, width);
        assert(width * r == r * width) by (nonlinear_arith);
        if i < n {
            assert(r < rows) by (nonlinear_arith)
                requires
                    r * width <= i < rows * width,
                    0 < width,
            ;
            law_nv12_row(frame, width, height, r, c);
            assert(pixel_byte(after, 0, width, r, c) == row_of(
                Some(frame),
                Format::Nv12,
                width,
                height,
                r,
            )[c]);
        } else {
            if in_rows(i, 0, width, rows, width) {
                let k = choose|k: int|
                    0 <= k < rows && #[trigger] row_start(0, width, k) <= i < row_start(0, width, k)
                        + width;
                assert(k * width + width <= rows * width) by (nonlinear_arith)
                    requires
                        0 <= k < rows,
                        0 < width,
                ;
            }
        }
    }
    assert(after =~= frame.take(n) + before.skip(n));
}

/// A buffer that passed the check holds every row: from its start on with rows downwards, from its
/// last row's place on with rows upwards.
pub proof fn law_checked_buffer_holds_all_rows(
    format: Format,
    width: int,
    height: int,
    pitch: int,
    len: int,
)
    requires
        0 <= width,
        0 <= height,
        holds_rows(format, width, height, pitch, len),
    ensures
        pitch >= 0 ==> rows_fit(format, width, height, 0, pitch, len),
        pitch < 0 ==> rows_fit(
            format,
            width,
            height,
            (rows_of(format, height) - 1) * -pitch,
            pitch,
            len,
        ),
{
    let n = rows_of(format, height);
    let p = if pitch < 0 {
        -pitch
    } else {
        pitch
    };
    let origin = if pitch < 0 {
        (n - 1) * -pitch
    } else {
        0
    };
    assert forall|r: int| 0 <= r < n implies 0 <= #[trigger] row_start(origin, pitch, r) && row_start(
        origin,
        pitch,
        r,
    ) + row_bytes_of(format, width) <= len by {
        let k = if pitch < 0 {
            n - 1 - r
        } else {
            r
        };
        assert(origin + r * pitch == k * p) by (nonlinear_arith)
            requires
                pitch < 0 ==> p == -pitch && k == n - 1 - r && origin == (n - 1) * -pitch,
                pitch >= 0 ==> p == pitch && k == r && origin == 0,
        ;
        assert(0 <= k * p && k * p + p <= p * n) by (nonlinear_arith)
            requires
                0 <= k < n,
                0 <= p,
        ;
    }
}

/// The check asks for rows as long as their pixels, four bytes each in RGB32 and one in NV12, and
/// for as many rows as the frame has, half as many again in NV12.
pub proof fn law_check(format: Format, width: int, height: int, pitch: int, len: int)
    requires
        crate::convert::even_size(width, height),
    ensures
        ({
            let (p, h2) = (if pitch < 0 {
                -pitch
            } else {
                pitch
            }, height / 2);
            holds_rows(format, width, height, pitch, len) <==> (match format {
                Format::Nv12 => p >= width && p * (height + h2) <= len,
                Format::Rgb32 => p >= 4 * width && p * height <= len,
            })
        }),
        row_bytes_of(format, width) * rows_of(format, height)
            == crate::source::media_stream::frame_bytes_of(format, width, height),
{
    let h2 = height / 2;
    assert(height * 3 / 2 == height + h2);
    assert(width * (height + h2) == width * height + width * h2 && width * height == 2 * (width * h2)
        && (width * 4) * height == width * height * 4) by (nonlinear_arith)
        requires
            height == 2 * h2,
    ;
}

/// In a filled buffer byte `c` of row `r` is that of the frame, and the bytes behind the pixels of a
/// row are left as they were.
pub proof fn law_filled_buffer(
    before: Seq<u8>,
    after: Seq<u8>,
    frame: Option<Seq<u8>>,
    format: Format,
    width: int,
    height: int,
    origin: int,
    pitch: int,
    r: int,
    c: int,
)
    requires
        shows(before, after, frame, format, width, height, origin, pitch),
        pitch >= row_bytes_of(format, width),
        0 <= r < rows_of(format, height),
        0 <= c < pitch,
        0 <= origin + r * pitch + c < before.len(),
    ensures
        c < row_bytes_of(format, width) ==> after[origin + r * pitch + c] == row_of(
            frame,
            format,
            width,
            height,
            r,
        )[c],
        c >= row_bytes_of(format, width) ==> after[origin + r * pitch + c] == before[origin + r
            * pitch + c],
{
    let bytes = row_bytes_of(format, width);
    let i = origin + r * pitch + c;
    if c < bytes {
        assert(pixel_byte(after, origin, pitch, r, c) == after[i]);
    } else {
        assert(!in_rows(i, origin, pitch, rows_of(format, height), bytes)) by {
            if in_rows(i, origin, pitch, rows_of(format, height), bytes) {
                let q = choose|q: int|
                    0 <= q < rows_of(format, height) && #[trigger] row_start(origin, pitch, q) <= i
                        < row_start(origin, pitch, q) + bytes;
                assert(q * pitch <= r * pitch + c < q * pitch + bytes);
                if q <= r {
                    if q < r {
                        assert(r * pitch >= q * pitch + pitch) by (nonlinear_arith)
                            requires
                                q < r,
                                0 <= pitch,
                        ;
                    }
                } else {
                    assert(q * pitch >= r * pitch + pitch) by (nonlinear_arith)
                        requires
                            r < q,
                            0 <= pitch,
                    ;
                }
            }
        }
    }
}

}
