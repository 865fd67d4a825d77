//! Capture of one monitor, scaled/letterboxed and converted to NV12 (BT.601 limited range) on the
//! GPU, then read back into the shared ring: what is asked of the GPU and how the planes are read
//! back.

use vstd::prelude::*;
use crate::layout::FrameRing;
use crate::os::can_hide_border;
use crate::stream_info::StreamInfo;
use crate::text::push_text;

verus! {

/// Lowest D3D GPU thread priority: our conversion yields to anything the user is looking at.
pub const GPU_PRIORITY: i32 = -7;

/// Frames that Windows buffers for us.
pub const POOL_FRAMES: i32 = 2;

// ---------------------------------------------------------------------------------------------
// Letterboxing

/// A rectangle in pixels.
#[derive(Clone, Copy, PartialEq, Eq, Debug, Structural)]
pub struct Fit {
    pub x: u32,
    pub y: u32,
    pub w: u32,
    pub h: u32,
}

/// `n`, or the even number below it.
pub open spec fn even(n: int) -> int {
    n - n % 2
}

/// Width and height of a `sw` x `sh` picture inside `dw` x `dh`.
pub open spec fn fit_size(sw: int, sh: int, dw: int, dh: int) -> (int, int) {
    let (w, h) = if sw * dh >= sh * dw {
        (dw, even(sh * dw / sw))
    } else {
        (even(sw * dh / sh), dh)
    };
    (crate::num::at_least(w, 2), crate::num::at_least(h, 2))
}

/// The letterbox rectangle `(x, y, w, h)`, centred on even coordinates.
pub open spec fn fitted(sw: int, sh: int, dw: int, dh: int) -> (int, int, int, int) {
    let (w, h) = fit_size(crate::num::at_least(sw, 1), crate::num::at_least(sh, 1), dw, dh);
    (even((dw - w) / 2), even((dh - h) / 2), w, h)
}

/// The picture lies within the output.
proof fn lemma_fit_size(sw: int, sh: int, dw: int, dh: int)
    requires
        1 <= sw,
        1 <= sh,
        2 <= dw,
        2 <= dh,
    ensures
        ({
            let (w, h) = fit_size(sw, sh, dw, dh);
            &&& 2 <= w <= dw
            &&& 2 <= h <= dh
            &&& w == dw || h == dh
            &&& sw * dh >= sh * dw ==> 0 <= sh * dw / sw <= dh
            &&& sw * dh < sh * dw ==> 0 <= sw * dh / sh <= dw
        }),
{
    assert(0 <= sh * dw && 0 <= sw * dh) by (nonlinear_arith)
        requires
            1 <= sw,
            1 <= sh,
            2 <= dw,
            2 <= dh,
    ;
    if sw * dh >= sh * dw {
        lemma_quotient(sh * dw, sw, dh);
    } else {
        assert(sw * dh <= sh * dw);
        lemma_quotient(sw * dh, sh, dw);
    }
}

proof fn lemma_quotient(a: int, b: int, c: int)
    requires
        0 <= a,
        0 < b,
        0 <= c,
        a <= b * c,
    ensures
        0 <= a / b <= c,
{
    vstd::arithmetic::div_mod::lemma_div_pos_is_pos(a, b);
    vstd::arithmetic::div_mod::lemma_div_is_ordered(a, b * c, b);
    vstd::arithmetic::div_mod::lemma_div_multiples_vanish(c, b);
}

/// Letterbox rectangle `(x, y, w, h)` of a `sw` x `sh` source inside `dw` x `dh`; all even.
pub fn fit_rect(sw: u32, sh: u32, dw: u32, dh: u32) -> (r: (u32, u32, u32, u32))
    requires
        2 <= dw,
        2 <= dh,
    ensures
        r.0 == fitted(sw as int, sh as int, dw as int, dh as int).0,
        r.1 == fitted(sw as int, sh as int, dw as int, dh as int).1,
        r.2 == fitted(sw as int, sh as int, dw as int, dh as int).2,
        r.3 == fitted(sw as int, sh as int, dw as int, dh as int).3,
{
    let sw: u64 = if sw < 1 {
        1
    } else {
        sw as u64
    };
    let sh: u64 = if sh < 1 {
        1
    } else {
        sh as u64
    };
    let dw: u64 = dw as u64;
    let dh: u64 = dh as u64;
    proof {
        lemma_fit_size(sw as int, sh as int, dw as int, dh as int);
        assert(0 <= sw * dh <= 0xffff_ffff * 0xffff_ffff && 0 <= sh * dw <= 0xffff_ffff
            * 0xffff_ffff) by (nonlinear_arith)
            requires
                0 <= sw <= 0xffff_ffff,
                0 <= sh <= 0xffff_ffff,
                0 <= dw <= 0xffff_ffff,
                0 <= dh <= 0xffff_ffff,
        ;
    }
    let mut w: u64 = dw;
    let mut h: u64 = dh;
    if sw * dh >= sh * dw {
        let n: u64 = sh * dw / sw;
        h = n - n % 2;
    } else {
        let n: u64 = sw * dh / sh;
        w = n - n % 2;
    }
    if w < 2 {
        w = 2;
    }
    if h < 2 {
        h = 2;
    }
    let x: u64 = (dw - w) / 2;
    let y: u64 = (dh - h) / 2;
    ((x - x % 2) as u32, (y - y % 2) as u32, w as u32, h as u32)
}

/// For even output sizes the letterbox rectangle is even and lies within the output, and it fills
/// the output in one direction.
pub proof fn law_fit_within(sw: int, sh: int, dw: int, dh: int)
    requires
        0 <= sw,
        0 <= sh,
        2 <= dw,
        2 <= dh,
        dw % 2 == 0,
        dh % 2 == 0,
    ensures
        ({
            let (x, y, w, h) = fitted(sw, sh, dw, dh);
            &&& x % 2 == 0 && y % 2 == 0 && w % 2 == 0 && h % 2 == 0
            &&& 0 <= x && 0 < w && x + w <= dw
            &&& 0 <= y && 0 < h && y + h <= dh
            &&& (x == 0 && w == dw) || (y == 0 && h == dh)
        }),
{
    lemma_fit_size(crate::num::at_least(sw, 1), crate::num::at_least(sh, 1), dw, dh);
}

/// A source of the output's shape fills the output.
pub proof fn law_same_shape_fills(sw: int, sh: int, dw: int, dh: int)
    requires
        1 <= sw,
        1 <= sh,
        2 <= dw,
        2 <= dh,
        dh % 2 == 0,
        sw * dh == sh * dw,
    ensures
        fitted(sw, sh, dw, dh) == (0int, 0int, dw, dh),
{
    assert(sh * dw / sw == dh) by {
        vstd::arithmetic::div_mod::lemma_div_multiples_vanish(dh, sw);
        assert(sh * dw == sw * dh);
    }
}

/// The shape of the source is kept: the shorter side is its true length, rounded down to an even
/// number (and never below 2).
pub proof fn law_fit_keeps_shape(sw: int, sh: int, dw: int, dh: int)
    requires
        1 <= sw,
        1 <= sh,
        2 <= dw,
        2 <= dh,
    ensures
        ({
            let (x, y, w, h) = fitted(sw, sh, dw, dh);
            if sw * dh >= sh * dw {
                w == dw && (h > 2 ==> h * sw <= sh * w < (h + 2) * sw)
            } else {
                h == dh && (w > 2 ==> w * sh <= sw * h < (w + 2) * sh)
            }
        }),
{
    lemma_fit_size(sw, sh, dw, dh);
    if sw * dh >= sh * dw {
        lemma_round_down(sh * dw, sw);
    } else {
        lemma_round_down(sw * dh, sh);
    }
}

proof fn lemma_round_down(a: int, b: int)
    requires
        0 < b,
    ensures
        even(a / b) * b <= a < (even(a / b) + 2) * b,
{
    vstd::arithmetic::div_mod::lemma_fundamental_div_mod(a, b);
    let q = a / b;
    let e = even(q);
    assert(e * b <= b * q && b * q + b <= (e + 2) * b) by (nonlinear_arith)
        requires
            0 < b,
            q - 1 <= e <= q,
    ;
}

// ---------------------------------------------------------------------------------------------
// Setting up

/// What a capture is set up with.
#[derive(Clone, Copy, PartialEq, Eq, Debug, Structural)]
pub struct CapturePlan {
    /// Size of the luma plane.
    pub y_width: u32,
    pub y_height: u32,
    /// Size of the chroma plane in U/V pairs.
    pub uv_width: u32,
    pub uv_height: u32,
    pub cursor: bool,
    /// Whether to ask for a capture without a border.
    pub borderless: bool,
    /// Least time between two captured frames, in 100 ns units.
    pub min_interval: i64,
}

/// A step of the setup.
#[derive(Clone, Copy, PartialEq, Eq, Debug, Structural)]
pub enum SetupStep {
    Device,
    GpuPriority,
    Item,
    Pool,
    Session,
    Cursor,
    Border,
    MinInterval,
    Pipeline,
    Textures,
    Start,
}

/// The steps whose failure does not end the setup, with what the log says then.
pub open spec fn optional_step(step: SetupStep) -> Option<Seq<char>> {
    match step {
        SetupStep::GpuPriority => Some("GPU priority unavailable: "@),
        SetupStep::Cursor => Some("cursor capture unavailable: "@),
        SetupStep::Border => Some("borderless capture unavailable: "@),
        SetupStep::MinInterval => Some("MinUpdateInterval unavailable: "@),
        _ => None,
    }
}

/// What to do about a failed step: a line for the log where capture goes on without it, nothing
/// where the capture fails.
pub fn setup_failed(step: SetupStep, error: &str) -> (r: Option<String>)
    ensures
        match (r, optional_step(step)) {
            (Some(line), Some(text)) => line@ == text + error@,
            (None, None) => true,
            _ => false,
        },
{
    let mut line = String::new();
    match step {
        SetupStep::GpuPriority => push_text(&mut line, "GPU priority unavailable: "),
        SetupStep::Cursor => push_text(&mut line, "cursor capture unavailable: "),
        SetupStep::Border => push_text(&mut line, "borderless capture unavailable: "),
        SetupStep::MinInterval => push_text(&mut line, "MinUpdateInterval unavailable: "),
        _ => {
            return None;
        },
    }
    push_text(&mut line, error);
    assert(line@ =~= optional_step(step).unwrap() + error@);
    Some(line)
}

/// A captured picture size.
#[derive(Clone, Copy, PartialEq, Eq, Debug, Structural)]
pub struct Extent {
    pub width: i32,
    pub height: i32,
}

/// What a capture remembers between frames.
#[derive(Clone, Copy, PartialEq, Eq, Debug, Structural)]
pub struct Capture {
    pub out: StreamInfo,
    /// Size that Windows captures in.
    pub pool_size: Extent,
    /// Size of the copy of the captured picture.
    pub src: Option<Extent>,
    /// Letterbox rectangle of the last frame; bars are re-cleared only when it changes.
    pub fit: Option<Fit>,
}

/// What a frame takes.
#[derive(Clone, Copy, PartialEq, Eq, Debug, Structural)]
pub struct FramePlan {
    /// The part of the captured picture to copy, from its top left corner.
    pub copy_width: u32,
    pub copy_height: u32,
    /// Whether the copy needs a new texture of that size.
    pub new_source: bool,
    /// Whether Windows is to capture in a new size (that of the content).
    pub recreate_pool: bool,
    /// Where the picture goes.
    pub fit: Fit,
    /// Whether the bars are to be cleared and the filter taps set.
    pub clear: bool,
}

/// The smaller of a content side (at least 1) and the surface's.
pub open spec fn usable_side(content: int, surface: int) -> int {
    if crate::num::at_least(content, 1) < surface {
        crate::num::at_least(content, 1)
    } else {
        surface
    }
}

/// The letterbox rectangle as a record.
pub open spec fn fit_of(sw: int, sh: int, dw: int, dh: int) -> Fit {
    let (x, y, w, h) = fitted(sw, sh, dw, dh);
    Fit { x: x as u32, y: y as u32, w: w as u32, h: h as u32 }
}

/// What a frame takes, from the sizes of its content and of its surface.
pub open spec fn frame_plan(cap: Capture, content: Extent, surface_width: u32, surface_height: u32) -> FramePlan {
    let cw = usable_side(content.width as int, surface_width as int);
    let ch = usable_side(content.height as int, surface_height as int);
    let fit = fit_of(cw, ch, cap.out.width as int, cap.out.height as int);
    FramePlan {
        copy_width: cw as u32,
        copy_height: ch as u32,
        new_source: !source_is(cap.src, cw, ch),
        recreate_pool: content != cap.pool_size,
        fit,
        clear: cap.fit != Some(fit),
    }
}

/// The copy of the picture has the given size.
pub open spec fn source_is(src: Option<Extent>, width: int, height: int) -> bool {
    match src {
        Some(e) => e.width == width && e.height == height,
        None => false,
    }
}

/// What a capture remembers after a frame.
pub open spec fn after_tick(cap: Capture, content: Extent, p: FramePlan) -> Capture {
    Capture {
        pool_size: content,
        src: Some(Extent { width: p.copy_width as i32, height: p.copy_height as i32 }),
        fit: Some(p.fit),
        ..cap
    }
}

/// What a capture for `out` is set up with.
pub open spec fn capture_plan(out: StreamInfo, fps: u32, cursor: bool, build: u32) -> CapturePlan {
    CapturePlan {
        y_width: out.width,
        y_height: out.height,
        uv_width: out.width / 2,
        uv_height: out.height / 2,
        cursor,
        borderless: build >= crate::os::BORDERLESS_BUILD,
        min_interval: (10_000_000int / crate::num::at_least(fps as int, 1)) as i64,
    }
}

impl Capture {
    /// What a capture for `out` is set up with.
    pub fn plan(out: StreamInfo, fps: u32, cursor: bool, build: u32) -> (p: CapturePlan)
        ensures
            p == capture_plan(out, fps, cursor, build),
    {
        let rate: i64 = if fps < 1 {
            1
        } else {
            fps as i64
        };
        proof {
            vstd::arithmetic::div_mod::lemma_div_pos_is_pos(10_000_000, rate as int);
            vstd::arithmetic::div_mod::lemma_div_is_ordered_by_denominator(
                10_000_000,
                1,
                rate as int,
            );
        }
        CapturePlan {
            y_width: out.width,
            y_height: out.height,
            uv_width: out.width / 2,
            uv_height: out.height / 2,
            cursor,
            borderless: can_hide_border(build),
            min_interval: 10_000_000 / rate,
        }
    }

    /// A capture that has drawn nothing yet.
    pub fn new(out: StreamInfo, pool_size: Extent) -> (c: Capture)
        ensures
            c == (Capture { out, pool_size, src: None, fit: None }),
    {
        Capture { out, pool_size, src: None, fit: None }
    }

    /// What the newest captured frame takes, from the sizes of its content and of its surface.
    pub fn tick(&mut self, content: Extent, surface_width: u32, surface_height: u32) -> (p: FramePlan)
        requires
            2 <= old(self).out.width,
            2 <= old(self).out.height,
        ensures
            p == frame_plan(*old(self), content, surface_width, surface_height),
            *final(self) == after_tick(*old(self), content, p),
    {
        let mut cw: u32 = if content.width < 1 {
            1
        } else {
            content.width as u32
        };
        let mut ch: u32 = if content.height < 1 {
            1
        } else {
            content.height as u32
        };
        if surface_width < cw {
            cw = surface_width;
        }
        if surface_height < ch {
            ch = surface_height;
        }
        let new_source = match self.src {
            Some(e) => !(e.width == cw as i32 && e.height == ch as i32),
            None => true,
        };
        let recreate_pool = content != self.pool_size;
        let (x, y, w, h) = fit_rect(cw, ch, self.out.width, self.out.height);
        let fit = Fit { x, y, w, h };
        let clear = match self.fit {
            Some(f) => f != fit,
            None => true,
        };
        self.src = Some(Extent { width: cw as i32, height: ch as i32 });
        self.pool_size = content;
        self.fit = Some(fit);
        FramePlan { copy_width: cw, copy_height: ch, new_source, recreate_pool, fit, clear }
    }
}

// ---------------------------------------------------------------------------------------------
// Reading back

/// `rows` rows of `width` bytes out of a picture whose rows are `pitch` bytes apart.
pub open spec fn unpitched(src: Seq<u8>, pitch: int, width: int, rows: int) -> Seq<u8> {
    Seq::new((rows * width) as nat, |i: int| src[(i / width) * pitch + i % width])
}

/// Copies `rows` rows of `width` bytes from a mapped texture with `pitch` into a packed plane.
pub fn copy_plane(dst: &mut [u8], src: &[u8], pitch: usize, width: usize, rows: usize)
    requires
        0 < width,
        rows * width <= old(dst)@.len(),
        rows > 0 ==> (rows - 1) * pitch + width <= src@.len(),
    ensures
        final(dst)@ == unpitched(src@, pitch as int, width as int, rows as int) + old(dst)@.skip(
            rows * width,
        ),
{
    assert(dst.len() == dst@.len());
    assert(src.len() == src@.len());
    let mut r: usize = 0;
    assert(0 * width == 0);
    while r < rows
        invariant
            r <= rows,
            0 < width,
            rows * width <= dst@.len(),
            rows > 0 ==> (rows - 1) * pitch + width <= src@.len(),
            dst@.len() == old(dst)@.len(),
            dst@.len() <= usize::MAX,
            src@.len() <= usize::MAX,
            forall|i: int|
                0 <= i < r * width ==> #[trigger] dst@[i] == unpitched(
                    src@,
                    pitch as int,
                    width as int,
                    rows as int,
                )[i],
            forall|i: int| r * width <= i < dst@.len() ==> #[trigger] dst@[i] == old(dst)@[i],
        decreases rows - r,
    {
        proof {
            assert(0 <= r * width && r * width + width == (r + 1) * width && (r + 1) * width <= rows
                * width && 0 <= r * pitch && r * pitch <= (rows - 1) * pitch) by (nonlinear_arith)
                requires
                    0 <= r < rows,
                    0 < width,
                    0 <= pitch,
            ;
        }
        let s: usize = r * pitch;
        let d: usize = r * width;
        let mut c: usize = 0;
        while c < width
            invariant
                c <= width,
                r < rows,
                0 < width,
                s == r * pitch,
                d == r * width,
                d + width <= dst@.len(),
                s + width <= src@.len(),
                (r + 1) * width <= rows * width,
                r * width + width == (r + 1) * width,
                dst@.len() == old(dst)@.len(),
                dst@.len() <= usize::MAX,
                src@.len() <= usize::MAX,
                forall|i: int|
                    0 <= i < d + c ==> #[trigger] dst@[i] == unpitched(
                        src@,
                        pitch as int,
                        width as int,
                        rows as int,
                    )[i],
                forall|i: int| d + c <= i < dst@.len() ==> #[trigger] dst@[i] == old(dst)@[i],
            decreases width - c,
        {
            proof {
                crate::convert::law_row_and_column(r as int, c as int, width as int);
            }
            dst[d + c] = src[s + c];
            c += 1;
        }
        r += 1;
    }
    assert(dst@ =~= unpitched(src@, pitch as int, width as int, rows as int) + old(dst)@.skip(
        rows * width,
    ));
}

/// The NV12 frame in two mapped planes.
pub open spec fn frame_of(
    y: Seq<u8>,
    y_pitch: int,
    uv: Seq<u8>,
    uv_pitch: int,
    width: int,
    height: int,
) -> Seq<u8> {
    unpitched(y, y_pitch, width, height) + unpitched(uv, uv_pitch, width, height / 2)
}

/// Writes the frame in two mapped planes into a slot.
pub fn write_planes(
    slot: &mut [u8],
    y: &[u8],
    y_pitch: usize,
    uv: &[u8],
    uv_pitch: usize,
    width: usize,
    height: usize,
)
    requires
        0 < width,
        0 < height,
        height * width + (height / 2) * width <= old(slot)@.len(),
        (height - 1) * y_pitch + width <= y@.len(),
        height >= 2 ==> (height / 2 - 1) * uv_pitch + width <= uv@.len(),
    ensures
        final(slot)@ == frame_of(
            y@,
            y_pitch as int,
            uv@,
            uv_pitch as int,
            width as int,
            height as int,
        ) + old(slot)@.skip(height * width + (height / 2) * width),
{
    proof {
        assert(0 <= height * width && 0 <= (height / 2) * width && height * width == width * height)
            by (nonlinear_arith);
        assert(slot.len() == slot@.len());
    }
    let luma: usize = width * height;
    let ghost before = slot@;
    let (y_plane, uv_plane) = slot.split_at_mut(luma);
    copy_plane(y_plane, y, y_pitch, width, height);
    copy_plane(uv_plane, uv, uv_pitch, width, height / 2);
    assert(slot@ =~= frame_of(
        y@,
        y_pitch as int,
        uv@,
        uv_pitch as int,
        width as int,
        height as int,
    ) + before.skip(height * width + (height / 2) * width));
}

/// Publishes the frame in two mapped planes.
pub fn publish_planes(ring: &mut FrameRing, y: &[u8], y_pitch: usize, uv: &[u8], uv_pitch: usize)
    requires
        old(ring).wf(),
        old(ring).spec_writable(),
        0 < old(ring).spec_width(),
        0 < old(ring).spec_height(),
        old(ring).spec_height() % 2 == 0,
        (old(ring).spec_height() - 1) * y_pitch + old(ring).spec_width() <= y@.len(),
        (old(ring).spec_height() / 2 - 1) * uv_pitch + old(ring).spec_width() <= uv@.len(),
    ensures
        final(ring).wf(),
        final(ring).same_shape(old(ring)),
        final(ring)@ == old(ring)@.published(
            frame_of(
                y@,
                y_pitch as int,
                uv@,
                uv_pitch as int,
                old(ring).spec_width() as int,
                old(ring).spec_height() as int,
            ),
        ),
{
    let width: usize = ring.width() as usize;
    let height: usize = ring.height() as usize;
    let ghost frame = frame_of(
        y@,
        y_pitch as int,
        uv@,
        uv_pitch as int,
        width as int,
        height as int,
    );
    let ghost n: int = height * width + (height / 2) * width;
    proof {
        crate::convert::law_nv12_bytes(width as int, height as int);
        assert(height * width == width * height && 0 <= height * width && 0 <= (height / 2) * width)
            by (nonlinear_arith);
        assert(frame.len() == n);
    }
    let fill = |slot: &mut [u8]|
        requires
            slot@.len() == n,
        ensures
            final(slot)@ == frame,
        {
            write_planes(slot, y, y_pitch, uv, uv_pitch, width, height);
            assert(slot@ =~= frame);
        };
    proof {
        crate::layout::lemma_slot_len(
            ring,
            crate::layout::next_slot_spec(ring@.latest),
        );
    }
    ring.publish(fill);
}

// ---------------------------------------------------------------------------------------------
// Laws

/// The bars on either side of the picture are equally wide, or one of them is one pair of pixels
/// wider; so are those above and below.
pub proof fn law_fit_is_centred(sw: int, sh: int, dw: int, dh: int)
    requires
        0 <= sw,
        0 <= sh,
        2 <= dw,
        2 <= dh,
        dw % 2 == 0,
        dh % 2 == 0,
    ensures
        ({
            let (x, y, w, h) = fitted(sw, sh, dw, dh);
            &&& 0 <= (dw - w - x) - x <= 2
            &&& 0 <= (dh - h - y) - y <= 2
        }),
{
    law_fit_within(sw, sh, dw, dh);
}

/// A picture whose shorter side would be below two pairs of pixels still gets one pair.
pub proof fn law_thin_pictures_stay_visible(sw: int, sh: int, dw: int, dh: int)
    requires
        1 <= sw,
        1 <= sh,
        2 <= dw,
        2 <= dh,
    ensures
        ({
            let (x, y, w, h) = fitted(sw, sh, dw, dh);
            &&& w >= 2 && h >= 2
            &&& sw * dh >= sh * dw && h == 2 ==> sh * dw < 4 * sw
            &&& sw * dh < sh * dw && w == 2 ==> sw * dh < 4 * sh
        }),
{
    lemma_fit_size(sw, sh, dw, dh);
    if sw * dh >= sh * dw {
        lemma_round_down(sh * dw, sw);
    } else {
        lemma_round_down(sw * dh, sh);
    }
}

/// Only the part of the captured surface that holds content is copied, and never more than there
/// is; a content of no size counts as one pixel.
pub proof fn law_copy_is_the_content(
    cap: Capture,
    content: Extent,
    surface_width: u32,
    surface_height: u32,
)
    ensures
        ({
            let p = frame_plan(cap, content, surface_width, surface_height);
            &&& p.copy_width <= surface_width && p.copy_height <= surface_height
            &&& 1 <= content.width <= surface_width ==> p.copy_width == content.width
            &&& 1 <= content.height <= surface_height ==> p.copy_height == content.height
            &&& content.width > surface_width ==> p.copy_width == surface_width
            &&& content.height > surface_height ==> p.copy_height == surface_height
            &&& content.width < 1 && surface_width >= 1 ==> p.copy_width == 1
            &&& content.height < 1 && surface_height >= 1 ==> p.copy_height == 1
        }),
{
}

/// While the picture keeps its size, nothing is set up anew: no texture, no buffers, no bars.
pub proof fn law_steady_picture_needs_nothing(
    cap: Capture,
    content: Extent,
    surface_width: u32,
    surface_height: u32,
)
    requires
        surface_width <= i32::MAX,
        surface_height <= i32::MAX,
    ensures
        ({
            let p = frame_plan(cap, content, surface_width, surface_height);
            let next = after_tick(cap, content, p);
            let q = frame_plan(next, content, surface_width, surface_height);
            &&& !q.new_source && !q.recreate_pool && !q.clear
            &&& q.copy_width == p.copy_width && q.copy_height == p.copy_height && q.fit == p.fit
            &&& next.out == cap.out
        }),
{
}

/// A new size is taken up at once: the texture, the buffers and the bars follow the picture.
pub proof fn law_new_size_is_taken_up(
    cap: Capture,
    a: Extent,
    b: Extent,
    surface_width: u32,
    surface_height: u32,
)
    requires
        1 <= a.width <= surface_width <= i32::MAX,
        1 <= a.height <= surface_height <= i32::MAX,
        1 <= b.width <= surface_width,
        1 <= b.height <= surface_height,
        a.width != b.width || a.height != b.height,
    ensures
        ({
            let p = frame_plan(cap, a, surface_width, surface_height);
            let next = after_tick(cap, a, p);
            let q = frame_plan(next, b, surface_width, surface_height);
            &&& q.new_source && q.recreate_pool
            &&& q.clear == (q.fit != p.fit)
            &&& q.copy_width == b.width && q.copy_height == b.height
        }),
{
}

/// A capture that has drawn nothing yet sets up everything but the buffers it was made with.
pub proof fn law_first_frame_sets_up(
    out: StreamInfo,
    pool_size: Extent,
    content: Extent,
    surface_width: u32,
    surface_height: u32,
)
    ensures
        ({
            let cap = Capture { out, pool_size, src: None, fit: None };
            let p = frame_plan(cap, content, surface_width, surface_height);
            p.new_source && p.clear && p.recreate_pool == (content.width != pool_size.width
                || content.height != pool_size.height)
        }),
{
}

/// The picture goes where a picture of the copied size belongs in the output.
pub proof fn law_frame_goes_to_its_letterbox(
    cap: Capture,
    content: Extent,
    surface_width: u32,
    surface_height: u32,
)
    requires
        2 <= cap.out.width,
        2 <= cap.out.height,
    ensures
        ({
            let p = frame_plan(cap, content, surface_width, surface_height);
            let (x, y, w, h) = fitted(
                p.copy_width as int,
                p.copy_height as int,
                cap.out.width as int,
                cap.out.height as int,
            );
            p.fit.x == x && p.fit.y == y && p.fit.w == w && p.fit.h == h
        }),
{
    let p = frame_plan(cap, content, surface_width, surface_height);
    lemma_fit_size(
        crate::num::at_least(p.copy_width as int, 1),
        crate::num::at_least(p.copy_height as int, 1),
        cap.out.width as int,
        cap.out.height as int,
    );
}

/// Byte `c` of row `r` of a read-back plane is byte `c` of the texture's row `r`.
pub proof fn law_plane_rows(src: Seq<u8>, pitch: int, width: int, rows: int, r: int, c: int)
    requires
        0 <= r < rows,
        0 <= c < width,
    ensures
        unpitched(src, pitch, width, rows).len() == rows * width,
        unpitched(src, pitch, width, rows)[r * width + c] == src[r * pitch + c],
{
    crate::convert::law_row_and_column(r, c, width);
    assert(0 <= r * width && r * width + width <= rows * width) by (nonlinear_arith)
        requires
            0 <= r < rows,
            0 < width,
    ;
}

/// A read-back frame is the luma plane, row by row, then the chroma plane of half as many rows.
pub proof fn law_frame_rows(
    y: Seq<u8>,
    y_pitch: int,
    uv: Seq<u8>,
    uv_pitch: int,
    width: int,
    height: int,
    r: int,
    c: int,
)
    requires
        crate::convert::even_size(width, height),
        0 <= r < height,
        0 <= c < width,
    ensures
        ({
            let f = frame_of(y, y_pitch, uv, uv_pitch, width, height);
            &&& f.len() == width * height * 3 / 2
            &&& f[r * width + c] == y[r * y_pitch + c]
            &&& 2 * r < height ==> f[width * height + r * width + c] == uv[r * uv_pitch + c]
        }),
{
    let h2 = height / 2;
    crate::convert::law_nv12_bytes(width, height);
    assert(height * width == width * height) by (nonlinear_arith);
    law_plane_rows(y, y_pitch, width, height, r, c);
    assert(0 <= r * width && r * width + width <= height * width && 0 <= h2 * width) by (nonlinear_arith)
        requires
            0 <= r < height,
            0 < width,
            0 <= h2,
    ;
    if 2 * r < height {
        law_plane_rows(uv, uv_pitch, width, h2, r, c);
        assert(r * width + width <= h2 * width) by (nonlinear_arith)
            requires
                0 <= r < h2,
                0 < width,
        ;
    } else {
        law_plane_rows(uv, uv_pitch, width, h2, 0, 0);
    }
}

/// A capture is set up for the planes of its output: the chroma plane has one pair for each block
/// of two by two pixels, and frames come no faster than asked for, as nearly as 100 ns allow.
pub proof fn law_setup_matches_output(out: StreamInfo, fps: u32, cursor: bool, build: u32)
    requires
        crate::convert::even_size(out.width as int, out.height as int),
        fps >= 1,
    ensures
        ({
            let p = capture_plan(out, fps, cursor, build);
            &&& p.y_width == out.width && p.y_height == out.height
            &&& 2 * p.uv_width == out.width && 2 * p.uv_height == out.height
            &&& p.min_interval * fps <= 10_000_000 < (p.min_interval + 1) * fps
            &&& p.cursor == cursor
            &&& p.borderless <==> build > 20347
        }),
{
    let q = 10_000_000int / fps as int;
    vstd::arithmetic::div_mod::lemma_fundamental_div_mod(10_000_000, fps as int);
    vstd::arithmetic::div_mod::lemma_div_pos_is_pos(10_000_000, fps as int);
    vstd::arithmetic::div_mod::lemma_div_is_ordered_by_denominator(10_000_000, 1, fps as int);
    assert(q * fps == fps * q && (q + 1) * fps == fps * q + fps) by (nonlinear_arith);
}

/// Without the device, the picture or the textures there is no capture; without a priority, a
/// cursor setting, a border setting or a rate limit there is one, and the log says which is missing.
pub proof fn law_essential_steps(step: SetupStep)
    ensures
        optional_step(step) is Some <==> step == SetupStep::GpuPriority || step == SetupStep::Cursor
            || step == SetupStep::Border || step == SetupStep::MinInterval,
{
}

}
