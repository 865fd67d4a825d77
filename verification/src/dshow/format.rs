//! The media types the output pin offers.
//!
//! Every type has the resolution from `stream.bin` (the running app's output). Consumers pick
//! one of three pixel formats: NV12 (a straight copy of the shared frame), I420 or YUY2.
//!
//! [`MediaType`] holds what an `AM_MEDIA_TYPE` says, its format block as bytes. For video that is
//! a `VIDEOINFOHEADER` of 22 words.

use vstd::prelude::*;
use crate::codes::{guid_data1, Guid};
use crate::convert::{i420_size, nv12_size, yuy2_size};
use crate::le::{get32, get64, pack};
use crate::stream_info::StreamInfo;

verus! {

pub const GUID_NULL: Guid = 0;

pub const MEDIATYPE_VIDEO: Guid = 0x73646976_0000_0010_8000_00aa00389b71;

pub const MEDIASUBTYPE_NV12: Guid = 0x3231564e_0000_0010_8000_00aa00389b71;

pub const MEDIASUBTYPE_I420: Guid = 0x30323449_0000_0010_8000_00aa00389b71;

pub const MEDIASUBTYPE_YUY2: Guid = 0x32595559_0000_0010_8000_00aa00389b71;

pub const FORMAT_VIDEOINFO: Guid = 0x05589f80_c356_11ce_bf01_00aa0055595a;

/// Bytes of a `VIDEOINFOHEADER`.
pub const HEADER_BYTES: usize = 88;

/// 100 ns units in a second.
pub const SECOND: i64 = 10_000_000;

#[derive(Clone, Copy, PartialEq, Eq, Debug, Structural)]
pub enum Format {
    Nv12,
    I420,
    Yuy2,
}

/// Bytes of a frame.
pub open spec fn frame_bytes_of(format: Format, width: int, height: int) -> int {
    match format {
        Format::Nv12 => width * height * 3 / 2,
        Format::I420 => width * height * 3 / 2,
        Format::Yuy2 => width * height * 2,
    }
}

/// The size computation of a frame stays within the address space.
pub open spec fn countable(format: Format, width: int, height: int) -> bool {
    match format {
        Format::Nv12 => width * height * 3 <= usize::MAX,
        Format::I420 => width * height * 3 <= usize::MAX,
        Format::Yuy2 => width * height * 2 <= usize::MAX,
    }
}

pub open spec fn subtype_of(format: Format) -> Guid {
    match format {
        Format::Nv12 => MEDIASUBTYPE_NV12,
        Format::I420 => MEDIASUBTYPE_I420,
        Format::Yuy2 => MEDIASUBTYPE_YUY2,
    }
}

/// The format with a subtype.
pub open spec fn format_of(subtype: Guid) -> Option<Format> {
    if subtype == MEDIASUBTYPE_NV12 {
        Some(Format::Nv12)
    } else if subtype == MEDIASUBTYPE_I420 {
        Some(Format::I420)
    } else if subtype == MEDIASUBTYPE_YUY2 {
        Some(Format::Yuy2)
    } else {
        None
    }
}

pub open spec fn bits_of(format: Format) -> u16 {
    match format {
        Format::Nv12 => 12,
        Format::I420 => 12,
        Format::Yuy2 => 16,
    }
}

/// Offered in this order; NV12 first because it needs no conversion.
pub fn formats() -> (list: [Format; 3])
    ensures
        list@ == seq![Format::Nv12, Format::I420, Format::Yuy2],
{
    [Format::Nv12, Format::I420, Format::Yuy2]
}

impl Format {
    pub fn subtype(self) -> (g: Guid)
        ensures
            g == subtype_of(self),
    {
        match self {
            Format::Nv12 => MEDIASUBTYPE_NV12,
            Format::I420 => MEDIASUBTYPE_I420,
            Format::Yuy2 => MEDIASUBTYPE_YUY2,
        }
    }

    pub fn from_subtype(subtype: Guid) -> (r: Option<Format>)
        ensures
            r == format_of(subtype),
    {
        let list = formats();
        let mut i: usize = 0;
        while i < 3
            invariant
                i <= 3,
                list@ == seq![Format::Nv12, Format::I420, Format::Yuy2],
                forall|k: int| 0 <= k < i ==> subtype_of(#[trigger] list@[k]) != subtype,
            decreases 3 - i,
        {
            if list[i].subtype() == subtype {
                return Some(list[i]);
            }
            i += 1;
        }
        assert(subtype_of(list@[0]) != subtype);
        assert(subtype_of(list@[1]) != subtype);
        assert(subtype_of(list@[2]) != subtype);
        None
    }

    fn bits(self) -> (n: u16)
        ensures
            n == bits_of(self),
    {
        match self {
            Format::Nv12 => 12,
            Format::I420 => 12,
            Format::Yuy2 => 16,
        }
    }

    pub fn frame_bytes(self, width: u32, height: u32) -> (n: usize)
        requires
            countable(self, width as int, height as int),
        ensures
            n == frame_bytes_of(self, width as int, height as int),
    {
        let w: usize = width as usize;
        let h: usize = height as usize;
        match self {
            Format::Nv12 => nv12_size(w, h),
            Format::I420 => i420_size(w, h),
            Format::Yuy2 => yuy2_size(w, h),
        }
    }
}

/// A complete output type: pixel format, size and frame rate.
#[derive(Clone, Copy, PartialEq, Eq, Debug, Structural)]
pub struct VideoType {
    pub format: Format,
    pub width: u32,
    pub height: u32,
    pub fps: u32,
}

/// What an `AM_MEDIA_TYPE` says.
#[derive(Clone, PartialEq, Eq, Debug)]
pub struct MediaType {
    pub majortype: Guid,
    pub subtype: Guid,
    pub fixed_size_samples: bool,
    pub temporal_compression: bool,
    pub sample_size: u32,
    pub formattype: Guid,
    /// The format block; `None` where there is none.
    pub format: Option<Vec<u8>>,
}

impl Default for MediaType {
    /// The type that says nothing.
    fn default() -> (mt: MediaType)
        ensures
            mt == (MediaType {
                majortype: GUID_NULL,
                subtype: GUID_NULL,
                fixed_size_samples: false,
                temporal_compression: false,
                sample_size: 0,
                formattype: GUID_NULL,
                format: None,
            }),
    {
        MediaType {
            majortype: GUID_NULL,
            subtype: GUID_NULL,
            fixed_size_samples: false,
            temporal_compression: false,
            sample_size: 0,
            formattype: GUID_NULL,
            format: None,
        }
    }
}

/// Frame duration in 100 ns units.
pub open spec fn interval_of(fps: int) -> int {
    SECOND as int / (if fps < 1 {
        1
    } else {
        fps
    })
}

/// The frame rate that a frame duration stands for, rounded; 0 when there is no duration.
pub open spec fn fps_of(interval: int) -> int {
    if interval <= 0 {
        0
    } else {
        let n = (SECOND + interval / 2) / interval;
        if n < 1 {
            1
        } else if n > 240 {
            240
        } else {
            n
        }
    }
}

/// The number that 32 bits stand for in two's complement.
pub open spec fn signed32(bits: int) -> int {
    if bits < 0x8000_0000 {
        bits
    } else {
        bits - 0x1_0000_0000
    }
}

/// The number that 64 bits stand for in two's complement.
pub open spec fn signed64(bits: int) -> int {
    if bits < 0x8000_0000_0000_0000 {
        bits
    } else {
        bits - 0x1_0000_0000_0000_0000
    }
}

/// The video type that a format block of a given format describes.
pub open spec fn block_type(format: Format, block: Seq<u8>) -> Option<VideoType> {
    let width = signed32(crate::le::le32(block, 52));
    let height = crate::num::magnitude(signed32(crate::le::le32(block, 56)));
    let interval = signed64(crate::le::le64(block, 40));
    if block.len() < HEADER_BYTES || width <= 0 {
        None
    } else {
        Some(
            VideoType {
                format,
                width: width as u32,
                height: height as u32,
                fps: fps_of(interval) as u32,
            },
        )
    }
}

/// The video type that a fully specified media type describes.
pub open spec fn video_type_of(mt: MediaType) -> Option<VideoType> {
    if mt.majortype != MEDIATYPE_VIDEO || mt.formattype != FORMAT_VIDEOINFO {
        None
    } else {
        match (format_of(mt.subtype), mt.format) {
            (Some(format), Some(block)) => block_type(format, block@),
            _ => None,
        }
    }
}

impl VideoType {
    /// All sizes of this type can be computed.
    pub open spec fn fits(self) -> bool {
        &&& countable(self.format, self.width as int, self.height as int)
        &&& self.spec_frame_bytes() * 8 * self.fps <= u64::MAX
    }

    pub open spec fn spec_frame_bytes(self) -> int {
        frame_bytes_of(self.format, self.width as int, self.height as int)
    }

    pub open spec fn spec_bit_rate(self) -> u32 {
        let n = self.spec_frame_bytes() * 8 * self.fps;
        if n > u32::MAX {
            u32::MAX
        } else {
            n as u32
        }
    }

    pub fn new(format: Format, info: StreamInfo) -> (vt: VideoType)
        ensures
            vt == (VideoType { format, width: info.width, height: info.height, fps: info.fps }),
    {
        VideoType { format, width: info.width, height: info.height, fps: info.fps }
    }

    /// The type in another format.
    pub open spec fn with_format(self, format: Format) -> VideoType {
        VideoType { format, ..self }
    }

    /// All offered types, `preferred` first, then the other formats in their order.
    pub open spec fn offered_list(preferred: VideoType) -> Seq<VideoType> {
        seq![preferred] + (match preferred.format {
            Format::Nv12 => seq![preferred.with_format(Format::I420), preferred.with_format(Format::Yuy2)],
            Format::I420 => seq![preferred.with_format(Format::Nv12), preferred.with_format(Format::Yuy2)],
            Format::Yuy2 => seq![preferred.with_format(Format::Nv12), preferred.with_format(Format::I420)],
        })
    }

    /// All offered types, `preferred` first.
    pub fn offered(preferred: VideoType) -> (list: Vec<VideoType>)
        ensures
            list@ == VideoType::offered_list(preferred),
    {
        let mut list: Vec<VideoType> = Vec::new();
        list.push(preferred);
        if preferred.format != Format::Nv12 {
            list.push(VideoType { format: Format::Nv12, ..preferred });
        }
        if preferred.format != Format::I420 {
            list.push(VideoType { format: Format::I420, ..preferred });
        }
        if preferred.format != Format::Yuy2 {
            list.push(VideoType { format: Format::Yuy2, ..preferred });
        }
        assert(list@ =~= VideoType::offered_list(preferred));
        list
    }

    pub fn frame_bytes(&self) -> (n: usize)
        requires
            countable(self.format, self.width as int, self.height as int),
        ensures
            n == self.spec_frame_bytes(),
    {
        self.format.frame_bytes(self.width, self.height)
    }

    /// Frame duration in 100 ns units.
    pub fn interval(&self) -> (t: i64)
        ensures
            t == interval_of(self.fps as int),
            0 <= t <= SECOND,
    {
        let fps: i64 = if self.fps < 1 {
            1
        } else {
            self.fps as i64
        };
        assert(0 <= SECOND as int / fps as int <= SECOND) by {
            vstd::arithmetic::div_mod::lemma_div_pos_is_pos(SECOND as int, fps as int);
            vstd::arithmetic::div_mod::lemma_div_is_ordered_by_denominator(SECOND as int, 1, fps as int);
        }
        SECOND / fps
    }

    /// Bits per second, as far as 32 bits can say.
    pub fn bit_rate(&self) -> (n: u32)
        requires
            self.fits(),
        ensures
            n == self.spec_bit_rate(),
    {
        assert(0 <= self.spec_frame_bytes()) by {
            assert(0 <= self.width * self.height) by (nonlinear_arith);
        }
        let bytes: u64 = self.frame_bytes() as u64;
        assert(bytes * 8 <= bytes * 8 * self.fps || self.fps == 0) by (nonlinear_arith)
            requires
                0 <= bytes,
                0 <= self.fps,
        ;
        if self.fps == 0 {
            return 0;
        }
        let n: u64 = bytes * 8 * self.fps as u64;
        if n > 0xffff_ffff {
            0xffff_ffff
        } else {
            n as u32
        }
    }

    /// The words of the `VIDEOINFOHEADER`: source and target rectangle, bit rate, error rate, frame
    /// duration, then the bitmap header (its size, width, height, planes and bits per pixel, the
    /// FOURCC, the image size, and zeros).
    pub open spec fn header_words(self) -> Seq<u32> {
        let interval = interval_of(self.fps as int);
        seq![
            0,
            0,
            self.width,
            self.height,
            0,
            0,
            self.width,
            self.height,
            self.spec_bit_rate(),
            0,
            (interval % 0x1_0000_0000) as u32,
            (interval / 0x1_0000_0000) as u32,
            40,
            self.width,
            self.height,
            (1 + 0x1_0000 * bits_of(self.format)) as u32,
            (subtype_of(self.format) as int / 0x1_0000_0000_0000_0000_0000_0000) as u32,
            (self.spec_frame_bytes() % 0x1_0000_0000) as u32,
            0,
            0,
            0,
            0,
        ]
    }

    /// The format block of this type.
    pub fn header(&self) -> (block: Vec<u8>)
        requires
            self.fits(),
        ensures
            block@ == crate::le::words_bytes(self.header_words()),
            block@.len() == HEADER_BYTES,
    {
        let t: u64 = self.interval() as u64;
        let mut words: Vec<u32> = Vec::new();
        // Source and target rectangle.
        words.push(0);
        words.push(0);
        words.push(self.width);
        words.push(self.height);
        words.push(0);
        words.push(0);
        words.push(self.width);
        words.push(self.height);
        words.push(self.bit_rate());
        words.push(0);
        words.push((t % 0x1_0000_0000) as u32);
        words.push((t / 0x1_0000_0000) as u32);
        // Bitmap header. Positive height: YUV layouts are always top-down.
        words.push(40);
        words.push(self.width);
        words.push(self.height);
        words.push(1 + 0x1_0000 * self.format.bits() as u32);
        // FOURCC subtypes carry the FOURCC in their first 32 bits.
        words.push(guid_data1(self.format.subtype()));
        words.push((self.frame_bytes() as u64 % 0x1_0000_0000) as u32);
        words.push(0);
        words.push(0);
        words.push(0);
        words.push(0);
        assert(words@ =~= self.header_words());
        pack(words.as_slice())
    }

    /// `mt` says what this type is.
    pub open spec fn described_by(self, mt: MediaType) -> bool {
        &&& mt.majortype == MEDIATYPE_VIDEO
        &&& mt.subtype == subtype_of(self.format)
        &&& mt.fixed_size_samples
        &&& !mt.temporal_compression
        &&& mt.sample_size == self.spec_frame_bytes() % 0x1_0000_0000
        &&& mt.formattype == FORMAT_VIDEOINFO
        &&& mt.format is Some
        &&& mt.format.unwrap()@ == crate::le::words_bytes(self.header_words())
    }

    /// Fills a media type.
    pub fn write_to(&self, mt: &mut MediaType)
        requires
            self.fits(),
        ensures
            self.described_by(*final(mt)),
    {
        *mt = self.media_type();
    }

    /// A media type that describes this type.
    pub fn media_type(&self) -> (mt: MediaType)
        requires
            self.fits(),
        ensures
            self.described_by(mt),
    {
        MediaType {
            majortype: MEDIATYPE_VIDEO,
            subtype: self.format.subtype(),
            fixed_size_samples: true,
            temporal_compression: false,
            sample_size: (self.frame_bytes() as u64 % 0x1_0000_0000) as u32,
            formattype: FORMAT_VIDEOINFO,
            format: Some(self.header()),
        }
    }

    /// Parses a fully specified video type from a caller. Returns `None` for anything that is not
    /// one of our pixel formats with a sane format block; `fps` is 0 when unspecified.
    pub fn parse(mt: Option<&MediaType>) -> (r: Option<VideoType>)
        ensures
            r == (match mt {
                Some(m) => video_type_of(*m),
                None => None,
            }),
    {
        let mt = match mt {
            Some(m) => m,
            None => {
                return None;
            },
        };
        if mt.majortype != MEDIATYPE_VIDEO || mt.formattype != FORMAT_VIDEOINFO {
            return None;
        }
        let format = match Format::from_subtype(mt.subtype) {
            Some(f) => f,
            None => {
                return None;
            },
        };
        match &mt.format {
            Some(block) => VideoType::parse_block(format, block.as_slice()),
            None => None,
        }
    }

    fn parse_block(format: Format, block: &[u8]) -> (r: Option<VideoType>)
        ensures
            r == block_type(format, block@),
    {
        if block.len() < HEADER_BYTES {
            return None;
        }
        let width = get32(block, 52);
        if width == 0 || width >= 0x8000_0000 {
            return None;
        }
        let raw = get32(block, 56);
        let height: u32 = if raw < 0x8000_0000 {
            raw
        } else {
            0xffff_ffff - raw + 1
        };
        let interval = get64(block, 40);
        let fps: u32 = if interval == 0 || interval >= 0x8000_0000_0000_0000 {
            0
        } else {
            let n: u64 = (10_000_000 + interval / 2) / interval;
            if n < 1 {
                1
            } else if n > 240 {
                240
            } else {
                n as u32
            }
        };
        Some(VideoType { format, width, height, fps })
    }

    /// A possibly partial type admits `self`: null ids are wildcards, and a present format block
    /// must match our size.
    pub open spec fn admitted(self, mt: MediaType) -> bool {
        &&& mt.majortype == GUID_NULL || mt.majortype == MEDIATYPE_VIDEO
        &&& mt.subtype == GUID_NULL || mt.subtype == subtype_of(self.format)
        &&& mt.formattype == GUID_NULL || (mt.formattype == FORMAT_VIDEOINFO && (match mt.format {
            Some(block) => match block_type(self.format, block@) {
                Some(t) => t.width == self.width && t.height == self.height,
                None => false,
            },
            None => false,
        }))
    }

    /// Whether a possibly partial type (as passed to a pin's `Connect`) admits `self`.
    pub fn admitted_by(&self, mt: Option<&MediaType>) -> (r: bool)
        ensures
            r == (match mt {
                Some(m) => self.admitted(*m),
                None => true,
            }),
    {
        let m = match mt {
            Some(m) => m,
            None => {
                return true;
            },
        };
        if !(m.majortype == GUID_NULL || m.majortype == MEDIATYPE_VIDEO) || !(m.subtype == GUID_NULL
            || m.subtype == self.format.subtype()) {
            return false;
        }
        if m.formattype == GUID_NULL {
            return true;
        }
        if m.formattype != FORMAT_VIDEOINFO {
            return false;
        }
        match &m.format {
            Some(block) => match VideoType::parse_block(self.format, block.as_slice()) {
                Some(t) => t.width == self.width && t.height == self.height,
                None => false,
            },
            None => false,
        }
    }
}

// ---------------------------------------------------------------------------------------------
// Laws

/// The subtype tells the formats apart.
pub proof fn law_subtype_round_trip(format: Format)
    ensures
        format_of(subtype_of(format)) == Some(format),
{
}

/// The duration of a frame tells the frame rate, for every rate that a camera can have.
pub proof fn law_interval_round_trip(fps: int)
    requires
        1 <= fps <= 240,
    ensures
        fps_of(interval_of(fps)) == fps,
{
    let n: int = 10_000_000;
    let t = interval_of(fps);
    vstd::arithmetic::div_mod::lemma_fundamental_div_mod(n, fps);
    assert(t >= 41666) by {
        vstd::arithmetic::div_mod::lemma_div_is_ordered_by_denominator(n, fps, 240);
        assert(n / 240 == 41666);
    }
    let x = n + t / 2;
    assert(fps * t <= x < fps * t + t);
    vstd::arithmetic::div_mod::lemma_fundamental_div_mod_converse(x, t, fps, x - fps * t);
}

/// A media type written for a video type is read back as that type, and admits it.
pub proof fn law_media_type_round_trip(vt: VideoType, mt: MediaType)
    requires
        vt.described_by(mt),
        0 < vt.width < 0x8000_0000,
        vt.height <= 0x8000_0000,
        1 <= vt.fps <= 240,
    ensures
        video_type_of(mt) == Some(vt),
        vt.admitted(mt),
{
    let words = vt.header_words();
    let block = mt.format.unwrap()@;
    crate::le::law_words_bytes(words, 10);
    crate::le::law_words_bytes(words, 11);
    crate::le::law_words_bytes(words, 13);
    crate::le::law_words_bytes(words, 14);
    law_interval_round_trip(vt.fps as int);
    let t = interval_of(vt.fps as int);
    assert(0 <= t <= 10_000_000) by {
        vstd::arithmetic::div_mod::lemma_div_pos_is_pos(10_000_000, vt.fps as int);
        vstd::arithmetic::div_mod::lemma_div_is_ordered_by_denominator(10_000_000, 1, vt.fps as int);
    }
    assert(crate::le::le64(block, 40) == t);
}

/// Null ids are wildcards: a type that says less admits what the fuller type admits, and one that
/// says nothing admits everything.
pub proof fn law_null_ids_are_wildcards(vt: VideoType, mt: MediaType)
    ensures
        vt.admitted(mt) ==> vt.admitted(MediaType { majortype: GUID_NULL, ..mt }),
        vt.admitted(mt) ==> vt.admitted(MediaType { subtype: GUID_NULL, ..mt }),
        vt.admitted(mt) ==> vt.admitted(MediaType { formattype: GUID_NULL, ..mt }),
        vt.admitted(
            MediaType {
                majortype: GUID_NULL,
                subtype: GUID_NULL,
                formattype: GUID_NULL,
                ..mt
            },
        ),
{
}

/// The preferred type is offered first, and each format is offered once, in the same size and at
/// the same rate.
pub proof fn law_offered(preferred: VideoType)
    ensures
        VideoType::offered_list(preferred).len() == 3,
        VideoType::offered_list(preferred)[0] == preferred,
        forall|i: int, j: int|
            0 <= i < j < 3 ==> (#[trigger] VideoType::offered_list(preferred)[i]).format != (
            #[trigger] VideoType::offered_list(preferred)[j]).format,
        forall|i: int|
            0 <= i < 3 ==> (#[trigger] VideoType::offered_list(preferred)[i]).with_format(
                preferred.format,
            ) == preferred,
{
}

/// Whatever stream the app can produce, the sizes of its types can be computed.
pub proof fn law_valid_stream_fits(format: Format, info: StreamInfo)
    requires
        crate::stream_info::valid(info),
    ensures
        (VideoType { format, width: info.width, height: info.height, fps: info.fps }).fits(),
{
    let (w, h) = (info.width as int, info.height as int);
    assert(0 <= w * h <= 3840 * 2160) by (nonlinear_arith)
        requires
            0 <= w <= 3840,
            0 <= h <= 2160,
    ;
    let n = frame_bytes_of(format, w, h);
    assert(n * 8 * info.fps <= 16588800 * 8 * 240) by (nonlinear_arith)
        requires
            0 <= n <= 16588800,
            0 <= info.fps <= 240,
    ;
}

/// A type's size is what a frame in its format takes, whether it was converted or is black: an NV12
/// frame is as long as the shared one, an I420 frame as long, a YUY2 frame two bytes per pixel. The
/// bits per pixel say the same.
pub proof fn law_sizes_agree(
    format: Format,
    nv12: Seq<u8>,
    kept: Seq<u8>,
    width: int,
    height: int,
)
    requires
        crate::convert::even_size(width, height),
        nv12.len() == width * height * 3 / 2,
    ensures
        frame_bytes_of(Format::Nv12, width, height) == nv12.len(),
        frame_bytes_of(Format::I420, width, height) == crate::convert::i420_of(nv12, width * height).len(),
        frame_bytes_of(Format::Yuy2, width, height) == crate::convert::yuy2_of(nv12, width, height, kept).len(),
        frame_bytes_of(format, width, height) * 8 == width * height * bits_of(format),
{
    let h2 = height / 2;
    crate::convert::law_nv12_bytes(width, height);
    assert(width * height == 2 * (width * h2)) by (nonlinear_arith)
        requires
            height == 2 * h2,
    ;
    let n = width * height;
    let w2 = width / 2;
    assert(n == 4 * (w2 * h2) && height * (width * 2) == n * 2 && 0 <= n) by (nonlinear_arith)
        requires
            n == width * height,
            width == 2 * w2,
            height == 2 * h2,
            0 <= w2,
            0 <= h2,
    ;
    assert(n * 12 == 8 * (n * 3 / 2));
    assert(n * 16 == 8 * (n * 2));
    assert(n * bits_of(format) == (if format == Format::Yuy2 {
        n * 16
    } else {
        n * 12
    }));
}

/// Frames follow each other no faster than the rate says, as nearly as 100 ns allow.
pub proof fn law_interval_is_the_rate(fps: int)
    requires
        fps >= 1,
    ensures
        interval_of(fps) * fps <= 10_000_000 < (interval_of(fps) + 1) * fps,
{
    let q = interval_of(fps);
    vstd::arithmetic::div_mod::lemma_fundamental_div_mod(10_000_000, fps);
    assert(q * fps == fps * q && (q + 1) * fps == fps * q + fps) by (nonlinear_arith);
}

/// A frame duration stands for the nearest whole rate between 1 and 240; no duration stands for no
/// rate.
pub proof fn law_nearest_rate(t: int)
    ensures
        t <= 0 ==> fps_of(t) == 0,
        t > 0 ==> 1 <= fps_of(t) <= 240,
        t > 0 && 1 < fps_of(t) ==> (2 * fps_of(t) - 1) * t <= 20_000_000 + 1,
        t > 0 && fps_of(t) < 240 ==> 20_000_000 < (2 * fps_of(t) + 1) * t + 1,
{
    if t > 0 {
        let x = 10_000_000 + t / 2;
        let n = x / t;
        vstd::arithmetic::div_mod::lemma_fundamental_div_mod(x, t);
        assert(n * t <= x < (n + 1) * t) by (nonlinear_arith)
            requires
                x == t * n + x % t,
                0 <= x % t < t,
        ;
        let m = fps_of(t);
        assert((2 * m - 1) * t == 2 * (m * t) - t && (2 * m + 1) * t == 2 * ((m + 1) * t) - t)
            by (nonlinear_arith);
        if 1 < m {
            assert(m * t <= n * t) by (nonlinear_arith)
                requires
                    m <= n,
                    0 < t,
            ;
        }
        if m < 240 {
            assert((n + 1) * t <= (m + 1) * t) by (nonlinear_arith)
                requires
                    n <= m,
                    0 < t,
            ;
        }
    }
}

/// What is read from a format block: the width, the height whichever way up, and the rate, each
/// from its own place; a block that is too short, or a width that is not positive, says nothing.
pub proof fn law_block_is_read_as_written(format: Format, block: Seq<u8>)
    requires
        block.len() >= 88,
    ensures
        ({
            let w = crate::le::le32(block, 52);
            let h = crate::le::le32(block, 56);
            let t = crate::le::le64(block, 40);
            let r = block_type(format, block);
            &&& (r is Some <==> 0 < w < 0x8000_0000)
            &&& r is Some ==> {
                let vt = r.unwrap();
                &&& vt.format == format
                &&& vt.width == w
                &&& h <= 0x8000_0000 ==> vt.height == h
                &&& h > 0x8000_0000 ==> vt.height + h == 0x1_0000_0000
                &&& t < 0x8000_0000_0000_0000 ==> vt.fps == fps_of(t)
                &&& t >= 0x8000_0000_0000_0000 ==> vt.fps == 0
            }
        }),
        block_type(format, block.take(87)) is None,
{
    crate::le::law_places(block, 52);
    crate::le::law_places(block, 56);
    crate::le::law_places(block, 40);
}

/// The format block of a type: both rectangles cover the frame, the bitmap header has its size and
/// bits, the letters of its format, and the length of a frame.
pub proof fn law_header_describes_the_frame(vt: VideoType)
    requires
        vt.fits(),
        vt.spec_frame_bytes() <= 0xffff_ffff,
    ensures
        ({
            let b = crate::le::words_bytes(vt.header_words());
            &&& b.len() == 88
            &&& crate::le::le32(b, 0) == 0 && crate::le::le32(b, 4) == 0
            &&& crate::le::le32(b, 8) == vt.width && crate::le::le32(b, 12) == vt.height
            &&& crate::le::le32(b, 16) == 0 && crate::le::le32(b, 20) == 0
            &&& crate::le::le32(b, 24) == vt.width && crate::le::le32(b, 28) == vt.height
            &&& crate::le::le32(b, 32) == vt.spec_bit_rate()
            &&& crate::le::le32(b, 36) == 0
            &&& crate::le::le32(b, 48) == 40
            &&& crate::le::le32(b, 52) == vt.width && crate::le::le32(b, 56) == vt.height
            &&& crate::le::le32(b, 60) % 0x1_0000 == 1
            &&& crate::le::le32(b, 60) / 0x1_0000 == bits_of(vt.format)
            &&& crate::le::le32(b, 64) == (match vt.format {
                Format::Nv12 => 0x3231_564eint,
                Format::I420 => 0x3032_3449int,
                Format::Yuy2 => 0x3259_5559int,
            })
            &&& crate::le::le32(b, 68) == vt.spec_frame_bytes()
        }),
{
    let w = vt.header_words();
    crate::le::law_words_bytes(w, 0);
    crate::le::law_words_bytes(w, 1);
    crate::le::law_words_bytes(w, 2);
    crate::le::law_words_bytes(w, 3);
    crate::le::law_words_bytes(w, 4);
    crate::le::law_words_bytes(w, 5);
    crate::le::law_words_bytes(w, 6);
    crate::le::law_words_bytes(w, 7);
    crate::le::law_words_bytes(w, 8);
    crate::le::law_words_bytes(w, 9);
    crate::le::law_words_bytes(w, 12);
    crate::le::law_words_bytes(w, 13);
    crate::le::law_words_bytes(w, 14);
    crate::le::law_words_bytes(w, 15);
    crate::le::law_words_bytes(w, 16);
    crate::le::law_words_bytes(w, 17);
    assert(0 <= vt.spec_frame_bytes()) by {
        assert(0 <= vt.width * vt.height) by (nonlinear_arith);
    }
}

/// The bit rate is eight bits for every byte of every frame of a second, as far as 32 bits can say.
pub proof fn law_bit_rate(vt: VideoType)
    ensures
        8 * (vt.fps * vt.spec_frame_bytes()) <= 0xffff_ffff ==> vt.spec_bit_rate() == (8 * (vt.fps
            * vt.spec_frame_bytes())) as u32,
        8 * (vt.fps * vt.spec_frame_bytes()) > 0xffff_ffff ==> vt.spec_bit_rate() == 0xffff_ffff,
{
    assert(vt.spec_frame_bytes() * 8 * vt.fps == 8 * (vt.fps * vt.spec_frame_bytes()))
        by (nonlinear_arith);
}

/// A fully specified type admits what it describes and nothing of another size or format, nor
/// anything but video.
pub proof fn law_admission_is_strict(vt: VideoType, mt: MediaType)
    requires
        vt.admitted(mt),
    ensures
        mt.majortype == GUID_NULL || mt.majortype == MEDIATYPE_VIDEO,
        mt.formattype == GUID_NULL || mt.formattype == FORMAT_VIDEOINFO,
        mt.subtype != GUID_NULL ==> format_of(mt.subtype) == Some(vt.format),
        video_type_of(mt) matches Some(t) ==> t.width == vt.width && t.height == vt.height
            && t.format == vt.format,
{
}

/// Whatever a type says beyond the format block's size does not keep it from admitting: a video
/// type of the same format and size is admitted at every rate.
pub proof fn law_same_size_is_admitted(vt: VideoType, mt: MediaType)
    ensures
        video_type_of(mt) matches Some(t) ==> (t.width == vt.width && t.height == vt.height && t.format
            == vt.format ==> vt.admitted(mt)),
{
}

}
