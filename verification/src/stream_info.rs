//! `stream.bin`: the format the running app produces, read by the camera on activation.

use vstd::prelude::*;
use crate::le::{get32, pack};

verus! {

/// `b"DKST"`.
pub const MAGIC: u32 = 0x5453_4B44;

pub const VERSION: u32 = 1;

pub const FILE_SIZE: usize = 32;

#[derive(Clone, Copy, PartialEq, Eq, Debug, Structural)]
pub struct StreamInfo {
    pub width: u32,
    pub height: u32,
    pub fps: u32,
}

/// The format where no file says another: 1920 x 1080 at 30 frames per second.
pub open spec fn default_format() -> StreamInfo {
    StreamInfo { width: 1920, height: 1080, fps: 30 }
}

/// The format where no file says another.
pub fn default_stream() -> (info: StreamInfo)
    ensures
        info == default_format(),
{
    StreamInfo { width: 1920, height: 1080, fps: 30 }
}

/// The sizes and rates that a camera can have.
pub open spec fn valid(info: StreamInfo) -> bool {
    &&& info.width % 2 == 0
    &&& info.height % 2 == 0
    &&& 320 <= info.width <= 3840
    &&& 180 <= info.height <= 2160
    &&& 1 <= info.fps <= 240
}

/// The words of a record.
pub open spec fn record_words(info: StreamInfo) -> Seq<u32> {
    seq![MAGIC, VERSION, info.width, info.height, info.fps, 0, 0, 0]
}

/// The record of a stream format.
pub open spec fn record(info: StreamInfo) -> Seq<u8> {
    crate::le::words_bytes(record_words(info))
}

/// The format that a record stands for; `None` unless the content is a valid, in-range record.
pub open spec fn record_info(bytes: Seq<u8>) -> Option<StreamInfo> {
    let info = StreamInfo {
        width: crate::le::le32(bytes, 8) as u32,
        height: crate::le::le32(bytes, 12) as u32,
        fps: crate::le::le32(bytes, 16) as u32,
    };
    if bytes.len() == FILE_SIZE && crate::le::le32(bytes, 0) == MAGIC && crate::le::le32(bytes, 4)
        == VERSION && valid(info) {
        Some(info)
    } else {
        None
    }
}

impl StreamInfo {
    /// Whether a camera can have this size and rate.
    pub fn validate(&self) -> (r: bool)
        ensures
            r == valid(*self),
    {
        self.width % 2 == 0 && self.height % 2 == 0 && (320 <= self.width && self.width <= 3840) && (
        180 <= self.height && self.height <= 2160) && (1 <= self.fps && self.fps <= 240)
    }

    /// The record of this format.
    pub fn to_bytes(&self) -> (out: [u8; FILE_SIZE])
        ensures
            out@ == record(*self),
    {
        let words: [u32; 8] = [MAGIC, VERSION, self.width, self.height, self.fps, 0, 0, 0];
        let packed = pack(words.as_slice());
        assert(words@ =~= record_words(*self));
        let mut out: [u8; FILE_SIZE] = [0;FILE_SIZE];
        let mut i: usize = 0;
        while i < FILE_SIZE
            invariant
                i <= FILE_SIZE,
                packed@ == record(*self),
                forall|k: int| 0 <= k < i ==> #[trigger] out@[k] == packed@[k],
            decreases FILE_SIZE - i,
        {
            out[i] = packed[i];
            i += 1;
        }
        assert(out@ =~= record(*self));
        out
    }

    /// Parses untrusted bytes; `None` unless the content is a valid, in-range record.
    pub fn from_bytes(bytes: &[u8]) -> (r: Option<StreamInfo>)
        ensures
            r == record_info(bytes@),
    {
        if bytes.len() != FILE_SIZE {
            return None;
        }
        if get32(bytes, 0) != MAGIC || get32(bytes, 4) != VERSION {
            return None;
        }
        let info = StreamInfo {
            width: get32(bytes, 8),
            height: get32(bytes, 12),
            fps: get32(bytes, 16),
        };
        if info.validate() {
            Some(info)
        } else {
            None
        }
    }
}

/// The format in the file's content, or the default.
pub open spec fn loaded(content: Option<Seq<u8>>) -> StreamInfo {
    match content {
        Some(bytes) => match record_info(bytes) {
            Some(i) => i,
            None => default_format(),
        },
        None => default_format(),
    }
}

/// The format in the file's content; the default where it could not be read or is no valid
/// record.
pub fn load_or_default(content: Option<Vec<u8>>) -> (info: StreamInfo)
    ensures
        info == loaded(
            match content {
                Some(bytes) => Some(bytes@),
                None => None,
            },
        ),
        valid(info),
{
    match content {
        Some(bytes) => match StreamInfo::from_bytes(bytes.as_slice()) {
            Some(i) => i,
            None => default_stream(),
        },
        None => default_stream(),
    }
}

proof fn lemma_record_words(info: StreamInfo)
    ensures
        crate::le::le32(record(info), 0) == MAGIC,
        crate::le::le32(record(info), 4) == VERSION,
        crate::le::le32(record(info), 8) == info.width,
        crate::le::le32(record(info), 12) == info.height,
        crate::le::le32(record(info), 16) == info.fps,
{
    crate::le::law_words_bytes(record_words(info), 0);
    crate::le::law_words_bytes(record_words(info), 1);
    crate::le::law_words_bytes(record_words(info), 2);
    crate::le::law_words_bytes(record_words(info), 3);
    crate::le::law_words_bytes(record_words(info), 4);
}

/// A record gives its format back, if and only if the format is valid.
pub proof fn law_record_round_trip(info: StreamInfo)
    ensures
        valid(info) ==> record_info(record(info)) == Some(info),
        !valid(info) ==> record_info(record(info)) == None::<StreamInfo>,
{
    lemma_record_words(info);
}

/// Two records of the same format agree on the bytes that are looked at.
pub proof fn law_record_determined(bytes: Seq<u8>, info: StreamInfo)
    requires
        record_info(bytes) == Some(info),
    ensures
        bytes.take(20) == record(info).take(20),
{
    lemma_record_words(info);
    let r = record(info);
    crate::le::law_le32_bytes(bytes, r, 0);
    crate::le::law_le32_bytes(bytes, r, 4);
    crate::le::law_le32_bytes(bytes, r, 8);
    crate::le::law_le32_bytes(bytes, r, 12);
    crate::le::law_le32_bytes(bytes, r, 16);
    assert(bytes.take(20) =~= r.take(20));
}

/// A camera has even sides, 160 to 1920 pairs wide and 90 to 1080 pairs high, and 1 to 240 frames
/// per second; every such format is valid, and no other.
pub proof fn law_valid_formats(w: u32, h: u32, fps: u32)
    requires
        w <= 0x7fff_ffff,
        h <= 0x7fff_ffff,
    ensures
        valid(StreamInfo { width: (2 * w) as u32, height: (2 * h) as u32, fps }) == (160 <= w <= 1920
            && 90 <= h <= 1080 && 0 < fps < 241),
        !valid(StreamInfo { width: (2 * w + 1) as u32, height: (2 * h) as u32, fps }),
        !valid(StreamInfo { width: (2 * w) as u32, height: (2 * h + 1) as u32, fps }),
{
}

/// What is read is what stands in the file: a record of 32 bytes that starts with `DKST` and the
/// version 1, then width, height and rate, low byte first.
pub proof fn law_record_is_read_as_written(b: Seq<u8>)
    ensures
        record_info(b) matches Some(info) ==> {
            &&& b.len() == 32
            &&& b[0] == 0x44 && b[1] == 0x4b && b[2] == 0x53 && b[3] == 0x54
            &&& b[4] == 1 && b[5] == 0 && b[6] == 0 && b[7] == 0
            &&& info.width == b[8] + 256 * b[9] + 65536 * b[10] + 16777216 * b[11]
            &&& info.height == b[12] + 256 * b[13] + 65536 * b[14] + 16777216 * b[15]
            &&& info.fps == b[16] + 256 * b[17] + 65536 * b[18] + 16777216 * b[19]
        },
{
}

/// The bytes of a record.
pub proof fn law_record_bytes(info: StreamInfo, i: int)
    ensures
        ({
            let b = record(info);
            &&& b.len() == 32
            &&& b[0] == 0x44 && b[1] == 0x4b && b[2] == 0x53 && b[3] == 0x54
            &&& b[4] == 1 && b[5] == 0 && b[6] == 0 && b[7] == 0
            &&& b[8] + 256 * b[9] + 65536 * b[10] + 16777216 * b[11] == info.width
            &&& b[12] + 256 * b[13] + 65536 * b[14] + 16777216 * b[15] == info.height
            &&& b[16] + 256 * b[17] + 65536 * b[18] + 16777216 * b[19] == info.fps
            &&& 20 <= i < 32 ==> b[i] == 0
        }),
{
    lemma_record_words(info);
    let b = record(info);
    assert(b[0] == 0x44 && b[1] == 0x4b && b[2] == 0x53 && b[3] == 0x54);
    assert(b[4] == 1 && b[5] == 0 && b[6] == 0 && b[7] == 0);
    if 20 <= i < 32 {
        assert(record_words(info)[i / 4] == 0);
    }
}

/// Every valid format that was stored is loaded again; what is no record of a valid format, or
/// missing, means 1920 x 1080 at 30 frames per second.
pub proof fn law_stored_format_is_loaded(info: StreamInfo, bytes: Seq<u8>)
    ensures
        valid(info) ==> loaded(Some(record(info))) == info,
        valid(loaded(Some(bytes))),
        bytes.len() != 32 ==> loaded(Some(bytes)) == loaded(None),
        loaded(None) == (StreamInfo { width: 1920, height: 1080, fps: 30 }),
{
    law_record_round_trip(info);
}

}
