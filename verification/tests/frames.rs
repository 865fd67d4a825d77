//! Colour conversion, layout conversion, scaling and the stream record.

use deskcam::color::{nv12_row_to_bgrx, pixel};
use deskcam::convert::{
    black_420, black_yuy2, i420_size, nv12_size, nv12_to_i420, nv12_to_yuy2, scale_nv12_nearest, yuy2_size,
};
use deskcam::le::{get32, get64, pack, put32, put64};
use deskcam::stream_info::{default_stream, load_or_default, StreamInfo};

fn convert(y: u8, u: u8, v: u8) -> [u8; 4] {
    let mut out = [0u8; 8];
    nv12_row_to_bgrx(&[y, y], &[u, v], &mut out);
    out[..4].try_into().unwrap()
}

#[test]
fn black_and_white() {
    assert_eq!(convert(16, 128, 128), [0, 0, 0, 255]);
    assert_eq!(convert(235, 128, 128), [255, 255, 255, 255]);
}

#[test]
fn red() {
    let [b, g, r, _] = convert(81, 90, 240);
    assert!(r >= 250 && g <= 5 && b <= 5, "got {r} {g} {b}");
}

#[test]
fn every_pixel_matches_the_shifted_formula() {
    let clamp = |v: i32| v.clamp(0, 255) as u8;
    for y in (0..=255u8).step_by(5) {
        for u in (0..=255u8).step_by(15) {
            for v in (0..=255u8).step_by(15) {
                let c = 298 * (y as i32 - 16);
                let d = u as i32 - 128;
                let e = v as i32 - 128;
                let want = [
                    clamp((c + 516 * d + 128) >> 8),
                    clamp((c - 100 * d - 208 * e + 128) >> 8),
                    clamp((c + 409 * e + 128) >> 8),
                    255,
                ];
                assert_eq!(pixel(y, u, v), want);
                assert_eq!(convert(y, u, v), want);
            }
        }
    }
}

#[test]
fn row_conversion_leaves_a_partial_pixel_alone() {
    let mut out = [9u8; 10];
    nv12_row_to_bgrx(&[16, 235], &[128, 128], &mut out);
    assert_eq!(out, [0, 0, 0, 255, 255, 255, 255, 255, 9, 9]);
}

/// 4x2 NV12 frame: luma 0..8, chroma row (U,V) pairs (100,200) and (101,201).
fn frame() -> Vec<u8> {
    let mut f: Vec<u8> = (0..8).collect();
    f.extend_from_slice(&[100, 200, 101, 201]);
    f
}

#[test]
fn i420_splits_chroma() {
    let mut out = vec![0u8; i420_size(4, 2)];
    nv12_to_i420(&frame(), 4, 2, &mut out);
    assert_eq!(out, [0, 1, 2, 3, 4, 5, 6, 7, 100, 101, 200, 201]);
}

#[test]
fn yuy2_interleaves_shared_chroma() {
    let mut out = vec![0u8; yuy2_size(4, 2)];
    nv12_to_yuy2(&frame(), 4, 2, &mut out);
    assert_eq!(&out[..8], &[0, 100, 1, 200, 2, 101, 3, 201]);
    assert_eq!(&out[8..], &[4, 100, 5, 200, 6, 101, 7, 201]);
}

#[test]
fn yuy2_keeps_the_last_pixel_of_an_odd_row() {
    let src: Vec<u8> = (0..12).collect();
    let mut out = vec![77u8; yuy2_size(3, 2)];
    nv12_to_yuy2(&src, 3, 2, &mut out);
    assert_eq!(out, [0, 6, 1, 7, 77, 77, 3, 6, 4, 7, 77, 77]);
}

#[test]
fn scale_identity_and_downscale() {
    let src = frame();
    let mut same = vec![0u8; src.len()];
    scale_nv12_nearest(&src, 4, 2, &mut same, 4, 2);
    assert_eq!(same, src);

    let mut half = vec![0u8; nv12_size(2, 2)];
    scale_nv12_nearest(&src, 4, 2, &mut half, 2, 2);
    assert_eq!(half, [0, 2, 4, 6, 100, 200]);
}

#[test]
fn scale_upscale_repeats_pixels() {
    let src = frame();
    let mut big = vec![0u8; nv12_size(8, 4)];
    scale_nv12_nearest(&src, 4, 2, &mut big, 8, 4);
    assert_eq!(&big[..8], &[0, 0, 1, 1, 2, 2, 3, 3]);
    assert_eq!(&big[24..32], &[4, 4, 5, 5, 6, 6, 7, 7]);
    assert_eq!(&big[32..40], &[100, 200, 100, 200, 101, 201, 101, 201]);
}

#[test]
fn scaling_up_and_back_gives_the_frame_back() {
    let src: Vec<u8> = (0..nv12_size(6, 4) as u8).collect();
    for k in 1..=5 {
        let mut big = vec![0u8; nv12_size(6 * k, 4 * k)];
        scale_nv12_nearest(&src, 6, 4, &mut big, 6 * k, 4 * k);
        let mut back = vec![0u8; src.len()];
        scale_nv12_nearest(&big, 6 * k, 4 * k, &mut back, 6, 4);
        assert_eq!(back, src);
    }
}

#[test]
fn black_frames() {
    let mut nv12 = vec![0u8; nv12_size(4, 2)];
    black_420(4, 2, &mut nv12);
    assert_eq!(nv12, [16, 16, 16, 16, 16, 16, 16, 16, 128, 128, 128, 128]);
    let mut yuy2 = vec![0u8; yuy2_size(2, 2)];
    black_yuy2(2, 2, &mut yuy2);
    assert_eq!(yuy2, [16, 128, 16, 128, 16, 128, 16, 128]);
}

#[test]
fn black_stays_black_through_every_conversion() {
    let mut src = vec![0u8; nv12_size(6, 4)];
    black_420(6, 4, &mut src);
    let mut scaled = vec![0u8; nv12_size(4, 2)];
    scale_nv12_nearest(&src, 6, 4, &mut scaled, 4, 2);
    let mut want = vec![0u8; nv12_size(4, 2)];
    black_420(4, 2, &mut want);
    assert_eq!(scaled, want);
    let mut i420 = vec![0u8; i420_size(4, 2)];
    nv12_to_i420(&scaled, 4, 2, &mut i420);
    assert_eq!(i420, want);
    let mut yuy2 = vec![0u8; yuy2_size(4, 2)];
    nv12_to_yuy2(&scaled, 4, 2, &mut yuy2);
    let mut black = vec![0u8; yuy2_size(4, 2)];
    black_yuy2(4, 2, &mut black);
    assert_eq!(yuy2, black);
}

#[test]
fn conversions_leave_the_rest_of_the_buffer_alone() {
    let mut out = vec![5u8; 14];
    nv12_to_i420(&frame(), 4, 2, &mut out);
    assert_eq!(&out[12..], &[5, 5]);
    let mut out = vec![5u8; 14];
    scale_nv12_nearest(&frame(), 4, 2, &mut out, 4, 2);
    assert_eq!(&out[12..], &[5, 5]);
    let mut out = vec![5u8; 14];
    black_420(4, 2, &mut out);
    assert_eq!(&out[12..], &[5, 5]);
}

#[test]
fn i420_tells_frames_apart() {
    let a = frame();
    let mut b = frame();
    b[11] = 202;
    let (mut x, mut y) = (vec![0u8; 12], vec![0u8; 12]);
    nv12_to_i420(&a, 4, 2, &mut x);
    nv12_to_i420(&b, 4, 2, &mut y);
    assert_ne!(x, y);
}

#[test]
fn round_trip() {
    let info = StreamInfo { width: 1280, height: 720, fps: 60 };
    assert_eq!(StreamInfo::from_bytes(&info.to_bytes()), Some(info));
}

#[test]
fn rejects_bad_records() {
    let good = StreamInfo { width: 1280, height: 720, fps: 60 };
    let mut bad_magic = good.to_bytes();
    bad_magic[0] ^= 0xFF;
    assert_eq!(StreamInfo::from_bytes(&bad_magic), None);
    let odd = StreamInfo { width: 1281, ..good };
    assert_eq!(StreamInfo::from_bytes(&odd.to_bytes()), None);
    let zero_fps = StreamInfo { fps: 0, ..good };
    assert_eq!(StreamInfo::from_bytes(&zero_fps.to_bytes()), None);
    assert_eq!(StreamInfo::from_bytes(&good.to_bytes()[..31]), None);
}

#[test]
fn record_has_its_words_in_place() {
    let bytes = StreamInfo { width: 1280, height: 720, fps: 60 }.to_bytes();
    assert_eq!(&bytes[..4], b"DKST");
    assert_eq!(&bytes[4..20], &[1, 0, 0, 0, 0, 5, 0, 0, 0xD0, 2, 0, 0, 60, 0, 0, 0]);
    assert!(bytes[20..].iter().all(|&b| b == 0));
}

#[test]
fn record_tail_is_not_looked_at() {
    let info = StreamInfo { width: 1280, height: 720, fps: 60 };
    let mut bytes = info.to_bytes();
    bytes[31] = 9;
    assert_eq!(StreamInfo::from_bytes(&bytes), Some(info));
    bytes[4] = 2;
    assert_eq!(StreamInfo::from_bytes(&bytes), None);
}

#[test]
fn limits_of_valid_streams() {
    let ok = StreamInfo { width: 320, height: 180, fps: 1 };
    assert!(ok.validate());
    assert!(StreamInfo { width: 3840, height: 2160, fps: 240 }.validate());
    assert!(!StreamInfo { width: 318, ..ok }.validate());
    assert!(!StreamInfo { width: 3842, ..ok }.validate());
    assert!(!StreamInfo { height: 178, ..ok }.validate());
    assert!(!StreamInfo { height: 2162, ..ok }.validate());
    assert!(!StreamInfo { height: 181, ..ok }.validate());
    assert!(!StreamInfo { fps: 241, ..ok }.validate());
}

#[test]
fn missing_or_bad_file_means_the_default_stream() {
    let default = StreamInfo { width: 1920, height: 1080, fps: 30 };
    assert_eq!(default_stream(), default);
    assert_eq!(load_or_default(None), default);
    assert_eq!(load_or_default(Some(vec![1, 2, 3])), default);
    let info = StreamInfo { width: 640, height: 480, fps: 25 };
    assert_eq!(load_or_default(Some(info.to_bytes().to_vec())), info);
}

#[test]
fn little_endian_numbers() {
    let mut b = [0xAAu8; 12];
    put32(&mut b, 2, 0x89AB_CDEF);
    assert_eq!(b[..7], [0xAA, 0xAA, 0xEF, 0xCD, 0xAB, 0x89, 0xAA]);
    put64(&mut b, 3, 0x0102_0304_0506_0708);
    assert_eq!(get64(&b, 3), 0x0102_0304_0506_0708);
    assert_eq!(b[11], 0xAA);
    assert_eq!(get32(&b, 3), 0x0506_0708);
    assert_eq!(pack(&[0x0403_0201, 0xFF]), [1, 2, 3, 4, 0xFF, 0, 0, 0]);
}
