//! The Media Foundation source and its stream.

use deskcam::codes::{
    CLSID, E_FAIL, E_INVALIDARG, E_POINTER, MF_E_INVALIDMEDIATYPE, MF_E_INVALID_STATE_TRANSITION,
    MF_E_MEDIA_SOURCE_WRONGSTATE, MF_E_SHUTDOWN,
};
use deskcam::color::pixel;
use deskcam::layout::{section_size, FrameRing, ReadOutcome};
use deskcam::source::activator;
use deskcam::source::media_source::{
    self, ks_not_found, start_events, MediaSource, Presentation, Profile, StartAction, StopAction, NEW_STREAM,
    SOURCE_STARTED,
};
use deskcam::source::media_stream::{
    self, media_type, rate_interval, Format, SampleStep, StartPlan, StateAction, Step, StreamState, MEDIA_SAMPLE,
    STREAM_STARTED, VIDEO_NV12, VIDEO_RGB32,
};
use deskcam::source::sample::{check_2d, check_packed, finish_frame, row_bytes, rows, write_frame, write_newest};
use deskcam::stream_info::StreamInfo;

const SELECTED: Presentation = Presentation { stream_count: 1, has_stream: true, stream_id: 0, selected: true };

fn frame_rate(rate: u64) -> (u64, u64) {
    (rate >> 32, rate & 0xFFFF_FFFF)
}

#[test]
fn activator_exposes_configured_stream() {
    let info = StreamInfo { width: 1280, height: 720, fps: 60 };
    let mut act = activator::create(1);
    assert_eq!(act.activate_object(), Ok(1));
    let mut source: MediaSource = media_source::create(act.attrs);

    let types = media_stream::types(info);
    assert_eq!(types.len(), 4);
    assert_eq!(types[0].subtype, VIDEO_NV12);
    assert_eq!(types[0].frame_size, (1280u64 << 32) | 720);
    assert_eq!(frame_rate(types[0].frame_rate), (60, 1));
    assert_eq!(frame_rate(types[2].frame_rate), (30, 1));

    assert_eq!(source.attrs.first_profile.definition().0, 0xb4894d81_62b7_4eec_8740_80658c4a9d3e);
    assert_eq!(source.attrs.activator.provide_associated_sources, 1);
    assert_eq!(source.attrs.activator.transform_clsid, CLSID);

    assert_eq!(source.shutdown(), Ok(()));
    assert_eq!(source.shutdown().unwrap_err(), MF_E_SHUTDOWN);
    act.detach_object();
    assert!(act.activate_object().is_err());
}

#[test]
fn started_stream_delivers_paced_black_nv12_without_writer() {
    let info = StreamInfo { width: 320, height: 180, fps: 30 };
    let source = media_source::create(activator::attributes());
    let mut stream = media_stream::new(info);
    stream.set_source(1);

    let action = source.start(Some(SELECTED), Some(0), stream.state() != StreamState::Stopped).unwrap();
    assert_eq!(action, StartAction::StartStream);
    let mut stream_events = Vec::new();
    let first = media_stream::types(info)[0];
    let plan = stream.begin_start(false, Ok(first.subtype), Some(first.frame_rate)).unwrap();
    assert_eq!(plan, StartPlan { create_allocator: true, init_allocator: true });
    stream.set_allocator();
    stream.allocator_initialised();
    stream.allocator_settled();
    stream_events.push(STREAM_STARTED);
    assert!(stream.started());
    assert_eq!(start_events(action), [NEW_STREAM, SOURCE_STARTED]);
    assert_eq!((NEW_STREAM, SOURCE_STARTED, STREAM_STARTED, MEDIA_SAMPLE), (205, 201, 202, 213));

    let begin = 5_000_000_000u64;
    let (mut now, mut due) = (begin, begin);
    for _ in 0..10 {
        assert_eq!(stream.request_sample(None), Ok(()));
    }
    let mut last = Vec::new();
    while stream_events.len() < 11 {
        let (step, next) = stream.step(due, now);
        due = next;
        match step {
            Step::Sleep { ns } => now += ns,
            Step::Deliver => {
                assert_eq!(stream.take_request(), Some((None, true)));
                let needed = check_packed(Format::Nv12, 320, 180, 100_000).unwrap();
                last = vec![1u8; needed as usize];
                write_frame(None, Format::Nv12, 320, 180, &mut last, 0, 320);
                stream_events.push(MEDIA_SAMPLE);
            }
            other => panic!("{other:?}"),
        }
    }
    assert_eq!(stream_events[0], STREAM_STARTED);
    assert!(stream_events[1..].iter().all(|&e| e == MEDIA_SAMPLE));
    // 10 samples at 30 fps are paced over ~9 intervals, not delivered in a burst.
    let elapsed = now - begin;
    assert!(elapsed >= 250_000_000, "delivered too fast: {elapsed}");
    assert!(last.len() >= 320 * 180 * 3 / 2);
    assert!(last[..320 * 180].iter().all(|&y| y == 16), "luma not black");
    assert!(last[320 * 180..].iter().all(|&c| c == 128), "chroma not neutral");
    assert_eq!(stream.step(due, now + 1).0, Step::Wait);
}

#[test]
fn types_below_thirty_frames() {
    let types = media_stream::types(StreamInfo { width: 640, height: 480, fps: 30 });
    assert_eq!(types.iter().map(|t| t.subtype).collect::<Vec<_>>(), [VIDEO_NV12, VIDEO_RGB32]);
    assert_eq!((types[0].stride, types[1].stride), (640, 2560));
    assert_eq!((types[0].yuv_matrix, types[0].nominal_range), (Some(2), Some(2)));
    assert_eq!((types[1].yuv_matrix, types[1].nominal_range), (None, None));
    for t in &types {
        assert_eq!(t.major_type, 0x73646976_0000_0010_8000_00aa00389b71);
        assert_eq!((t.interlace_mode, t.all_samples_independent), (2, 1));
    }
    assert_eq!(types[0].avg_bitrate, 640 * 480 * 3 / 2 * 8 * 30);
    assert_eq!(types[0].pixel_aspect_ratio, (1 << 32) | 1);
    let big = media_type(StreamInfo { width: 3840, height: 2160, fps: 240 }, 240, Format::Rgb32);
    assert_eq!(big.avg_bitrate, u32::MAX);
}

#[test]
fn frame_rates() {
    assert_eq!(rate_interval(None, 30), 33_333_333);
    assert_eq!(rate_interval(Some((60 << 32) | 1), 30), 16_666_666);
    assert_eq!(rate_interval(Some((30_000 << 32) | 1001), 30), 33_366_666);
    assert_eq!(rate_interval(Some(60 << 32), 25), 40_000_000);
    assert_eq!(rate_interval(Some(7), 25), 40_000_000);
}

#[test]
fn stream_attributes() {
    let a = media_stream::attributes(0);
    assert_eq!((a.id, a.shared, a.frame_source_types), (0, 1, 1));
}

#[test]
fn profiles() {
    assert_eq!(Profile::Legacy.definition().1, "((RES==;FRT<=30,1;SUT==))");
    assert_eq!(Profile::HighFrameRate.definition().1, "((RES==;FRT>=60,1;SUT==))");
}

#[test]
fn source_start_is_checked() {
    let mut source = media_source::create(activator::attributes());
    let start = |s: &MediaSource, p: Presentation| s.start(Some(p), None, false);
    assert_eq!(source.start(None, None, false), Err(E_POINTER));
    assert_eq!(source.may_start(false, Some(1)), Err(E_POINTER));
    assert_eq!(source.may_start(true, Some(1)), Err(E_INVALIDARG));
    assert_eq!(source.may_start(true, Some(0)), Ok(()));
    assert_eq!(source.start(Some(SELECTED), Some(1), false), Err(E_INVALIDARG));
    assert_eq!(start(&source, Presentation { stream_count: 2, ..SELECTED }), Err(E_INVALIDARG));
    assert_eq!(start(&source, Presentation { has_stream: false, ..SELECTED }), Err(E_POINTER));
    assert_eq!(start(&source, Presentation { stream_id: 3, ..SELECTED }), Err(E_INVALIDARG));
    assert_eq!(source.start(Some(SELECTED), None, true), Ok(StartAction::Nothing));
    let unselected = Presentation { selected: false, ..SELECTED };
    assert_eq!(source.start(Some(unselected), None, true), Ok(StartAction::StopStream));
    assert_eq!(start(&source, unselected), Ok(StartAction::Nothing));
    assert_eq!(start_events(StartAction::Nothing), [SOURCE_STARTED]);
    assert_eq!(source.stop(true), Ok(StopAction::StopStream));
    assert_eq!(source.stop(false), Ok(StopAction::Deselect));
    assert_eq!(source.pause(), Err(MF_E_INVALID_STATE_TRANSITION));
    assert_eq!(source.check(), Ok(()));
    assert_eq!(source.check_stream(1), Err(E_INVALIDARG));
    assert_eq!(source.check_stream(0), Ok(()));
    assert_eq!(source.allocator_usage(0, true), Ok(0));
    assert_eq!(source.allocator_usage(1, true), Err(E_INVALIDARG));
    assert_eq!(source.allocator_usage(0, false), Err(E_POINTER));
    source.shutdown().unwrap();
    assert_eq!(start(&source, SELECTED), Err(MF_E_SHUTDOWN));
    assert_eq!(source.stop(true), Err(MF_E_SHUTDOWN));
    assert_eq!(source.check(), Err(MF_E_SHUTDOWN));
}

#[test]
fn kernel_streaming_answers() {
    assert_eq!(ks_not_found(), 0x8007_0492);
}

fn running() -> media_stream::MediaStream {
    let mut s = media_stream::new(StreamInfo { width: 320, height: 180, fps: 25 });
    s.begin_start(false, Ok(VIDEO_RGB32), None).unwrap();
    s.set_allocator();
    s.allocator_initialised();
    s.started();
    s
}

#[test]
fn starting_the_stream() {
    let mut s = media_stream::new(StreamInfo { width: 320, height: 180, fps: 25 });
    assert_eq!(s.begin_start(true, Err(E_FAIL), None), Err(E_FAIL));
    assert_eq!(s.begin_start(true, Ok(1), None), Err(MF_E_INVALIDMEDIATYPE));
    assert_eq!(s.core.format, Format::Nv12);
    let mut s = running();
    assert_eq!((s.core.format, s.core.interval_ns), (Format::Rgb32, 40_000_000));
    assert_eq!(s.sample_duration(), 400_000);
    let again = s.begin_start(false, Ok(VIDEO_NV12), None).unwrap();
    assert_eq!(again, StartPlan { create_allocator: false, init_allocator: false });
    let explicit = s.begin_start(true, Ok(VIDEO_NV12), None).unwrap();
    assert_eq!(explicit, StartPlan { create_allocator: false, init_allocator: true });
    assert!(!s.started());
    assert_eq!(s.stop(), Ok(true));
    assert_eq!(s.stop(), Ok(false));
    assert_eq!(s.state(), StreamState::Stopped);
}

#[test]
fn requests_are_answered_in_order() {
    let mut s = media_stream::new(StreamInfo { width: 320, height: 180, fps: 25 });
    assert_eq!(s.request_sample(None), Err(MF_E_MEDIA_SOURCE_WRONGSTATE));
    let mut s = running();
    s.request_sample(Some(1)).unwrap();
    s.request_sample(Some(2)).unwrap();
    assert_eq!(s.take_request(), Some((Some(1), true)));
    s.request_sample(None).unwrap();
    assert_eq!(s.take_request(), Some((Some(2), true)));
    assert_eq!(s.take_request(), Some((None, true)));
    assert_eq!(s.take_request(), None);
    assert!(s.sample_missing());
    assert!(!s.sample_missing());
    s.allocator_settled();
    assert!(s.sample_missing());
}

#[test]
fn shutting_the_stream_down() {
    let mut s = running();
    s.set_source(4);
    assert_eq!(s.media_source(), Ok(4));
    assert_eq!(s.check_descriptor(), Ok(()));
    s.request_sample(None).unwrap();
    assert!(s.needs_shutdown());
    let plan = s.shutdown();
    assert!(plan.join && plan.queue);
    assert!(!s.needs_shutdown());
    let plan = s.shutdown();
    assert!(!plan.join && !plan.queue);
    assert_eq!(s.step(0, 1_000_000_000).0, Step::Exit);
    assert_eq!(s.take_request(), None);
    assert_eq!(s.media_source(), Err(MF_E_SHUTDOWN));
    assert_eq!(s.check_descriptor(), Err(MF_E_SHUTDOWN));
    assert_eq!(s.check_queue(), Err(MF_E_SHUTDOWN));
    assert_eq!(s.request_sample(None), Err(MF_E_SHUTDOWN));
    assert_eq!(s.begin_start(true, Ok(VIDEO_NV12), None), Err(MF_E_SHUTDOWN));
    assert_eq!(s.stop(), Err(MF_E_SHUTDOWN));
}

#[test]
fn stream_states() {
    let mut s = media_stream::new(StreamInfo { width: 320, height: 180, fps: 25 });
    assert_eq!(s.set_stream_state(None), Err(MF_E_INVALID_STATE_TRANSITION));
    assert_eq!(s.set_stream_state(Some(StreamState::Stopped)), Ok(StateAction::Nothing));
    assert_eq!(s.set_stream_state(Some(StreamState::Paused)), Err(MF_E_INVALID_STATE_TRANSITION));
    assert_eq!(s.set_stream_state(Some(StreamState::Running)), Ok(StateAction::Start));
    let mut s = running();
    assert_eq!(s.set_stream_state(Some(StreamState::Paused)), Ok(StateAction::Nothing));
    assert_eq!(s.state(), StreamState::Paused);
    assert_eq!(s.request_sample(None), Err(MF_E_MEDIA_SOURCE_WRONGSTATE));
    assert_eq!(s.set_stream_state(Some(StreamState::Stopped)), Ok(StateAction::Stop));
}

#[test]
fn pacing() {
    let mut s = running();
    assert_eq!(s.step(7, 9), (Step::Wait, 7));
    s.request_sample(None).unwrap();
    assert_eq!(s.step(100, 60), (Step::Sleep { ns: 40 }, 100));
    assert_eq!(s.step(100, 100), (Step::Deliver, 40_000_100));
    assert_eq!(s.step(100, 40_000_100), (Step::Deliver, 40_000_100));
    // More than an interval late: the schedule starts over.
    assert_eq!(s.step(100, 40_000_101), (Step::Deliver, 80_000_101));
}

#[test]
fn section_tries() {
    let mut s = running();
    assert!(s.wants_section(0));
    assert!(s.section_tried(1000, false));
    assert!(!s.wants_section(1499) && s.wants_section(1500));
    assert!(!s.section_tried(1500, false));
    assert!(s.section_tried(2000, true));
    assert!(!s.wants_section(9000));
}

#[test]
fn buffers_are_checked() {
    assert_eq!((row_bytes(Format::Nv12, 8), rows(Format::Nv12, 4)), (8, 6));
    assert_eq!((row_bytes(Format::Rgb32, 8), rows(Format::Rgb32, 4)), (32, 4));
    assert_eq!(check_2d(Format::Nv12, 8, 4, 8, 48), Ok(()));
    assert_eq!(check_2d(Format::Nv12, 8, 4, 8, 47), Err(E_FAIL));
    assert_eq!(check_2d(Format::Nv12, 8, 4, 7, 480), Err(E_FAIL));
    assert_eq!(check_2d(Format::Rgb32, 8, 4, -32, 128), Ok(()));
    assert_eq!(check_2d(Format::Nv12, 8, 4, i32::MIN, u32::MAX), Err(E_FAIL));
    assert_eq!(check_packed(Format::Rgb32, 8, 4, 128), Ok(128));
    assert_eq!(check_packed(Format::Rgb32, 8, 4, 127), Err(E_FAIL));
}

#[test]
fn frames_go_into_pitched_and_bottom_up_buffers() {
    let frame: Vec<u8> = (0..12).collect();
    let mut buf = vec![99u8; 18];
    write_frame(Some(&frame), Format::Nv12, 4, 2, &mut buf, 1, 5);
    assert_eq!(buf, [99, 0, 1, 2, 3, 99, 4, 5, 6, 7, 99, 8, 9, 10, 11, 99, 99, 99]);
    let mut buf = vec![0u8; 32];
    write_frame(Some(&frame), Format::Rgb32, 4, 2, &mut buf, 16, -16);
    assert_eq!(buf[16..20], pixel(0, 8, 9));
    assert_eq!(buf[28..32], pixel(3, 10, 11));
    assert_eq!(buf[0..4], pixel(4, 8, 9));
    let mut buf = vec![7u8; 32];
    write_frame(None, Format::Rgb32, 4, 2, &mut buf, 0, 16);
    assert_eq!(buf, [0, 0, 0, 255].repeat(8));
    assert_eq!(buf[..4], pixel(16, 128, 128));
}

#[test]
fn newest_frame_or_black() {
    let mut ring = FrameRing::from_raw(vec![0; section_size(4, 2)], 4, 2, true);
    ring.init_header();
    ring.touch_writer(1000);
    let mut buf = vec![0u8; 12];
    assert_eq!(write_newest(&ring, 1000, Format::Nv12, &mut buf, 0, 4), ReadOutcome::NoFrame);
    assert_eq!(buf, [16, 16, 16, 16, 16, 16, 16, 16, 128, 128, 128, 128]);
    ring.publish(|b: &mut [u8]| b.fill(50));
    assert_eq!(write_newest(&ring, 1000, Format::Nv12, &mut buf, 0, 4), ReadOutcome::Frame);
    assert_eq!(buf, [50; 12]);
    finish_frame(ReadOutcome::Frame, Format::Nv12, 4, 2, &mut buf, 0, 4);
    assert_eq!(buf, [50; 12]);
    assert_eq!(write_newest(&ring, 3000, Format::Nv12, &mut buf, 0, 4), ReadOutcome::WriterGone);
    assert_eq!(buf[0], 16);
    buf.fill(9);
    finish_frame(ReadOutcome::NoFrame, Format::Nv12, 4, 2, &mut buf, 0, 4);
    assert_eq!(buf, [16, 16, 16, 16, 16, 16, 16, 16, 128, 128, 128, 128]);
}

#[test]
fn failed_spawn_is_tried_again() {
    let mut s = media_stream::new(StreamInfo { width: 320, height: 180, fps: 30 });
    assert!(s.started());
    s.spawn_failed();
    assert!(!s.needs_shutdown());
    assert_eq!(s.state(), StreamState::Running);
    assert!(s.started());
    assert!(!s.started());
    assert!(s.needs_shutdown());
}

#[test]
fn sample_is_announced_last() {
    let mut s = media_stream::new(StreamInfo { width: 320, height: 180, fps: 30 });
    assert_eq!(
        s.steps(None),
        [
            SampleStep::Fill,
            SampleStep::Time,
            SampleStep::Duration { hns: 333_333 },
            SampleStep::CleanPoint { value: 1 },
            SampleStep::Announce { event: MEDIA_SAMPLE },
        ]
    );
    s.section_tried(0, true);
    let steps = s.steps(Some(7));
    assert_eq!(steps[..2], [SampleStep::Fill, SampleStep::TouchReader]);
    assert_eq!(steps[5..], [SampleStep::Token { token: 7 }, SampleStep::Announce { event: MEDIA_SAMPLE }]);
}
