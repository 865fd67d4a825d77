//! The DirectShow filter, its pin and its delivery.

use deskcam::codes::{
    E_FAIL, E_INVALIDARG, E_POINTER, E_PROP_ID_UNSUPPORTED, E_PROP_SET_UNSUPPORTED, E_UNEXPECTED, S_FALSE, S_OK,
    VFW_E_ALREADY_CONNECTED, VFW_E_INVALIDMEDIATYPE, VFW_E_NOT_COMMITTED, VFW_E_NOT_CONNECTED, VFW_E_NOT_FOUND,
    VFW_E_NOT_STOPPED, VFW_E_NO_ACCEPTABLE_TYPES, VFW_E_NO_CLOCK, VFW_E_WRONG_STATE,
};
use deskcam::convert::{black_420, nv12_size, nv12_to_i420, nv12_to_yuy2, scale_nv12_nearest};
use deskcam::dshow::enums::{Answer, Cursor};
use deskcam::dshow::filter::{create, Core, FilterState, StopAction};
use deskcam::dshow::format::{
    formats, Format, MediaType, VideoType, FORMAT_VIDEOINFO, MEDIASUBTYPE_YUY2, MEDIATYPE_VIDEO,
};
use deskcam::dshow::pin::{
    accept, allocator_request, check_category, get_property, query_supported, AllocatorEvent, AllocatorProps,
    AllocatorStep, ConnectAction, Extent, FormatAction, CATEGORY_CAPTURE, PIN_CATEGORY, PIN_PROPERTIES,
};
use deskcam::dshow::stream::{
    black_frame, convert_frame, interval_ns, next_due, DeliverStep, FrameSource, Job, Size, Wake,
};
use deskcam::layout::{section_size, FrameRing, ReadOutcome};
use deskcam::stream_info::StreamInfo;
use deskcam::utf16::encode;

const INFO: StreamInfo = StreamInfo { width: 1280, height: 720, fps: 30 };

#[test]
fn round_trip_all_formats() {
    for vt in VideoType::offered(VideoType::new(Format::Yuy2, INFO)) {
        let mt = vt.media_type();
        assert_eq!(VideoType::parse(Some(&mt)), Some(vt));
        assert!(vt.admitted_by(Some(&mt)));
    }
}

#[test]
fn offered_puts_preferred_first_without_duplicates() {
    let list = VideoType::offered(VideoType::new(Format::I420, INFO));
    let formats: Vec<Format> = list.iter().map(|t| t.format).collect();
    assert_eq!(formats, [Format::I420, Format::Nv12, Format::Yuy2]);
}

#[test]
fn partial_types() {
    let nv12 = VideoType::new(Format::Nv12, INFO);
    let any = MediaType::default();
    assert!(nv12.admitted_by(Some(&any)));
    let yuy2_only = MediaType { majortype: MEDIATYPE_VIDEO, subtype: MEDIASUBTYPE_YUY2, ..Default::default() };
    assert!(!nv12.admitted_by(Some(&yuy2_only)));
    let other_size = VideoType { width: 640, height: 480, ..nv12 }.media_type();
    assert!(!nv12.admitted_by(Some(&other_size)));
}

#[test]
fn null_ids_are_wildcards_beside_a_header() {
    let nv12 = VideoType::new(Format::Nv12, INFO);
    let ours = nv12.media_type();
    let other = VideoType { width: 640, height: 480, ..nv12 }.media_type();
    let core = create(INFO).core;
    let cases = [
        (MEDIATYPE_VIDEO, 0, [Format::Nv12, Format::I420, Format::Yuy2].to_vec()),
        (0, MEDIASUBTYPE_YUY2, [Format::Yuy2].to_vec()),
        (0, 0, [Format::Nv12, Format::I420, Format::Yuy2].to_vec()),
    ];
    for (majortype, subtype, formats) in cases {
        let fits = MediaType { majortype, subtype, ..ours.clone() };
        for vt in VideoType::offered(nv12) {
            assert_eq!(vt.admitted_by(Some(&fits)), formats.contains(&vt.format));
        }
        let c = core.begin_connect(true, Some(&fits)).unwrap();
        let candidates: Vec<Format> = c.candidates.iter().map(|t| t.format).collect();
        assert_eq!(candidates, formats);
        assert!(matches!(c.action(), ConnectAction::Offer { .. }));

        let wrong = MediaType { majortype, subtype, ..other.clone() };
        for vt in VideoType::offered(nv12) {
            assert!(!vt.admitted_by(Some(&wrong)));
        }
        let c = core.begin_connect(true, Some(&wrong)).unwrap();
        assert_eq!(c.action(), ConnectAction::Failed { code: VFW_E_NO_ACCEPTABLE_TYPES });
    }
    // The header must be there, complete, and of a kind that can be read.
    assert!(!nv12.admitted_by(Some(&MediaType { subtype: 0, format: None, ..ours.clone() })));
    assert!(!nv12.admitted_by(Some(&MediaType { subtype: 0, formattype: 1, ..ours.clone() })));
    let mut short = ours.clone();
    short.format.as_mut().unwrap().pop();
    assert!(!nv12.admitted_by(Some(&MediaType { subtype: 0, ..short })));
    // A fully specified type admits no other format.
    assert!(!VideoType::new(Format::I420, INFO).admitted_by(Some(&ours)));
}

#[test]
fn sizes() {
    let vt = VideoType::new(Format::Yuy2, INFO);
    assert_eq!(vt.frame_bytes(), 1280 * 720 * 2);
    assert_eq!(vt.interval(), 333_333);
    assert_eq!(Format::Nv12.frame_bytes(1280, 720), 1280 * 720 * 3 / 2);
}

#[test]
fn exposes_one_capture_pin_with_three_formats() {
    let mut filter = create(INFO);
    let mut pins = filter.core.enum_pins();
    assert_eq!(pins.cursor.begin(true, 2, true), Ok(1), "exactly one pin");
    assert_eq!(pins.cursor.finish(1, 2, true, None), Answer { code: S_FALSE, fetched: Some(1) });
    assert_eq!(filter.core.find_pin(Some(&encode("Capture"))), Ok(()));

    assert_eq!(get_property(Some(PIN_PROPERTIES), PIN_CATEGORY, true, 16), Ok(CATEGORY_CAPTURE));

    let core: &mut Core = &mut filter.core;
    assert_eq!(core.capability_count(true), Ok((3, 128)));
    for (i, format) in [Format::Nv12, Format::I420, Format::Yuy2].into_iter().enumerate() {
        let (vt, caps) = core.stream_caps(i as i32, true).unwrap();
        let mt = vt.media_type();
        assert_eq!(VideoType::parse(Some(&mt)), Some(VideoType::new(format, INFO)));
        assert_eq!(caps.max_output_size, Extent { cx: 1280, cy: 720 });
    }

    // Choosing YUY2 makes it the connection type and the first enumerated type.
    let yuy2 = VideoType::new(Format::Yuy2, INFO).media_type();
    assert_eq!(core.set_format(Some(&yuy2)), Ok(FormatAction::Done));
    let current = core.get_format().media_type();
    assert_eq!(VideoType::parse(Some(&current)).map(|t| t.format), Some(Format::Yuy2));
    assert_eq!(core.enum_media_types().types[0].format, Format::Yuy2);

    let wrong_size = VideoType { width: 640, height: 480, ..VideoType::new(Format::Nv12, INFO) }.media_type();
    assert!(core.set_format(Some(&wrong_size)).is_err());
}

#[test]
fn format_block_bytes() {
    let vt = VideoType::new(Format::Nv12, INFO);
    let mut mt = MediaType::default();
    vt.write_to(&mut mt);
    assert_eq!(mt, vt.media_type());
    assert!(mt.fixed_size_samples && !mt.temporal_compression);
    assert_eq!(mt.sample_size, 1_382_400);
    let block = mt.format.unwrap();
    assert_eq!(block.len(), 88);
    let word = |i: usize| u32::from_le_bytes(block[4 * i..4 * i + 4].try_into().unwrap());
    let words: Vec<u32> = (0..22).map(word).collect();
    assert_eq!(
        words,
        [
            0, 0, 1280, 720, 0, 0, 1280, 720, 331_776_000, 0, 333_333, 0, 40, 1280, 720, 0xC_0001, 0x3231_564E,
            1_382_400, 0, 0, 0, 0
        ]
    );
    assert_eq!(&block[64..68], b"NV12");
    assert_eq!(&VideoType::new(Format::I420, INFO).header()[64..68], b"I420");
    assert_eq!(&VideoType::new(Format::Yuy2, INFO).header()[64..68], b"YUY2");
    assert_eq!(VideoType::new(Format::Yuy2, INFO).header()[62], 16);
}

#[test]
fn bit_rates_saturate() {
    let vt = VideoType { format: Format::Yuy2, width: 3840, height: 2160, fps: 240 };
    assert_eq!(vt.bit_rate(), u32::MAX);
    assert_eq!(VideoType { fps: 1, ..vt }.bit_rate(), 132_710_400);
    assert_eq!(VideoType { fps: 0, ..vt }.bit_rate(), 0);
    assert_eq!(VideoType { fps: 0, ..vt }.interval(), 10_000_000);
}

#[test]
fn parsing_media_types() {
    let good = VideoType::new(Format::I420, INFO).media_type();
    assert_eq!(VideoType::parse(None), None);
    assert_eq!(VideoType::parse(Some(&MediaType { majortype: 1, ..good.clone() })), None);
    assert_eq!(VideoType::parse(Some(&MediaType { subtype: 1, ..good.clone() })), None);
    assert_eq!(VideoType::parse(Some(&MediaType { formattype: 1, ..good.clone() })), None);
    assert_eq!(VideoType::parse(Some(&MediaType { format: None, ..good.clone() })), None);
    let block = good.format.clone().unwrap();
    let with = |at: usize, bytes: &[u8]| {
        let mut b = block.clone();
        b[at..at + bytes.len()].copy_from_slice(bytes);
        VideoType::parse(Some(&MediaType { format: Some(b), ..good.clone() }))
    };
    assert_eq!(VideoType::parse(Some(&MediaType { format: Some(block[..87].to_vec()), ..good.clone() })), None);
    assert_eq!(with(52, &0i32.to_le_bytes()), None);
    assert_eq!(with(52, &(-4i32).to_le_bytes()), None);
    assert_eq!(with(56, &(-720i32).to_le_bytes()).unwrap().height, 720);
    assert_eq!(with(56, &i32::MIN.to_le_bytes()).unwrap().height, 0x8000_0000);
    assert_eq!(with(40, &0i64.to_le_bytes()).unwrap().fps, 0);
    assert_eq!(with(40, &(-1i64).to_le_bytes()).unwrap().fps, 0);
    assert_eq!(with(40, &1i64.to_le_bytes()).unwrap().fps, 240);
    assert_eq!(with(40, &i64::MAX.to_le_bytes()).unwrap().fps, 1);
    assert_eq!(with(40, &166_667i64.to_le_bytes()).unwrap().fps, 60);
}

#[test]
fn every_rate_survives_its_interval() {
    for fps in 1..=240 {
        let vt = VideoType { fps, ..VideoType::new(Format::Nv12, INFO) };
        assert_eq!(VideoType::parse(Some(&vt.media_type())), Some(vt));
    }
}

#[test]
fn subtypes() {
    for f in formats() {
        assert_eq!(Format::from_subtype(f.subtype()), Some(f));
    }
    assert_eq!(Format::from_subtype(0), None);
}

#[test]
fn enumerating_types() {
    let core = create(INFO).core;
    let mut e = core.enum_media_types();
    assert_eq!(e.next(false, 1, true, 9, E_FAIL).0, Answer { code: E_POINTER, fetched: None });
    assert_eq!(e.next(true, 2, false, 9, E_FAIL).0, Answer { code: E_INVALIDARG, fetched: None });
    let (a, first) = e.next(true, 1, false, 9, E_FAIL);
    assert_eq!(a, Answer { code: S_OK, fetched: None });
    assert_eq!(first[0].format, Format::Nv12);
    let (a, rest) = e.next(true, 5, true, 9, E_FAIL);
    assert_eq!(a, Answer { code: S_FALSE, fetched: Some(2) });
    assert_eq!(rest.iter().map(|t| t.format).collect::<Vec<_>>(), [Format::I420, Format::Yuy2]);
    assert_eq!(e.next(true, 1, true, 9, E_FAIL).0, Answer { code: S_FALSE, fetched: Some(0) });
    e.cursor.reset();
    let (all, list) = e.next(true, 3, true, 9, E_FAIL);
    assert_eq!((all.code, list.len()), (S_OK, 3));
    assert_eq!([first, rest].concat(), list);
    e.cursor.reset();
    assert_eq!(e.next(true, 3, true, 1, E_FAIL), (Answer { code: E_FAIL, fetched: None }, vec![]));
    assert_eq!(e.cursor.pos, 1);
}

#[test]
fn skipping() {
    let mut c = Cursor::new(3);
    assert_eq!(c.skip(2), Ok(()));
    assert_eq!(c.skip(2), Err(S_FALSE));
    assert_eq!(c.pos, 3);
    assert_eq!(c.skip(0), Ok(()));
    c.reset();
    assert_eq!(c, Cursor { pos: 0, len: 3 });
}

#[test]
fn filter_states() {
    let mut core = create(INFO).core;
    assert_eq!(core.state(), FilterState::Stopped);
    // Unconnected: no thread.
    assert!(!core.needs_commit());
    assert_eq!(core.pause(Err(E_FAIL)), Ok(false));
    assert_eq!(core.state(), FilterState::Paused);
    assert_eq!(core.on_stop(), [StopAction::Wake]);
    assert_eq!(core.on_stop(), []);
    // Connected.
    let vt = core.get_format();
    core.connected(vt, 7);
    assert!(core.needs_commit());
    assert_eq!(core.pause(Err(E_FAIL)), Err(E_FAIL));
    assert_eq!(core.state(), FilterState::Stopped);
    assert_eq!(core.run(99, Ok(())), Ok(true));
    assert_eq!((core.state(), core.st.t_start, core.st.thread), (FilterState::Running, 99, true));
    assert_eq!(core.run(100, Err(E_FAIL)), Ok(false));
    assert_eq!(core.pause(Ok(())), Ok(false));
    assert_eq!(core.disconnect(), Err(VFW_E_NOT_STOPPED));
    assert_eq!(
        core.on_stop(),
        [StopAction::Wake, StopAction::Decommit, StopAction::BeginFlush, StopAction::Join, StopAction::EndFlush]
    );
    assert_eq!(core.stop(), [StopAction::Wake, StopAction::Decommit, StopAction::BeginFlush, StopAction::EndFlush]);
    assert_eq!(core.on_release(), []);
    assert_eq!(core.disconnect(), Ok(Some(7)));
    assert_eq!(core.disconnect(), Ok(None));
    // Released while running.
    core.connected(vt, 8);
    assert_eq!(core.pause(Ok(())), Ok(true));
    assert_eq!(core.on_release().len(), 5);
    assert!(!core.st.thread);
}

#[test]
fn clock_and_graph() {
    let mut core = create(INFO).core;
    assert_eq!(core.sync_source(), Err(VFW_E_NO_CLOCK));
    core.set_sync_source(Some(3));
    assert_eq!(core.sync_source(), Ok(3));
    core.join_graph(Some(5), Some("Cam".to_string()));
    let mut name = [9u16; 6];
    assert_eq!(core.filter_info(&mut name), Some(5));
    assert_eq!(name, [0x43, 0x61, 0x6D, 0, 0, 0]);
    core.join_graph(None, None);
    assert_eq!(core.filter_info(&mut name), None);
    assert_eq!(name, [0; 6]);
    assert_eq!(core.find_pin(None), Err(E_POINTER));
    assert_eq!(core.find_pin(Some(&encode("Output"))), Err(VFW_E_NOT_FOUND));
    let mut pin = [1u16; 9];
    core.pin_name(&mut pin);
    assert_eq!(pin[..8], core.pin_id()[..]);
}

#[test]
fn connecting_tries_type_after_type() {
    let core = create(INFO).core;
    assert_eq!(core.begin_connect(false, None).err(), Some(E_POINTER));
    let mut c = core.begin_connect(true, None).unwrap();
    assert!(matches!(c.action(), ConnectAction::Offer { vt } if vt.format == Format::Nv12));
    c.offered(Err(5));
    assert!(matches!(c.action(), ConnectAction::Offer { vt } if vt.format == Format::I420));
    c.offered(Ok(()));
    assert!(matches!(c.action(), ConnectAction::Negotiate { vt } if vt.format == Format::I420));
    assert!(c.negotiated(Err(6)));
    c.offered(Ok(()));
    assert!(!c.negotiated(Ok(())));
    assert!(matches!(c.action(), ConnectAction::Connected { vt } if vt.format == Format::Yuy2));

    let mut c = core.begin_connect(true, None).unwrap();
    for code in [1, 2, 3] {
        c.offered(Err(code));
    }
    assert_eq!(c.action(), ConnectAction::Failed { code: 3 });
}

#[test]
fn connecting_with_a_given_type() {
    let mut core = create(INFO).core;
    let faster = VideoType { fps: 60, ..VideoType::new(Format::Yuy2, INFO) };
    let c = core.begin_connect(true, Some(&faster.media_type())).unwrap();
    assert_eq!(c.candidates, [faster]);
    let yuy2 = MediaType { subtype: MEDIASUBTYPE_YUY2, ..Default::default() };
    let c = core.begin_connect(true, Some(&yuy2)).unwrap();
    assert_eq!(c.candidates, [VideoType::new(Format::Yuy2, INFO)]);
    let audio = MediaType { majortype: 1, ..Default::default() };
    let c = core.begin_connect(true, Some(&audio)).unwrap();
    assert_eq!(c.action(), ConnectAction::Failed { code: VFW_E_NO_ACCEPTABLE_TYPES });
    core.connected(faster, 1);
    assert_eq!(core.begin_connect(true, None).err(), Some(VFW_E_ALREADY_CONNECTED));
    assert_eq!(core.connected_to(), Ok(1));
    assert_eq!(core.connection_type(true), Ok(faster));
    assert_eq!(core.connection_type(false), Err(E_POINTER));
    assert_eq!(core.pause(Ok(())), Ok(true));
    assert_eq!(core.begin_connect(true, None).err(), Some(VFW_E_NOT_STOPPED));
    core.on_stop();
    assert_eq!(core.disconnect(), Ok(Some(1)));
    assert_eq!(core.connected_to(), Err(VFW_E_NOT_CONNECTED));
    assert_eq!(core.connection_type(true), Err(VFW_E_NOT_CONNECTED));
}

#[test]
fn accepted_types() {
    let core = create(INFO).core;
    let vt = VideoType::new(Format::I420, INFO);
    let mt = vt.media_type();
    assert_eq!(accept(INFO, Some(&mt)), Some(vt));
    assert_eq!(core.query_accept(Some(&mt)), S_OK);
    assert_eq!(core.query_accept(None), S_FALSE);
    let mut unspecified = mt.clone();
    unspecified.format.as_mut().unwrap()[40..48].fill(0);
    assert_eq!(accept(INFO, Some(&unspecified)), Some(vt));
    let small = VideoType { width: 640, ..vt }.media_type();
    assert_eq!(core.query_accept(Some(&small)), S_FALSE);
}

#[test]
fn allocators() {
    assert_eq!(
        allocator_request(None, 100),
        AllocatorProps { buffers: 3, bytes: 100, align: 1, prefix: 0 }
    );
    let asked = AllocatorProps { buffers: 8, bytes: 5, align: 16, prefix: -1 };
    let wanted = AllocatorProps { buffers: 8, bytes: 100, align: 16, prefix: 0 };
    assert_eq!(allocator_request(Some(asked), 100), wanted);

    let s = AllocatorStep::first();
    let ok = AllocatorEvent::Succeeded;
    let configured = |p: AllocatorProps| AllocatorEvent::Configured { actual: p };
    let s = s.next(ok, 100).next(configured(wanted), 100);
    assert_eq!(s, AllocatorStep::Notify { standard: false });
    assert_eq!(s.next(ok, 100), AllocatorStep::Agreed { standard: false });
    let s = s.next(AllocatorEvent::Failed { code: 9 }, 100);
    assert_eq!(s, AllocatorStep::Obtain { standard: true });
    let s = s.next(ok, 100).next(configured(AllocatorProps { bytes: 99, ..wanted }), 100);
    assert_eq!(s, AllocatorStep::Failed { code: E_FAIL });
    let none = AllocatorStep::Configure { standard: true }
        .next(configured(AllocatorProps { buffers: 0, ..wanted }), 100);
    assert_eq!(none, AllocatorStep::Failed { code: E_FAIL });
    let gone = AllocatorStep::Obtain { standard: true }.next(AllocatorEvent::Failed { code: 4 }, 100);
    assert_eq!(gone, AllocatorStep::Failed { code: 4 });
}

#[test]
fn changing_the_format() {
    let mut core = create(INFO).core;
    let yuy2 = VideoType::new(Format::Yuy2, INFO);
    let nv12 = VideoType::new(Format::Nv12, INFO);
    core.join_graph(Some(2), None);
    core.connected(nv12, 1);
    assert_eq!(core.set_format(Some(&nv12.media_type())), Ok(FormatAction::Done));
    assert_eq!(
        core.set_format(Some(&yuy2.media_type())),
        Ok(FormatAction::AskPeer { vt: yuy2, peer: 1, graph: Some(2) })
    );
    assert_eq!(core.peer_answered(yuy2, false), Err(VFW_E_INVALIDMEDIATYPE));
    assert_eq!(core.get_format(), nv12);
    assert_eq!(core.peer_answered(yuy2, true), Ok(()));
    assert_eq!((core.get_format(), core.st.type_changed), (yuy2, true));
    assert!(matches!(core.set_format(None), Ok(FormatAction::AskPeer { vt, .. }) if vt == nv12));
    assert_eq!(core.pause(Ok(())), Ok(true));
    assert_eq!(core.set_format(None), Err(VFW_E_NOT_STOPPED));
    assert_eq!(core.set_format(Some(&MediaType::default())), Err(VFW_E_INVALIDMEDIATYPE));
}

#[test]
fn capabilities() {
    let core = create(INFO).core;
    assert_eq!(core.capability_count(false), Err(E_POINTER));
    assert_eq!(core.stream_caps(0, false), Err(E_POINTER));
    assert_eq!(core.stream_caps(-1, true), Err(E_INVALIDARG));
    assert_eq!(core.stream_caps(3, true), Err(S_FALSE));
    let (vt, caps) = core.stream_caps(1, true).unwrap();
    assert_eq!(vt, VideoType::new(Format::I420, INFO));
    assert_eq!(caps.guid, FORMAT_VIDEOINFO);
    assert_eq!(caps.video_standard, 0);
    for size in [
        caps.input_size,
        caps.min_cropping_size,
        caps.max_cropping_size,
        caps.min_output_size,
        caps.max_output_size,
    ] {
        assert_eq!(size, Extent { cx: 1280, cy: 720 });
    }
    assert_eq!((caps.crop_granularity_x, caps.crop_granularity_y), (1, 1));
    assert_eq!((caps.crop_align_x, caps.crop_align_y), (1, 1));
    assert_eq!((caps.output_granularity_x, caps.output_granularity_y), (1, 1));
    assert_eq!((caps.stretch_taps_x, caps.stretch_taps_y, caps.shrink_taps_x, caps.shrink_taps_y), (0, 0, 0, 0));
    assert_eq!((caps.min_frame_interval, caps.max_frame_interval), (333_333, 10_000_000));
    assert_eq!((caps.min_bits_per_second, caps.max_bits_per_second), (11_059_200, 331_776_000));
}

#[test]
fn large_bit_rates_keep_their_bits() {
    let core = create(StreamInfo { width: 3840, height: 2160, fps: 240 }).core;
    let (_, caps) = core.stream_caps(2, true).unwrap();
    assert_eq!(caps.max_bits_per_second, -1);
}

#[test]
fn pin_category() {
    assert_eq!(check_category(None, 0), Err(E_POINTER));
    assert_eq!(check_category(Some(1), 0), Err(E_PROP_SET_UNSUPPORTED));
    assert_eq!(check_category(Some(PIN_PROPERTIES), 1), Err(E_PROP_ID_UNSUPPORTED));
    assert_eq!(get_property(Some(PIN_PROPERTIES), 0, false, 16), Err(E_POINTER));
    assert_eq!(get_property(Some(PIN_PROPERTIES), 0, true, 15), Err(E_UNEXPECTED));
    assert_eq!(get_property(None, 0, true, 16), Err(E_POINTER));
    assert_eq!(query_supported(Some(PIN_PROPERTIES), 0), Ok(1));
    assert_eq!(query_supported(Some(PIN_PROPERTIES), 7), Err(E_PROP_ID_UNSUPPORTED));
}

#[test]
fn delivery_is_paced_and_ends_with_the_stop() {
    let mut core = create(INFO).core;
    let vt = core.get_format();
    assert_eq!(core.wake(0, 5), Wake::Exit);
    core.pause(Ok(())).unwrap();
    assert_eq!(core.wake(0, 5), Wake::Wait);
    core.on_stop();
    core.connected(vt, 1);
    core.run(0, Ok(())).unwrap();

    // One simulated second.
    let (mut now, mut due) = (1_000_000_000u64, 1_000_000_000u64);
    let mut traced = false;
    while now < 2_000_000_000 {
        match core.wake(due, now) {
            Wake::WaitFor { ns } => now += ns,
            Wake::Deliver { job } => {
                assert!(job.running);
                assert!(!core.delivered(Ok(()), &mut traced));
                now += 1_000_000;
                due = next_due(due, job.vtype.fps, now);
            }
            other => panic!("{other:?}"),
        }
    }
    let frames = core.frames;
    assert!((15..=40).contains(&frames), "expected ~30 frames in 1 s at 30 fps, got {frames}");
    core.on_stop();
    assert_eq!(core.wake(due, now + 1_000_000_000), Wake::Exit);
    assert_eq!(core.frames, frames, "no delivery after the stop");
}

#[test]
fn new_type_goes_along_once() {
    let mut core = create(INFO).core;
    let vt = core.get_format();
    core.connected(vt, 1);
    core.peer_answered(VideoType { format: Format::Yuy2, ..vt }, true).unwrap();
    core.pause(Ok(())).unwrap();
    assert!(matches!(core.wake(0, 0), Wake::Deliver { job } if job.new_type && !job.running));
    assert!(matches!(core.wake(0, 0), Wake::Deliver { job } if !job.new_type));
}

#[test]
fn failures_are_reported_once() {
    let mut core = create(INFO).core;
    let mut traced = false;
    assert!(!core.delivered(Err(VFW_E_NOT_COMMITTED), &mut traced));
    assert!(!core.delivered(Err(VFW_E_WRONG_STATE), &mut traced));
    assert!(core.delivered(Err(E_FAIL), &mut traced));
    assert!(!core.delivered(Err(E_FAIL), &mut traced));
    assert!(!core.delivered(Ok(()), &mut traced));
    assert!(core.delivered(Err(E_FAIL), &mut traced));
    assert_eq!(core.frames, 1);
    assert_eq!(deskcam::dshow::filter::Filter { core }.frames_delivered(), 1);
}

#[test]
fn pacing_arithmetic() {
    assert_eq!(interval_ns(30), 33_333_333);
    assert_eq!(interval_ns(0), 1_000_000_000);
    assert_eq!(next_due(100, 10, 50), 100_000_100);
    assert_eq!(next_due(100, 10, 200_000_000), 200_000_000);
}

#[test]
fn sample_times() {
    let vtype = VideoType::new(Format::Nv12, INFO);
    let job = Job { conn: 1, vtype, new_type: false, clock: Some(2), t_start: 1000, running: true };
    assert_eq!(job.times(Some(5000)), Some((4000, 337_333)));
    assert_eq!(job.times(None), None);
    assert_eq!(Job { running: false, ..job }.times(Some(5000)), None);
    assert_eq!(Job { clock: None, ..job }.times(Some(5000)), None);
    assert_eq!(job.check_size(1_382_400), Ok(()));
    assert_eq!(job.check_size(1_382_399), Err(E_FAIL));
}

fn ring_with(value: u8, w: u32, h: u32) -> FrameRing {
    let mut r = FrameRing::from_raw(vec![0; section_size(w, h)], w, h, true);
    r.init_header();
    r.touch_writer(1000);
    r.publish(|b: &mut [u8]| {
        for (i, v) in b.iter_mut().enumerate() {
            *v = value.wrapping_add(i as u8);
        }
    });
    r
}

#[test]
fn frames_are_scaled_and_converted() {
    let src: Vec<u8> = (0..nv12_size(8, 4) as u8).collect();
    let mut scratch = Vec::new();
    let mut scaled = vec![0; nv12_size(4, 2)];
    scale_nv12_nearest(&src, 8, 4, &mut scaled, 4, 2);
    let mut out = vec![0; nv12_size(4, 2)];
    convert_frame(&src, 8, 4, Format::Nv12, 4, 2, &mut scratch, &mut out);
    assert_eq!(out, scaled);
    let mut want = vec![0; nv12_size(4, 2)];
    nv12_to_i420(&scaled, 4, 2, &mut want);
    convert_frame(&src, 8, 4, Format::I420, 4, 2, &mut scratch, &mut out);
    assert_eq!(out, want);
    let (mut want, mut out) = (vec![0; 16], vec![0; 16]);
    nv12_to_yuy2(&scaled, 4, 2, &mut want);
    convert_frame(&src, 8, 4, Format::Yuy2, 4, 2, &mut scratch, &mut out);
    assert_eq!(out, want);
    let mut same = vec![0; nv12_size(8, 4)];
    convert_frame(&src, 8, 4, Format::Nv12, 8, 4, &mut scratch, &mut same);
    assert_eq!(same, src);
}

#[test]
fn filling_samples() {
    let vt = VideoType { format: Format::Nv12, width: 8, height: 4, fps: 30 };
    let mut ring = ring_with(3, 8, 4);
    let mut source = FrameSource::default();
    let (mut scratch, mut out) = (Vec::new(), vec![0; vt.frame_bytes()]);
    source.finish(ReadOutcome::NoFrame, &vt, 1000, &mut out);
    let mut black = vec![0; vt.frame_bytes()];
    black_420(8, 4, &mut black);
    assert_eq!(out, black);
    source.section_tried(1000, Some(Size { width: 8, height: 4 }));
    assert_eq!(source.fill(&mut ring, &vt, 1001, &mut scratch, &mut out), ReadOutcome::Frame);
    assert!(out.iter().enumerate().all(|(i, &v)| v == 3 + i as u8));
    assert!(ring.reader_active(1001));
    assert_eq!(source.fill(&mut ring, &vt, 5000, &mut scratch, &mut out), ReadOutcome::WriterGone);
    assert_eq!(out, black);
    let mut yuy2 = vec![0; 64];
    black_frame(Format::Yuy2, 8, 4, &mut yuy2);
    assert_eq!(yuy2, [16u8, 128].repeat(32));
}

#[test]
fn section_is_given_up_when_the_writer_stays_gone() {
    let mut s = FrameSource::default();
    assert!(s.wants_section(0));
    assert!(s.section_tried(1000, None));
    assert!(!s.wants_section(1499));
    assert!(s.wants_section(1500));
    assert!(!s.section_tried(1500, None));
    assert!(s.section_tried(2000, Some(Size { width: 8, height: 4 })));
    s.read_done(2000, ReadOutcome::WriterGone);
    s.read_done(4000, ReadOutcome::NoFrame);
    s.read_done(4100, ReadOutcome::WriterGone);
    s.read_done(7099, ReadOutcome::WriterGone);
    assert!(s.section.is_some());
    s.read_done(7100, ReadOutcome::WriterGone);
    assert!(s.section.is_none() && s.wants_section(7100));
}

#[test]
fn delivery_steps() {
    let vt = VideoType { format: Format::Nv12, width: 8, height: 4, fps: 30 };
    let job = Job { conn: 1, vtype: vt, new_type: false, clock: None, t_start: 0, running: true };
    let plain = [
        DeliverStep::GetBuffer,
        DeliverStep::CheckSize,
        DeliverStep::Fill,
        DeliverStep::Length { bytes: 48 },
        DeliverStep::SyncPoint { on: true },
        DeliverStep::Discontinuity { on: false },
        DeliverStep::Preroll { on: false },
    ];
    let behind = |job: Job| {
        let steps = job.steps();
        assert_eq!(steps[..7], plain);
        steps[7..].to_vec()
    };
    let (ty, time, end) = (DeliverStep::MediaType { vt }, DeliverStep::Time, DeliverStep::Receive);
    assert_eq!(behind(job), [end]);
    assert_eq!(behind(Job { new_type: true, ..job }), [ty, end]);
    assert_eq!(behind(Job { clock: Some(1), ..job }), [time, end]);
    assert_eq!(behind(Job { clock: Some(1), running: false, ..job }), [end]);
    assert_eq!(behind(Job { clock: Some(1), new_type: true, ..job }), [ty, time, end]);
}

#[test]
fn connecting_a_filter_that_was_started_meanwhile() {
    let mut core = create(INFO).core;
    let vt = VideoType::new(Format::I420, INFO);
    assert!(core.begin_connect(true, None).is_ok());
    assert_eq!(core.pause(Ok(())), Ok(false));
    core.connected(vt, 1);
    assert_eq!((core.state(), core.connected_to(), core.st.thread), (FilterState::Paused, Ok(1), false));
    assert_eq!(core.run(0, Ok(())), Ok(false));
    assert_eq!(core.on_stop(), [StopAction::Wake, StopAction::Decommit, StopAction::BeginFlush, StopAction::EndFlush]);
    assert_eq!(core.pause(Ok(())), Ok(true));
}
