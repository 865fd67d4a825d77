//! Displays, capture, the worker and the notification-area icon.

use deskcam::capture::{copy_plane, fit_rect, publish_planes, setup_failed, write_planes, Capture, Extent, SetupStep};
use deskcam::config::{parse, Config, FpsSel, MonitorSel};
use deskcam::layout::{section_size, FrameRing, ReadOutcome, NO_SLOT};
use deskcam::monitor::{describe, device_number, enumerate, refresh_rate, select, MonitorInfo, Rect};
use deskcam::stream_info::StreamInfo;
use deskcam::tray::{chosen, menu, on_status, react, Choice, Reaction, WM_CLOSE, WM_DESTROY, WM_STATUS, WM_TRAY};
use deskcam::utf16::encode_z;
use deskcam::worker::{prepare, using_line, Demand, Setup, Status, Turn, Worker};

#[test]
fn letterbox() {
    assert_eq!(fit_rect(2560, 1440, 1920, 1080), (0, 0, 1920, 1080));
    assert_eq!(fit_rect(1920, 1200, 1920, 1080), (96, 0, 1728, 1080));
    assert_eq!(fit_rect(3440, 1440, 1920, 1080), (0, 138, 1920, 802));
    assert_eq!(fit_rect(1280, 1024, 1920, 1080), (284, 0, 1350, 1080));
}

#[test]
fn letterbox_edges() {
    assert_eq!(fit_rect(0, 0, 320, 180), (70, 0, 180, 180));
    assert_eq!(fit_rect(u32::MAX, 1, 1920, 1080), (0, 538, 1920, 2));
    assert_eq!(fit_rect(1, u32::MAX, 1920, 1080), (958, 0, 2, 1080));
    assert_eq!(fit_rect(u32::MAX, u32::MAX, 2, 2), (0, 0, 2, 2));
    for (sw, sh) in [(1366, 768), (1600, 900), (1080, 1920), (3000, 2000)] {
        let (x, y, w, h) = fit_rect(sw, sh, 1280, 720);
        assert!(x + w <= 1280 && y + h <= 720);
        assert!([x, y, w, h].iter().all(|v| v % 2 == 0));
    }
}

const INFO: StreamInfo = StreamInfo { width: 1920, height: 1080, fps: 30 };

fn extent(width: i32, height: i32) -> Extent {
    Extent { width, height }
}

#[test]
fn capture_setup() {
    let p = Capture::plan(INFO, 30, true, 20348);
    assert_eq!((p.y_width, p.y_height, p.uv_width, p.uv_height), (1920, 1080, 960, 540));
    assert_eq!((p.cursor, p.borderless, p.min_interval), (true, true, 333_333));
    assert_eq!(Capture::plan(INFO, 0, false, 19045).min_interval, 10_000_000);
    assert!(!Capture::plan(INFO, 30, false, 19045).borderless);
    assert_eq!(setup_failed(SetupStep::Cursor, "e").unwrap(), "cursor capture unavailable: e");
    assert_eq!(setup_failed(SetupStep::GpuPriority, "e").unwrap(), "GPU priority unavailable: e");
    assert_eq!(setup_failed(SetupStep::Border, "e").unwrap(), "borderless capture unavailable: e");
    assert_eq!(setup_failed(SetupStep::MinInterval, "e").unwrap(), "MinUpdateInterval unavailable: e");
    assert_eq!(setup_failed(SetupStep::Device, "e"), None);
    assert_eq!(setup_failed(SetupStep::Start, "e"), None);
}

#[test]
fn captured_frames() {
    let mut c = Capture::new(INFO, extent(2560, 1440));
    let p = c.tick(extent(2560, 1440), 2560, 1440);
    assert_eq!((p.copy_width, p.copy_height), (2560, 1440));
    assert!(p.new_source && p.clear && !p.recreate_pool);
    let p = c.tick(extent(2560, 1440), 2560, 1440);
    assert!(!p.new_source && !p.clear && !p.recreate_pool);
    // The display changes to a taller mode; the surface lags behind.
    let p = c.tick(extent(1920, 1200), 2560, 1100);
    assert_eq!((p.copy_width, p.copy_height), (1920, 1100));
    assert!(p.new_source && p.clear && p.recreate_pool);
    let p = c.tick(extent(0, -5), 10, 10);
    assert_eq!((p.copy_width, p.copy_height), (1, 1));
}

#[test]
fn planes_lose_their_pitch() {
    let src: Vec<u8> = (0..20).collect();
    let mut dst = [99u8; 8];
    copy_plane(&mut dst, &src, 5, 3, 2);
    assert_eq!(dst, [0, 1, 2, 5, 6, 7, 99, 99]);
    let mut dst = [99u8; 8];
    copy_plane(&mut dst, &src, 3, 3, 2);
    assert_eq!(dst, [0, 1, 2, 3, 4, 5, 99, 99]);
    let mut slot = [0u8; 12];
    write_planes(&mut slot, &src, 5, &src[10..], 7, 4, 2);
    assert_eq!(slot, [0, 1, 2, 3, 5, 6, 7, 8, 10, 11, 12, 13]);
}

#[test]
fn planes_are_published() {
    let mut ring = FrameRing::from_raw(vec![0; section_size(4, 2)], 4, 2, true);
    ring.init_header();
    ring.touch_writer(5);
    let y: Vec<u8> = (0..16).collect();
    publish_planes(&mut ring, &y, 8, &[100, 101, 102, 103], 4);
    assert_eq!(ring.newest(5), (ReadOutcome::Frame, &[0u8, 1, 2, 3, 8, 9, 10, 11, 100, 101, 102, 103][..]));
}

fn display(hmon: u64, number: u32, primary: bool) -> MonitorInfo {
    let rect = Rect { left: -1920, top: 0, right: 640, bottom: 1440 };
    MonitorInfo { hmon, number, primary, rect, refresh_hz: 144 }
}

#[test]
fn display_numbers() {
    assert_eq!(device_number(&encode_z("\\\\.\\DISPLAY12")), 12);
    assert_eq!(device_number(&encode_z("\\\\.\\DISPLAY")), 0);
    assert_eq!(device_number(&encode_z("DISPLAY1DISPLAY7")), 7);
    assert_eq!(device_number(&encode_z("42")), 42);
    assert_eq!(device_number(&encode_z("WinDisc")), 0);
    assert_eq!(device_number(&[]), 0);
    assert_eq!((refresh_rate(None), refresh_rate(Some(1)), refresh_rate(Some(59))), (60, 60, 59));
}

#[test]
fn displays_are_sorted_and_selected() {
    let found = vec![display(1, 3, false), display(2, 1, true), display(3, 3, true), display(4, 0, false)];
    let sorted = enumerate(found);
    assert_eq!(sorted.iter().map(|m| m.hmon).collect::<Vec<_>>(), [4, 2, 1, 3]);
    assert_eq!(select(&sorted, MonitorSel::Primary).unwrap().hmon, 2);
    assert_eq!(select(&sorted, MonitorSel::Display(3)).unwrap().hmon, 1);
    assert_eq!(
        select(&sorted, MonitorSel::Display(7)).unwrap_err(),
        "monitor Display(7) not found; available displays: 0, 1, 3, 3"
    );
    assert_eq!(
        select(&[], MonitorSel::Primary).unwrap_err(),
        "monitor Primary not found; available displays: "
    );
    assert_eq!(describe(&sorted[1]), "display 1 (primary): 2560x1440 at (-1920, 0), 144 Hz");
    assert_eq!(describe(&sorted[2]), "display 3: 2560x1440 at (-1920, 0), 144 Hz");
}

#[test]
fn preparation() {
    let monitors = [display(1, 1, true)];
    let cfg = Config::default();
    let s: Setup = prepare(&cfg, &monitors, 19045).unwrap();
    assert_eq!(s.info, StreamInfo { width: 1920, height: 1080, fps: 30 });
    assert_eq!(using_line(&s), format!("using {}; output 1920x1080 @ 30 fps", describe(&monitors[0])));
    let by_display = Config { fps: FpsSel::Monitor, ..cfg.clone() };
    assert_eq!(prepare(&by_display, &monitors, 19045).unwrap().info.fps, 144);
    let fast = [MonitorInfo { refresh_hz: 360, ..monitors[0] }];
    assert_eq!(prepare(&by_display, &fast, 19045).unwrap().info.fps, 240);
    assert_eq!(
        prepare(&cfg, &monitors, 18361),
        Err(Status::Error("Windows 10 1903 (build 18362) or newer is required".to_string()))
    );
    let other = parse("[camera]\nmonitor = 2\n").unwrap();
    assert_eq!(
        prepare(&other, &monitors, 22000),
        Err(Status::Error("monitor Display(2) not found; available displays: 1".to_string()))
    );
}

#[test]
fn status_texts() {
    assert_eq!(Status::Starting.text(), "DeskCam: starting");
    assert_eq!(Status::Idle.text(), "DeskCam: idle (no app using the camera)");
    assert_eq!(Status::Streaming { w: 1920, h: 1080, fps: 60 }.text(), "DeskCam: streaming 1920x1080 @ 60 fps");
    assert_eq!(Status::Error("x".to_string()).text(), "DeskCam: error: x");
}

#[test]
fn worker_rounds() {
    let mut w = Worker::new(INFO, 0);
    assert!(w.wants_section(0));
    w.section_tried(1000, false);
    assert!(!w.wants_section(1249) && w.wants_section(1250));
    assert_eq!(w.demand(1250, true), Demand::Keep);
    w.section_tried(1250, true);
    assert!(!w.wants_section(9999));
    assert_eq!(w.turn(), Turn::Sleep { ns: 250_000_000 });
    assert_eq!(w.demand(1300, false), Demand::Keep);
    assert_eq!(w.demand(1300, true), Demand::Start);
    let status = w.capture_tried(1300, 0, Err("no GPU".to_string()));
    assert_eq!(status, Status::Error("capture failed: no GPU".to_string()));
    assert_eq!(w.demand(3299, true), Demand::Keep);
    assert_eq!(w.demand(3300, true), Demand::Start);
    let status = w.capture_tried(3300, 5_000_000_000, Ok(()));
    assert_eq!(status, Status::Streaming { w: 1920, h: 1080, fps: 30 });
    assert_eq!(w.turn(), Turn::Tick);
    assert_eq!(w.ticked(5_010_000_000), 23_333_333);
    assert_eq!(w.ticked(5_033_333_333), 33_333_333);
    // Late by more than an interval: the schedule starts over.
    assert_eq!(w.ticked(6_000_000_000), 33_333_333);
    assert_eq!(w.demand(4000, true), Demand::Keep);
    assert_eq!(w.tick_failed(4000, "lost"), Status::Error("capture error: lost".to_string()));
    assert_eq!(w.turn(), Turn::Sleep { ns: 250_000_000 });
    assert_eq!(w.demand(4999, true), Demand::Keep);
    assert_eq!(w.demand(5000, true), Demand::Start);
    w.capture_tried(5000, 0, Ok(()));
    assert_eq!(w.demand(5001, false), Demand::Stop);
    assert_eq!(w.turn(), Turn::Sleep { ns: 250_000_000 });
    assert!(w.finish());
    assert!(!Worker::new(INFO, 0).finish());
}

#[test]
fn worker_serves_the_section() {
    let mut ring = FrameRing::from_raw(vec![0; section_size(4, 2)], 4, 2, true);
    ring.init_header();
    let mut w = Worker::new(INFO, 0);
    w.section_tried(0, true);
    ring.touch_reader(10_000);
    assert_eq!(w.serve(&mut ring, 10_100), Demand::Start);
    assert!(ring.writer_alive(10_100));
    w.capture_tried(10_100, 0, Ok(()));
    ring.publish(|b: &mut [u8]| b.fill(1));
    assert_eq!(w.serve(&mut ring, 11_499), Demand::Keep);
    assert_eq!(ring.newest(11_499).0, ReadOutcome::Frame);
    assert_eq!(w.serve(&mut ring, 11_500), Demand::Stop);
    assert!(Demand::Stop.drops_frame() && !Demand::Start.drops_frame() && !Demand::Keep.drops_frame());
    assert_eq!(ring.latest_slot(), NO_SLOT);
    assert_eq!(ring.newest(11_500).0, ReadOutcome::NoFrame);
}

#[test]
fn tray_messages() {
    assert_eq!(react(WM_STATUS, 0, None), Reaction::UpdateStatus);
    assert_eq!(react(WM_TRAY, 0x1_0205, None), Reaction::ShowMenu);
    assert_eq!(react(WM_TRAY, 0x7B, None), Reaction::ShowMenu);
    assert_eq!(react(WM_TRAY, 0x200, None), Reaction::Nothing);
    assert_eq!(react(WM_CLOSE, 0, None), Reaction::Destroy);
    assert_eq!(react(WM_DESTROY, 0, None), Reaction::Quit);
    assert_eq!(react(0xC123, 0, Some(0xC123)), Reaction::AddIcon);
    assert_eq!(react(0xC123, 0, Some(0xC124)), Reaction::Default);
    assert_eq!(react(0, 0, Some(0)), Reaction::Default);
    assert_eq!(react(0xC123, 0, None), Reaction::Default);
}

#[test]
fn tray_menu() {
    let items = menu(&Status::Idle);
    let texts: Vec<Option<&str>> = items.iter().map(|i| i.text.as_deref()).collect();
    assert_eq!(
        texts,
        [
            Some("DeskCam: idle (no app using the camera)"),
            None,
            Some("Open config"),
            Some("Open log"),
            Some("Restart"),
            None,
            Some("Exit")
        ]
    );
    assert!(items[0].grayed && items[1..].iter().all(|i| !i.grayed));
    let choices: Vec<Choice> = items.iter().map(|i| chosen(i.id)).collect();
    assert_eq!(
        choices,
        [
            Choice::Nothing,
            Choice::Nothing,
            Choice::OpenConfig,
            Choice::OpenLog,
            Choice::Restart,
            Choice::Nothing,
            Choice::Exit
        ]
    );
}

#[test]
fn errors_get_one_balloon() {
    let mut shown = None;
    let broken = Status::Error("a".to_string());
    let n = on_status(&broken, &mut shown);
    assert_eq!((n.tip.as_str(), n.balloon.as_deref()), ("DeskCam: error: a", Some("a")));
    assert_eq!(on_status(&broken, &mut shown).balloon, None);
    assert_eq!(on_status(&Status::Error("b".to_string()), &mut shown).balloon.as_deref(), Some("b"));
    assert_eq!(on_status(&Status::Idle, &mut shown).balloon, None);
    assert_eq!(shown, None);
    assert_eq!(on_status(&broken, &mut shown).balloon.as_deref(), Some("a"));
}
