//! The configuration file.

use deskcam::backend::{registration_note, resolve, Backend, Kind};
use deskcam::config::{
    file_error, load, parse, BackendSel, Config, FileFailure, FileStep, FpsSel, MonitorSel, DEFAULT_TEXT,
};
use deskcam::layout::Namespace;
use deskcam::os::{build, can_capture, can_hide_border, has_mf_virtual_camera};

#[test]
fn default_text_parses_to_defaults() {
    assert_eq!(parse(DEFAULT_TEXT).unwrap(), Config::default());
}

#[test]
fn fps_monitor_and_display_number() {
    let cfg = parse("[camera]\nfps = monitor\nmonitor = 2\n").unwrap();
    assert_eq!(cfg.fps, FpsSel::Monitor);
    assert_eq!(cfg.monitor, MonitorSel::Display(2));
}

#[test]
fn odd_width_rejected_with_line() {
    let err = parse("[camera]\n; c\nwidth = 1921\n").unwrap_err();
    assert!(err.contains("line 3") && err.contains("width"), "{err}");
}

#[test]
fn unknown_key_rejected_with_line() {
    let err = parse("[camera]\nfsp = 30\n").unwrap_err();
    assert!(err.contains("line 2") && err.contains("fsp"), "{err}");
}

#[test]
fn documented_example_parses() {
    let text = "[camera]\n\
        monitor = primary   ; \"primary\" or a display number (see \"Open log\" for the list)\n\
        fps = 30            ; 1-240, or \"monitor\" to match the display's refresh rate\n\
        width = 1920        ; output size; the desktop is scaled to fit (black bars if needed)\n\
        height = 1080       ; even numbers, 320x180 up to 3840x2160\n\
        cursor = true       ; show the mouse cursor\n\
        name = DeskCam      ; camera name shown in apps\n";
    assert_eq!(parse(text).unwrap(), Config::default());
}

#[test]
fn default_settings() {
    let cfg = Config::default();
    assert_eq!(cfg.monitor, MonitorSel::Primary);
    assert_eq!(cfg.fps, FpsSel::Fixed(30));
    assert_eq!((cfg.width, cfg.height), (1920, 1080));
    assert!(cfg.cursor);
    assert_eq!(cfg.name, "DeskCam");
    assert_eq!(cfg.backend, BackendSel::Auto);
    assert_eq!(parse("").unwrap(), cfg);
    assert_eq!(parse("\n; nothing\n# here\n").unwrap(), cfg);
}

#[test]
fn all_keys_in_any_case() {
    let text = "  [ CAMERA ]  \r\nMonitor=PRIMARY\r\nFPS = 60\r\nWIDTH=+1280\r\nheight = 720\r\n\
        cursor = No\r\nName =  My = Cam \r\nBACKEND = DShow";
    let cfg = parse(text).unwrap();
    assert_eq!(cfg.monitor, MonitorSel::Primary);
    assert_eq!(cfg.fps, FpsSel::Fixed(60));
    assert_eq!((cfg.width, cfg.height), (1280, 720));
    assert!(!cfg.cursor);
    assert_eq!(cfg.name, "My = Cam");
    assert_eq!(cfg.backend, BackendSel::DirectShow);
    assert_eq!(parse("[camera]\nbackend=mf").unwrap().backend, BackendSel::MediaFoundation);
    assert_eq!(parse("[camera]\nbackend=auto").unwrap().backend, BackendSel::Auto);
    for (word, want) in [("true", true), ("1", true), ("yes", true), ("false", false), ("0", false), ("no", false)] {
        assert_eq!(parse(&format!("[camera]\ncursor={word}")).unwrap().cursor, want);
    }
}

#[test]
fn blank_lines_and_comments_go_anywhere() {
    let lines = ["[camera]", "fps = 60", "width = 1280", "name = A"];
    let plain = parse(&lines.join("\n")).unwrap();
    for extra in ["", "   ", "\t\r", "; c", "  # c = d", "\t;[video]"] {
        for at in 0..=lines.len() {
            let mut more = lines.to_vec();
            more.insert(at, extra);
            more.insert(at, extra);
            assert_eq!(parse(&more.join("\n")).unwrap(), plain);
            assert_eq!(parse(&(more.join("\r\n") + "\r\n")).unwrap(), plain);
            more.push("odd");
            assert_eq!(parse(&more.join("\n")).unwrap_err(), "config.ini line 7: expected 'key = value'");
        }
        assert_eq!(parse(&[extra; 3].join("\n")).unwrap(), Config::default());
    }
}

#[test]
fn comments_behind_values() {
    assert_eq!(parse("[camera]\nname = A;B\n").unwrap().name, "A;B");
    assert_eq!(parse("[camera]\nname = A ;B\n").unwrap().name, "A");
    assert_eq!(parse("[camera]\nname=;B\n").unwrap().name, ";B");
    assert_eq!(
        parse("[camera]\nname = ; nothing\n").unwrap_err(),
        "config.ini line 2: name must be 1-64 characters"
    );
}

#[test]
fn messages() {
    let err = |text: &str| parse(text).unwrap_err();
    assert_eq!(err("[video]"), "config.ini line 1: unknown section '[video]'");
    assert_eq!(err("[]"), "config.ini line 1: unknown section '[]'");
    assert_eq!(err("["), "config.ini line 1: expected 'key = value'");
    assert_eq!(err("\n\nfps"), "config.ini line 3: expected 'key = value'");
    assert_eq!(err("FPS = 30"), "config.ini line 1: key 'fps' must be inside [camera]");
    assert_eq!(err("[camera]\nFSP = 30"), "config.ini line 2: unknown key 'fsp'");
    assert_eq!(
        err("[camera]\nmonitor = 0"),
        "config.ini line 2: monitor must be 'primary' or a display number, got '0'"
    );
    assert_eq!(err("[camera]\nfps = 241"), "config.ini line 2: fps must be 1-240 or 'monitor', got '241'");
    assert_eq!(err("[camera]\nfps = 0"), "config.ini line 2: fps must be 1-240 or 'monitor', got '0'");
    assert_eq!(
        err("[camera]\nwidth = 1921"),
        "config.ini line 2: width must be an even number from 320 to 3840, got '1921'"
    );
    assert_eq!(
        err("[camera]\nheight = 4294967296"),
        "config.ini line 2: height must be an even number from 180 to 2160, got '4294967296'"
    );
    assert_eq!(err("[camera]\ncursor = on"), "config.ini line 2: cursor must be true or false, got 'on'");
    assert_eq!(err("[camera]\nname ="), "config.ini line 2: name must be 1-64 characters");
    assert_eq!(
        err(&format!("[camera]\nname = {}", "x".repeat(65))),
        "config.ini line 2: name must be 1-64 characters"
    );
    assert_eq!(err("[camera]\nbackend = gdi"), "config.ini line 2: backend must be auto, mf or dshow, got 'gdi'");
}

#[test]
fn names_are_counted_in_characters() {
    let name = "\u{e9}".repeat(64);
    assert_eq!(parse(&format!("[camera]\nname = {name}")).unwrap().name, name);
}

#[test]
fn lines_are_trimmed_of_all_white_space() {
    let cfg = parse("\u{3000}[camera]\u{a0}\n\u{2003}fps\u{2028}=\u{85}25\u{205f}").unwrap();
    assert_eq!(cfg.fps, FpsSel::Fixed(25));
}

#[test]
fn comment_lines_only_count() {
    let a = parse("[camera]\n; c\nfps = x").unwrap_err();
    let b = parse("[camera]\nfps = x").unwrap_err();
    assert_eq!(a.replace("line 3", "line 2"), b);
    assert_eq!(parse("; a\n[camera]\n# b\nfps = 7\n").unwrap(), parse("[camera]\nfps = 7").unwrap());
}

#[test]
fn loading() {
    assert_eq!(load(Ok("[camera]\nfps = 7".to_string())).unwrap().fps, FpsSel::Fixed(7));
    assert_eq!(load(Ok("x".to_string())).unwrap_err(), "config.ini line 1: expected 'key = value'");
    let failure = |step| FileFailure { step, path: "C:\\x".to_string(), error: "denied".to_string() };
    assert_eq!(load(Err(failure(FileStep::Read))).unwrap_err(), "cannot read C:\\x: denied");
    assert_eq!(load(Err(failure(FileStep::Write))).unwrap_err(), "cannot write C:\\x: denied");
    assert_eq!(file_error(FileStep::Create, "a", "b"), "cannot create a: b");
}

#[test]
fn backends() {
    assert_eq!(resolve(BackendSel::Auto, 22000), Kind::MediaFoundation);
    assert_eq!(resolve(BackendSel::Auto, 21999), Kind::DirectShow);
    assert_eq!(resolve(BackendSel::DirectShow, 22631), Kind::DirectShow);
    assert_eq!(resolve(BackendSel::MediaFoundation, 19045), Kind::MediaFoundation);
    assert_eq!(Kind::MediaFoundation.text(), "Media Foundation virtual camera");
    assert_eq!(Kind::DirectShow.text(), "DirectShow capture filter");
    let mf = Backend::start(Kind::MediaFoundation, Ok(()), false).unwrap();
    assert_eq!((mf.kind(), mf.open_section()), (Kind::MediaFoundation, Namespace::Global));
    assert_eq!(Backend::start(Kind::MediaFoundation, Err("e".to_string()), true).unwrap_err(), "e");
    let ds = Backend::start(Kind::DirectShow, Err("e".to_string()), true).unwrap();
    assert_eq!((ds.kind(), ds.open_section()), (Kind::DirectShow, Namespace::Local));
    assert_eq!(
        Backend::start(Kind::DirectShow, Ok(()), false).unwrap_err(),
        "cannot create the shared frame section"
    );
}

#[test]
fn registration_notes() {
    let name = "DeskCam".to_string();
    let other = "Cam".to_string();
    assert_eq!(registration_note(Some(&name), &name), None);
    assert_eq!(
        registration_note(Some(&other), &name).unwrap(),
        "note: the camera is registered as 'Cam'; re-run install.ps1 to apply name = DeskCam"
    );
    assert_eq!(
        registration_note(None, &name).unwrap(),
        "warning: the DirectShow camera is not registered; run scripts\\install.ps1 as administrator"
    );
}

#[test]
fn windows_versions() {
    assert_eq!(build(0, 19045), 19045);
    assert_eq!(build(-1, 19045), 0);
    assert!(has_mf_virtual_camera(22000) && !has_mf_virtual_camera(21999));
    assert!(can_capture(18362) && !can_capture(18361));
    assert!(can_hide_border(20348) && !can_hide_border(20347));
}
