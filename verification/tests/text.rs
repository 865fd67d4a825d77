//! Characters, UTF-16 and what Windows gives and takes as text.

use deskcam::codes::{CLSID, CLSID_STR, DSHOW_CLSID, DSHOW_CLSID_STR, E_INVALIDARG, E_POINTER, S_FALSE, S_OK};
use deskcam::codes::{CLASS_E_CLASSNOTAVAILABLE, CLASS_E_NOAGGREGATION};
use deskcam::com::{
    clsid_key, dshow_instance_key, module_file, register_inproc_server, registered_dshow_name, server_values,
    set_string, unregister_inproc_server,
};
use deskcam::dll::{create_instance, filter_registration, get_class_object, install_name, ObjGuard};
use deskcam::paths::{config_file, data_dir, join, log_path, stream_file, stream_temp_file};
use deskcam::text::{
    chars_of, equals, equals_ignore_case, find, is_white_space, parse_u32, push_decimal, push_decimal_int, string_of,
    to_lower, trim,
};
use deskcam::utf16::{copy_name, copy_wide, cut_at_zero, decode_lossy, encode, encode_z};
use deskcam::vcam;

fn all_chars() -> impl Iterator<Item = char> {
    (0..=0x10FFFFu32).filter_map(char::from_u32)
}

#[test]
fn white_space_is_unicode_white_space() {
    for c in all_chars() {
        assert_eq!(is_white_space(c), c.is_whitespace(), "{c:?}");
    }
}

#[test]
fn trimming_and_case() {
    for s in ["", " ", "  a b\t", "\u{3000}x\u{2028}", "xX\n"] {
        assert_eq!(string_of(trim(&chars_of(s))), s.trim());
    }
    for s in ["", "ABCxyz", "[`@{", "\u{c9}\u{130}Z"] {
        assert_eq!(string_of(&to_lower(&chars_of(s))), s.to_ascii_lowercase());
        assert!(equals_ignore_case(&chars_of(s), &s.to_ascii_uppercase()));
    }
    assert!(equals(&chars_of("ab"), "ab"));
    assert!(!equals(&chars_of("ab"), "aB"));
    assert!(!equals(&chars_of("ab"), "abc"));
    assert_eq!(find(&chars_of("a=b=c"), '='), 1);
    assert_eq!(find(&chars_of("abc"), '='), 3);
}

#[test]
fn numbers() {
    for s in ["", "+", "0", "007", "+12", "-1", "4294967295", "4294967296", "99999999999999999999999", "1 ", "\u{661}"] {
        assert_eq!(parse_u32(&chars_of(s)), s.parse::<u32>().ok(), "{s:?}");
    }
    for n in [0u64, 9, 10, 1234567890, u64::MAX] {
        let mut s = String::new();
        push_decimal(&mut s, n);
        assert_eq!(s, n.to_string());
    }
    for n in [0i64, -1, -10, i64::MIN, i64::MAX] {
        let mut s = String::new();
        push_decimal_int(&mut s, n);
        assert_eq!(s, n.to_string());
    }
}

#[test]
fn utf16_agrees_with_std() {
    let text: String = all_chars().step_by(97).collect();
    assert_eq!(encode(&text), text.encode_utf16().collect::<Vec<u16>>());
    assert_eq!(decode_lossy(&encode(&text)), text);
    for units in [
        vec![0xD800u16],
        vec![0xDC00],
        vec![0xD800, 0x41],
        vec![0xD800, 0xD800, 0xDC00],
        vec![0xDC00, 0xD83D, 0xDE00, 0x42],
        vec![],
    ] {
        assert_eq!(decode_lossy(&units), String::from_utf16_lossy(&units));
    }
    assert_eq!(encode_z("a\u{1F600}"), [0x61, 0xD83D, 0xDE00, 0]);
}

#[test]
fn text_fields() {
    let mut field = [7u16; 5];
    copy_name(&mut field, "ab");
    assert_eq!(field, [0x61, 0x62, 0, 0, 0]);
    copy_name(&mut field, "abcdef");
    assert_eq!(field, [0x61, 0x62, 0x63, 0x64, 0]);
    let mut field = [7u16; 5];
    copy_wide(&mut field, "ab");
    assert_eq!(field, [0x61, 0x62, 0, 7, 7]);
    copy_wide(&mut field, "abcdef");
    assert_eq!(field, [0x61, 0x62, 0x63, 0x64, 0]);
    assert_eq!(cut_at_zero(&[1, 2, 0, 3]), [1, 2]);
    assert_eq!(cut_at_zero(&[1, 2]), [1, 2]);
    let mut field = [0u16; 8];
    copy_name(&mut field, "x\u{1F600}y");
    assert_eq!(decode_lossy(cut_at_zero(&field)), "x\u{1F600}y");
}

#[test]
fn class_ids_match_their_strings() {
    let text = |id: u128| format!("{{{:?}}}", windows_core::GUID::from_u128(id));
    assert_eq!(text(CLSID), CLSID_STR);
    assert_eq!(text(DSHOW_CLSID), DSHOW_CLSID_STR);
    assert_ne!(CLSID, DSHOW_CLSID);
}

#[test]
fn registry_values() {
    let key = "Software\\Classes\\CLSID\\{X}";
    assert_eq!(clsid_key("{X}"), key);
    let values = register_inproc_server("{X}", "My camera", "C:\\a.dll");
    let seen: Vec<(&str, &str, &str)> =
        values.iter().map(|v| (v.key.as_str(), v.name.as_str(), v.value.as_str())).collect();
    let server = format!("{key}\\InprocServer32");
    assert_eq!(
        seen,
        [(key, "", "My camera"), (server.as_str(), "", "C:\\a.dll"), (server.as_str(), "ThreadingModel", "Both")]
    );
    assert_eq!(server_values("{X}", "C:\\a.dll"), values[1..]);
    assert_eq!(set_string("a\u{1F600}"), [0x61, 0, 0x3D, 0xD8, 0, 0xDE, 0, 0]);
    assert_eq!(
        dshow_instance_key(),
        "CLSID\\{860BB310-5D01-11D0-BD3B-00A0C911CE86}\\Instance\\{566D2A35-2FF9-4009-9C41-04054E6A4BD3}"
    );
}

#[test]
fn unregistering_a_missing_class_is_fine() {
    assert_eq!(unregister_inproc_server(0), Ok(()));
    assert_eq!(unregister_inproc_server(2), Ok(()));
    assert_eq!(unregister_inproc_server(5), Err(0x8007_0005));
    assert_eq!(unregister_inproc_server(0x8004_0154), Err(0x8004_0154));
    for error in [0u32, 1, 2, 5, 1170, 0xFFFF, 0x1_0005, 0x7FFF_FFFF, 0x8000_0000, u32::MAX] {
        let code = windows_core::HRESULT::from_win32(error).0 as u32;
        assert_eq!(unregister_inproc_server(error), if error == 0 || error == 2 { Ok(()) } else { Err(code) });
    }
}

#[test]
fn names_read_from_windows() {
    let mut buf = [0u16; 16];
    copy_name(&mut buf, "C:\\a.dll");
    assert_eq!(module_file(&buf, 8), "C:\\a.dll");
    assert_eq!(module_file(&buf, 0), "");
    copy_name(&mut buf, "DeskCam");
    assert_eq!(registered_dshow_name(&buf, Some(16)).as_deref(), Some("DeskCam"));
    assert_eq!(registered_dshow_name(&buf, Some(1)).as_deref(), Some(""));
    assert_eq!(registered_dshow_name(&buf, Some(0)).as_deref(), Some(""));
    assert_eq!(registered_dshow_name(&buf, None), None);
}

#[test]
fn install_names() {
    let name = |s: &str| install_name(Some(s.to_string()));
    assert_eq!(install_name(None), Ok("DeskCam".to_string()));
    assert_eq!(name(""), Ok("DeskCam".to_string()));
    assert_eq!(name(" \" \" "), Ok("DeskCam".to_string()));
    assert_eq!(name("  \" My cam \"  "), Ok("My cam".to_string()));
    assert_eq!(name("\"\"a\"b\"\""), Ok("a\"b".to_string()));
    assert_eq!(name(&"x".repeat(64)), Ok("x".repeat(64)));
    assert_eq!(name(&"x".repeat(65)), Err(E_INVALIDARG));
}

#[test]
fn class_objects() {
    assert_eq!(get_class_object(Some(CLSID), true, true, CLSID), Ok(()));
    assert_eq!(get_class_object(Some(DSHOW_CLSID), true, true, CLSID), Err(CLASS_E_CLASSNOTAVAILABLE));
    assert_eq!(get_class_object(None, true, true, CLSID), Err(E_POINTER));
    assert_eq!(get_class_object(Some(CLSID), false, true, CLSID), Err(E_POINTER));
    assert_eq!(get_class_object(Some(CLSID), true, false, CLSID), Err(E_POINTER));
    assert_eq!(create_instance(true, false), Ok(()));
    assert_eq!(create_instance(false, true), Err(E_POINTER));
    assert_eq!(create_instance(true, true), Err(CLASS_E_NOAGGREGATION));
}

#[test]
fn dll_unloads_when_nothing_is_alive() {
    let mut objects = ObjGuard::new();
    assert_eq!(objects.can_unload(), S_OK);
    objects.acquire();
    objects.lock_server(true);
    assert_eq!(objects.can_unload(), S_FALSE);
    objects.release();
    assert_eq!(objects.can_unload(), S_FALSE);
    objects.lock_server(false);
    assert_eq!(objects.can_unload(), S_OK);
}

#[test]
fn files() {
    assert_eq!(data_dir(Some("D:\\Data")), "D:\\Data\\DeskCam");
    assert_eq!(data_dir(Some("")), "C:\\ProgramData\\DeskCam");
    assert_eq!(data_dir(None), "C:\\ProgramData\\DeskCam");
    assert_eq!(stream_file(None), "C:\\ProgramData\\DeskCam\\stream.bin");
    assert_eq!(stream_temp_file(None), "C:\\ProgramData\\DeskCam\\stream.bin.tmp");
    assert_eq!(config_file(None), "C:\\ProgramData\\DeskCam\\config.ini");
    assert_eq!(join("C:\\", "a"), "C:\\a");
    assert_eq!(join("C:", "a"), "C:a");
    assert_eq!(join("x/", "a"), "x/a");
    assert_eq!(join("", "a"), "a");
    assert_eq!(log_path(Some("L"), Some("E")), "L\\DeskCam\\deskcam.log");
    assert_eq!(log_path(None, Some("E")), "E\\DeskCam\\deskcam.log");
    assert_eq!(log_path(None, None), ".\\DeskCam\\deskcam.log");
}

#[test]
fn virtual_camera_messages() {
    assert_eq!(vcam::create(Some(Ok(()))), Ok(()));
    assert_eq!(
        vcam::create(Some(Err(0x8007_0005))).unwrap_err(),
        "Virtual camera failed to start (0x80070005). Is DeskCam installed? Run scripts\\install.ps1 as administrator."
    );
    assert_eq!(
        vcam::create(Some(Err(0xC00D_36BA))).unwrap_err(),
        "Virtual camera failed to start (0xC00D36BA). Is DeskCam installed? Run scripts\\install.ps1 as administrator."
    );
    assert_eq!(
        vcam::create(None).unwrap_err(),
        "This Windows version has no MFCreateVirtualCamera (Windows 11 only). Use backend = auto or dshow."
    );
}

#[test]
fn filter_is_registered_as_a_camera_with_one_pin() {
    let r = filter_registration();
    assert_eq!(r.class, 0x566d2a35_2ff9_4009_9c41_04054e6a4bd3);
    assert_eq!(r.category, 0x860bb310_5d01_11d0_bd3b_00a0c911ce86);
    assert_eq!((r.version, r.merit), (1, 0x20_0000));
    assert_eq!((r.pin_rendered, r.pin_output, r.pin_zero, r.pin_many), (false, true, false, false));
    assert_eq!((r.connects_to_filter, r.major_type), (0, 0x73646976_0000_0010_8000_00aa00389b71));
    assert_eq!(r.minor_type, 0x3231564e_0000_0010_8000_00aa00389b71);
}
