//! What registration of in-process COM servers reads from and writes to the registry, and the
//! lookup the app uses to report what the Windows 10 camera is registered as.

use vstd::prelude::*;
use crate::codes::{hresult_from_win32, Code, DSHOW_CLSID_STR, ERROR_FILE_NOT_FOUND};
use crate::text::push_text;
use crate::utf16::{decode_lossy, encode_z};

verus! {

/// `CLSID_VideoInputDeviceCategory`, the DirectShow category apps enumerate for cameras.
pub const VIDEO_INPUT_CATEGORY: &'static str = "{860BB310-5D01-11D0-BD3B-00A0C911CE86}";

/// The path of the module whose file name Windows wrote into `buf`, `len` units long.
pub fn module_file(buf: &[u16], len: usize) -> (path: String)
    requires
        len <= buf@.len(),
    ensures
        path@ == crate::utf16::text_of(buf@.take(len as int)),
{
    assert(buf@.subrange(0, len as int) =~= buf@.take(len as int));
    decode_lossy(vstd::slice::slice_subrange(buf, 0, len))
}

/// The registry key of a class, below `HKEY_LOCAL_MACHINE`.
pub open spec fn class_key(clsid: Seq<char>) -> Seq<char> {
    "Software\\Classes\\CLSID\\"@ + clsid
}

/// The registry key of a class, below `HKEY_LOCAL_MACHINE`.
pub fn clsid_key(clsid: &str) -> (key: String)
    ensures
        key@ == class_key(clsid@),
{
    let mut key = String::new();
    push_text(&mut key, "Software\\Classes\\CLSID\\");
    push_text(&mut key, clsid);
    assert(key@ =~= class_key(clsid@));
    key
}

/// A string value to write into the registry.
#[derive(Clone, PartialEq, Eq, Debug)]
pub struct RegistryValue {
    /// The key, below `HKEY_LOCAL_MACHINE`.
    pub key: String,
    /// The value's name; empty for the default value.
    pub name: String,
    pub value: String,
}

impl RegistryValue {
    pub open spec fn says(self, key: Seq<char>, name: Seq<char>, value: Seq<char>) -> bool {
        self.key@ == key && self.name@ == name && self.value@ == value
    }
}

/// The key that names the DLL of a class.
pub open spec fn server_key(clsid: Seq<char>) -> Seq<char> {
    class_key(clsid) + "\\InprocServer32"@
}

fn registry_value(key: String, name: &str, value: &str) -> (v: RegistryValue)
    ensures
        v.says(key@, name@, value@),
{
    let mut n = String::new();
    push_text(&mut n, name);
    let mut s = String::new();
    push_text(&mut s, value);
    assert(n@ =~= name@ && s@ =~= value@);
    RegistryValue { key, name: n, value: s }
}

/// The values that name the DLL of a class: its path and `ThreadingModel = Both`.
pub fn server_values(clsid: &str, path: &str) -> (list: Vec<RegistryValue>)
    ensures
        list@.len() == 2,
        list@[0].says(server_key(clsid@), Seq::empty(), path@),
        list@[1].says(server_key(clsid@), "ThreadingModel"@, "Both"@),
{
    let mut key = clsid_key(clsid);
    push_text(&mut key, "\\InprocServer32");
    assert(key@ =~= server_key(clsid@));
    let mut list: Vec<RegistryValue> = Vec::new();
    proof {
        reveal_strlit("");
        assert(""@ =~= Seq::<char>::empty());
    }
    list.push(registry_value(key.clone(), "", path));
    list.push(registry_value(key, "ThreadingModel", "Both"));
    list
}

/// The values that register a class, in order: its description, then its DLL.
pub fn register_inproc_server(clsid: &str, description: &str, path: &str) -> (list: Vec<
    RegistryValue,
>)
    ensures
        list@.len() == 3,
        list@[0].says(class_key(clsid@), Seq::empty(), description@),
        list@[1].says(server_key(clsid@), Seq::empty(), path@),
        list@[2].says(server_key(clsid@), "ThreadingModel"@, "Both"@),
{
    proof {
        reveal_strlit("");
        assert(""@ =~= Seq::<char>::empty());
    }
    let mut list = server_values(clsid, path);
    list.insert(0, registry_value(clsid_key(clsid), "", description));
    list
}

/// The bytes of a registry string: UTF-16, low byte first, with its closing zero.
pub open spec fn string_bytes(s: Seq<char>) -> Seq<u8> {
    let u = crate::utf16::units(s).push(0);
    Seq::new(
        (2 * u.len()) as nat,
        |i: int|
            if i % 2 == 0 {
                (u[i / 2] % 256) as u8
            } else {
                (u[i / 2] / 256) as u8
            },
    )
}

/// The bytes to store for a registry string.
pub fn set_string(value: &str) -> (bytes: Vec<u8>)
    ensures
        bytes@ == string_bytes(value@),
{
    let wide = encode_z(value);
    let mut bytes: Vec<u8> = Vec::new();
    let mut i: usize = 0;
    while i < wide.len()
        invariant
            i <= wide@.len(),
            wide@ == crate::utf16::units(value@).push(0),
            bytes@.len() == 2 * i,
            forall|k: int| 0 <= k < 2 * i ==> #[trigger] bytes@[k] == string_bytes(value@)[k],
        decreases wide@.len() - i,
    {
        let u = wide[i];
        bytes.push((u % 256) as u8);
        bytes.push((u / 256) as u8);
        i += 1;
    }
    assert(bytes@ =~= string_bytes(value@));
    bytes
}

/// What deleting a class key means: a key that was not there is as good as deleted.
pub fn unregister_inproc_server(status: u32) -> (r: Result<(), Code>)
    ensures
        r == (if status == 0 || status == ERROR_FILE_NOT_FOUND {
            Ok::<(), Code>(())
        } else {
            Err(crate::codes::win32_code(status))
        }),
{
    if status == 0 || status == ERROR_FILE_NOT_FOUND {
        Ok(())
    } else {
        Err(hresult_from_win32(status))
    }
}

/// The registry key of the registered DirectShow camera, below `HKEY_CLASSES_ROOT`.
pub fn dshow_instance_key() -> (key: String)
    ensures
        key@ == "CLSID\\"@ + VIDEO_INPUT_CATEGORY@ + "\\Instance\\"@ + DSHOW_CLSID_STR@,
{
    let mut key = String::new();
    push_text(&mut key, "CLSID\\");
    push_text(&mut key, VIDEO_INPUT_CATEGORY);
    push_text(&mut key, "\\Instance\\");
    push_text(&mut key, DSHOW_CLSID_STR);
    assert(key@ =~= "CLSID\\"@ + VIDEO_INPUT_CATEGORY@ + "\\Instance\\"@ + DSHOW_CLSID_STR@);
    key
}

/// How many units of text a registry string of `size` bytes holds: all but its closing zero.
pub open spec fn string_units(size: int) -> int {
    if size / 2 >= 1 {
        size / 2 - 1
    } else {
        0
    }
}

/// Friendly name of the registered DirectShow camera: what the registry wrote into `buf`, `size`
/// bytes long; `None` when the filter is not registered.
pub fn registered_dshow_name(buf: &[u16], size: Option<u32>) -> (name: Option<String>)
    requires
        size matches Some(n) ==> string_units(n as int) <= buf@.len(),
    ensures
        match (name, size) {
            (Some(s), Some(n)) => s@ == crate::utf16::text_of(buf@.take(string_units(n as int))),
            (None, None) => true,
            _ => false,
        },
{
    match size {
        None => None,
        Some(n) => {
            let len: usize = (n as usize / 2).saturating_sub(1);
            assert(buf@.subrange(0, len as int) =~= buf@.take(len as int));
            Some(decode_lossy(vstd::slice::slice_subrange(buf, 0, len)))
        },
    }
}

/// A registry string is stored as UTF-16 units, low byte first, and a zero behind them; the length
/// of the text is found again from the number of bytes.
pub proof fn law_string_is_stored_as_units(s: Seq<char>, i: int)
    requires
        0 <= i < crate::utf16::units(s).len(),
    ensures
        ({
            let (b, u) = (string_bytes(s), crate::utf16::units(s));
            &&& b.len() == 2 * u.len() + 2
            &&& b[2 * i] + 256 * b[2 * i + 1] == u[i]
            &&& b[b.len() - 2] == 0 && b[b.len() - 1] == 0
            &&& string_units(b.len() as int) == u.len()
        }),
{
    let u = crate::utf16::units(s).push(0);
    assert(u[i] == crate::utf16::units(s)[i]);
    assert(u[u.len() - 1] == 0);
    let b = string_bytes(s);
    assert(b[2 * i] == u[i] % 256 && b[2 * i + 1] == u[i] / 256);
    assert(b[2 * (u.len() - 1)] == 0 && b[2 * (u.len() - 1) + 1] == 0);
}

/// Different classes have different keys, and the key of a class's DLL lies below the class's own.
pub proof fn law_keys_tell_the_class(a: Seq<char>, b: Seq<char>)
    ensures
        class_key(a) == class_key(b) ==> a == b,
        server_key(a) == server_key(b) ==> a == b,
        server_key(a).len() > class_key(a).len(),
        server_key(a).take(class_key(a).len() as int) == class_key(a),
{
    let (p, q) = ("Software\\Classes\\CLSID\\"@, "\\InprocServer32"@);
    reveal_strlit("\\InprocServer32");
    assert(server_key(a).take(class_key(a).len() as int) =~= class_key(a));
    assert(server_key(b).take(class_key(b).len() as int) =~= class_key(b));
    if server_key(a) == server_key(b) {
        assert(class_key(a).len() + q.len() == class_key(b).len() + q.len());
    }
    if class_key(a) == class_key(b) {
        crate::text::law_same_rest(p, a, b);
    }
}

}
