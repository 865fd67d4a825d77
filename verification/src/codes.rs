//! COM result codes and class ids, as the numbers Windows gives them.

use vstd::prelude::*;

verus! {

/// The bits of an `HRESULT`.
pub type Code = u32;

/// The 128 bits of a `GUID`.
pub type Guid = u128;

pub const S_OK: Code = 0;

pub const S_FALSE: Code = 1;

pub const E_POINTER: Code = 0x8000_4003;

pub const E_FAIL: Code = 0x8000_4005;

pub const E_UNEXPECTED: Code = 0x8000_FFFF;

pub const E_INVALIDARG: Code = 0x8007_0057;

pub const E_PROP_ID_UNSUPPORTED: Code = 0x8007_0490;

pub const E_PROP_SET_UNSUPPORTED: Code = 0x8007_0492;

pub const CLASS_E_NOAGGREGATION: Code = 0x8004_0110;

pub const CLASS_E_CLASSNOTAVAILABLE: Code = 0x8004_0111;

pub const VFW_E_INVALIDMEDIATYPE: Code = 0x8004_0200;

pub const VFW_E_ALREADY_CONNECTED: Code = 0x8004_0204;

pub const VFW_E_NO_ACCEPTABLE_TYPES: Code = 0x8004_0207;

pub const VFW_E_NOT_CONNECTED: Code = 0x8004_0209;

pub const VFW_E_NOT_COMMITTED: Code = 0x8004_0211;

pub const VFW_E_NO_CLOCK: Code = 0x8004_0213;

pub const VFW_E_NOT_FOUND: Code = 0x8004_0216;

pub const VFW_E_NOT_STOPPED: Code = 0x8004_0224;

pub const VFW_E_WRONG_STATE: Code = 0x8004_0227;

pub const MF_E_INVALIDMEDIATYPE: Code = 0xC00D_36B4;

pub const MF_E_INVALID_STATE_TRANSITION: Code = 0xC00D_3E82;

pub const MF_E_SHUTDOWN: Code = 0xC00D_3E85;

pub const MF_E_MEDIA_SOURCE_WRONGSTATE: Code = 0xC00D_3E9B;

/// The Win32 error for a property set that does not exist.
pub const ERROR_SET_NOT_FOUND: u32 = 1170;

/// The Win32 error for a missing file or registry key.
pub const ERROR_FILE_NOT_FOUND: u32 = 2;

/// COM class id of the media source. Never change once installed.
pub const CLSID: Guid = 0xbbb3f03b_377b_4a7d_a4ce_9aee0b5a6441;

/// String form of [`CLSID`] as passed to `MFCreateVirtualCamera`.
pub const CLSID_STR: &'static str = "{BBB3F03B-377B-4A7D-A4CE-9AEE0B5A6441}";

/// COM class id of the DirectShow capture filter (`deskcam_dshow.dll`, Windows 10 backend).
/// Never change once installed.
pub const DSHOW_CLSID: Guid = 0x566d2a35_2ff9_4009_9c41_04054e6a4bd3;

/// String form of [`DSHOW_CLSID`].
pub const DSHOW_CLSID_STR: &'static str = "{566D2A35-2FF9-4009-9C41-04054E6A4BD3}";

/// What `windows_core::GUID::from_u128` holds in `data1`: the highest 32 of the 128 bits.
#[verifier::external_body]
pub(crate) fn guid_data1(guid: Guid) -> (data1: u32)
    ensures
        data1 == guid as int / 0x1_0000_0000_0000_0000_0000_0000,
{
    windows_core::GUID::from_u128(guid).data1
}

/// The `HRESULT` of a Win32 error, as `windows_core::HRESULT::from_win32` computes it: zero and
/// numbers with the top bit set stay as they are, others become the failure code of facility 7
/// with their low 16 bits.
#[verifier::external_body]
pub(crate) fn hresult_from_win32(error: u32) -> (code: Code)
    ensures
        code == win32_code(error),
{
    windows_core::HRESULT::from_win32(error).0 as u32
}

/// The `HRESULT` of a Win32 error.
pub open spec fn win32_code(error: u32) -> Code {
    if error == 0 || error >= 0x8000_0000 {
        error
    } else {
        (0x8007_0000 + error % 0x1_0000) as u32
    }
}

}
