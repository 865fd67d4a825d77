//! Windows version checks that decide which camera backend can work.

use vstd::prelude::*;

verus! {

/// First Windows 11 build; `MFCreateVirtualCamera` exists from here on.
pub const WIN11_BUILD: u32 = 22000;

/// Windows 10 1903: first build that can capture a monitor.
pub const MIN_BUILD: u32 = 18362;

/// First build that can capture without a border.
pub const BORDERLESS_BUILD: u32 = 20348;

/// The build number where the call succeeded.
pub open spec fn build_of(status: i32, number: u32) -> u32 {
    if status == 0 {
        number
    } else {
        0
    }
}

/// The running OS build number, from what `RtlGetVersion` returned; 0 when that failed.
pub fn build(status: i32, number: u32) -> (n: u32)
    ensures
        n == build_of(status, number),
{
    match status {
        0 => number,
        _ => 0,
    }
}

/// Whether the Media Foundation virtual camera API (Windows 11) is available.
pub fn has_mf_virtual_camera(build: u32) -> (r: bool)
    ensures
        r == (build >= WIN11_BUILD),
{
    build >= WIN11_BUILD
}

/// Whether a monitor can be captured at all.
pub fn can_capture(build: u32) -> (r: bool)
    ensures
        r == (build >= MIN_BUILD),
{
    build >= MIN_BUILD
}

/// Whether a monitor can be captured without a border.
pub fn can_hide_border(build: u32) -> (r: bool)
    ensures
        r == (build >= BORDERLESS_BUILD),
{
    build >= BORDERLESS_BUILD
}

/// Every build number is taken as it is, and none after a failure.
pub proof fn law_build(status: i32, number: u32)
    ensures
        build_of(0, number) == number,
        status != 0 ==> build_of(status, number) == 0,
{
}

}
