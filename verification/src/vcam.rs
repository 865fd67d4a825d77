//! What starting the virtual camera of Windows 11 reports when it fails.

use vstd::prelude::*;
use crate::codes::Code;
use crate::text::push_text;

verus! {

/// The character of a hexadecimal digit.
pub open spec fn hex_char(d: int) -> char {
    if d < 10 {
        ('0' as int + d) as char
    } else {
        ('A' as int + d - 10) as char
    }
}

/// The lowest `n` hexadecimal digits of a number.
pub open spec fn hex(v: int, n: nat) -> Seq<char>
    decreases n,
{
    if n == 0 {
        Seq::empty()
    } else {
        hex(v / 16, (n - 1) as nat).push(hex_char(v % 16))
    }
}

fn push_hex(out: &mut String, v: u32, n: u32)
    ensures
        final(out)@ == old(out)@ + hex(v as int, n as nat),
    decreases n,
{
    if n > 0 {
        push_hex(out, v / 16, n - 1);
        let d: u8 = (v % 16) as u8;
        if d < 10 {
            out.push((48 + d) as char);
        } else {
            out.push((55 + d) as char);
        }
    }
    assert(out@ =~= old(out)@ + hex(v as int, n as nat));
}

/// The message when Windows has no virtual cameras.
pub fn unsupported_message() -> (m: String)
    ensures
        m@
            == "This Windows version has no MFCreateVirtualCamera (Windows 11 only). Use backend = auto or dshow."@,
{
    let mut m = String::new();
    push_text(
        &mut m,
        "This Windows version has no MFCreateVirtualCamera (Windows 11 only). Use backend = auto or dshow.",
    );
    assert(m@
        =~= "This Windows version has no MFCreateVirtualCamera (Windows 11 only). Use backend = auto or dshow."@);
    m
}

/// The message when the camera could not be started.
pub open spec fn failure_text(code: Code) -> Seq<char> {
    "Virtual camera failed to start (0x"@ + hex(code as int, 8)
        + "). Is DeskCam installed? Run scripts\\install.ps1 as administrator."@
}

/// The message when the camera could not be started.
pub fn failure_message(code: Code) -> (m: String)
    ensures
        m@ == failure_text(code),
{
    let mut m = String::new();
    push_text(&mut m, "Virtual camera failed to start (0x");
    push_hex(&mut m, code, 8);
    push_text(&mut m, "). Is DeskCam installed? Run scripts\\install.ps1 as administrator.");
    assert(m@ =~= failure_text(code));
    m
}

/// What came of creating the camera: `created` is `None` where the function is missing.
pub fn create(created: Option<Result<(), Code>>) -> (r: Result<(), String>)
    ensures
        match (r, created) {
            (Ok(()), Some(Ok(()))) => true,
            (Err(m), Some(Err(code))) => m@ == failure_text(code),
            (Err(m), None) => m@
                == "This Windows version has no MFCreateVirtualCamera (Windows 11 only). Use backend = auto or dshow."@,
            _ => false,
        },
{
    match created {
        None => Err(unsupported_message()),
        Some(Err(code)) => Err(failure_message(code)),
        Some(Ok(())) => Ok(()),
    }
}

/// A code is written in hexadecimal digits, most significant first: different codes differ, and the
/// last digit is the code's remainder by 16.
pub proof fn law_code_can_be_read_off(a: u32, b: u32, d: int)
    requires
        0 <= d < 16,
    ensures
        hex(a as int, 8).len() == 8,
        hex(a as int, 8) == hex(b as int, 8) ==> a == b,
        a as int % 16 == d && d < 10 ==> hex(a as int, 8)[7] as int == 0x30 + d,
        a as int % 16 == d && d >= 10 ==> hex(a as int, 8)[7] as int == 0x37 + d,
        hex(a as int, 8).take(7) == hex(a as int / 16, 7),
{
    lemma_hex(a as int, b as int, 8);
    reveal_with_fuel(power, 9);
    assert(power(8) == 0x1_0000_0000);
    assert(hex(a as int, 8).take(7) =~= hex(a as int / 16, 7));
}

proof fn lemma_hex(a: int, b: int, n: nat)
    requires
        0 <= a,
        0 <= b,
    ensures
        hex(a, n).len() == n,
        hex(b, n).len() == n,
        hex(a, n) == hex(b, n) ==> a % power(n) == b % power(n),
        0 < power(n),
    decreases n,
{
    if n > 0 {
        let m = (n - 1) as nat;
        lemma_hex(a / 16, b / 16, m);
        let (x, y) = (hex(a, n), hex(b, n));
        if x == y {
            assert(x.drop_last() =~= hex(a / 16, m));
            assert(y.drop_last() =~= hex(b / 16, m));
            assert(x.last() == hex_char(a % 16));
            assert(y.last() == hex_char(b % 16));
            assert(a % 16 == b % 16);
            lemma_mod_step(a, power(m));
            lemma_mod_step(b, power(m));
        }
    }
}

proof fn lemma_mod_step(a: int, p: int)
    requires
        0 <= a,
        0 < p,
    ensures
        a % (16 * p) == 16 * (a / 16 % p) + a % 16,
{
    vstd::arithmetic::div_mod::lemma_mod_breakdown(a, 16, p);
}

/// 16 to the power of `n`.
spec fn power(n: nat) -> int
    decreases n,
{
    if n == 0 {
        1
    } else {
        16 * power((n - 1) as nat)
    }
}

/// The message about a failed start tells its code.
pub proof fn law_message_tells_the_code(a: Code, b: Code)
    requires
        failure_text(a) == failure_text(b),
    ensures
        a == b,
{
    let (p, q) = (
        "Virtual camera failed to start (0x"@,
        "). Is DeskCam installed? Run scripts\\install.ps1 as administrator."@,
    );
    let (x, y) = (hex(a as int, 8), hex(b as int, 8));
    crate::text::law_joined_texts(p, x, q);
    crate::text::law_joined_texts(p, y, q);
    crate::text::law_same_rest(p, x + q, y + q);
    law_code_can_be_read_off(a, b, 0);
    law_code_can_be_read_off(b, a, 0);
    assert(x =~= (x + q).take(8));
    assert(y =~= (y + q).take(8));
}

}
