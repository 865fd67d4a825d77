//! What the exported functions of the two DLLs decide.

use vstd::prelude::*;
use crate::codes::{
    Code,
    Guid,
    CLASS_E_CLASSNOTAVAILABLE,
    CLASS_E_NOAGGREGATION,
    DSHOW_CLSID,
    E_INVALIDARG,
    E_POINTER,
    S_FALSE,
    S_OK,
};
use crate::dshow::format::{GUID_NULL, MEDIASUBTYPE_NV12, MEDIATYPE_VIDEO};
use crate::text::{chars_of, push_text, string_of, trim};

verus! {

/// Friendly name used by `regsvr32` without `/i:"name"`.
pub const DEFAULT_NAME: &'static str = "DeskCam";

/// Longest camera name in characters.
pub const MAX_NAME: usize = 64;

// ---------------------------------------------------------------------------------------------
// Objects

/// Counts what keeps a DLL loaded: its objects, its threads and the locks on its server.
#[derive(Clone, Copy, PartialEq, Eq, Debug, Structural)]
pub struct ObjGuard {
    pub count: u64,
}

/// The count after an acquisition (`true`) or a release (`false`).
pub open spec fn after(count: int, acquired: bool) -> int {
    if acquired {
        (count + 1) % 0x1_0000_0000_0000_0000
    } else {
        (count - 1) % 0x1_0000_0000_0000_0000
    }
}

impl ObjGuard {
    pub fn new() -> (g: ObjGuard)
        ensures
            g.count == 0,
    {
        ObjGuard { count: 0 }
    }

    /// One more.
    pub fn acquire(&mut self)
        ensures
            final(self).count == after(old(self).count as int, true),
    {
        self.count = self.count.wrapping_add(1);
    }

    /// One less.
    pub fn release(&mut self)
        ensures
            final(self).count == after(old(self).count as int, false),
    {
        self.count = self.count.wrapping_sub(1);
    }

    /// `IClassFactory::LockServer`.
    pub fn lock_server(&mut self, lock: bool)
        ensures
            final(self).count == after(old(self).count as int, lock),
    {
        if lock {
            self.acquire();
        } else {
            self.release();
        }
    }

    /// `DllCanUnloadNow`.
    pub fn can_unload(&self) -> (code: Code)
        ensures
            code == (if self.count == 0 {
                S_OK
            } else {
                S_FALSE
            }),
    {
        if self.count == 0 {
            S_OK
        } else {
            S_FALSE
        }
    }
}

/// The count after a sequence of acquisitions (`true`) and releases (`false`).
pub open spec fn counted(start: int, ops: Seq<bool>) -> int
    decreases ops.len(),
{
    if ops.len() == 0 {
        start
    } else {
        after(counted(start, ops.drop_last()), ops.last())
    }
}

/// How many of `ops` are acquisitions, less the releases.
pub open spec fn balance(ops: Seq<bool>) -> int
    decreases ops.len(),
{
    if ops.len() == 0 {
        0
    } else {
        balance(ops.drop_last()) + (if ops.last() {
            1int
        } else {
            -1int
        })
    }
}

/// A DLL can be unloaded exactly when everything acquired was released, as long as fewer than
/// 2^64 things are alive.
pub proof fn law_unloads_when_balanced(ops: Seq<bool>)
    requires
        0 <= balance(ops) < 0x1_0000_0000_0000_0000,
    ensures
        counted(0, ops) == 0 <==> balance(ops) == 0,
{
    lemma_counted(ops);
    vstd::arithmetic::div_mod::lemma_small_mod(balance(ops) as nat, 0x1_0000_0000_0000_0000);
}

proof fn lemma_counted(ops: Seq<bool>)
    ensures
        counted(0, ops) == balance(ops) % 0x1_0000_0000_0000_0000,
    decreases ops.len(),
{
    if ops.len() > 0 {
        lemma_counted(ops.drop_last());
        let b = balance(ops.drop_last());
        vstd::arithmetic::div_mod::lemma_add_mod_noop(b, 1, 0x1_0000_0000_0000_0000);
        vstd::arithmetic::div_mod::lemma_sub_mod_noop(b, 1, 0x1_0000_0000_0000_0000);
    }
}

// ---------------------------------------------------------------------------------------------
// Class objects

/// `DllGetClassObject`: whether the class is ours.
pub fn get_class_object(clsid: Option<Guid>, has_iid: bool, has_out: bool, ours: Guid) -> (r: Result<
    (),
    Code,
>)
    ensures
        r == (match clsid {
            Some(c) => if !has_iid || !has_out {
                Err::<(), Code>(E_POINTER)
            } else if c != ours {
                Err(CLASS_E_CLASSNOTAVAILABLE)
            } else {
                Ok(())
            },
            None => Err(E_POINTER),
        }),
{
    match clsid {
        Some(c) => if !has_iid || !has_out {
            Err(E_POINTER)
        } else if c != ours {
            Err(CLASS_E_CLASSNOTAVAILABLE)
        } else {
            Ok(())
        },
        None => Err(E_POINTER),
    }
}

/// `IClassFactory::CreateInstance`: whether an object can be made.
pub fn create_instance(has_out: bool, has_outer: bool) -> (r: Result<(), Code>)
    ensures
        r == (if !has_out {
            Err::<(), Code>(E_POINTER)
        } else if has_outer {
            Err(CLASS_E_NOAGGREGATION)
        } else {
            Ok(())
        }),
{
    if !has_out {
        Err(E_POINTER)
    } else if has_outer {
        Err(CLASS_E_NOAGGREGATION)
    } else {
        Ok(())
    }
}

// ---------------------------------------------------------------------------------------------
// Installation

/// `s` without the quotes in front.
pub open spec fn strip_front(s: Seq<char>) -> Seq<char>
    decreases s.len(),
{
    if s.len() > 0 && s[0] == '"' {
        strip_front(s.skip(1))
    } else {
        s
    }
}

/// `s` without the quotes at its end.
pub open spec fn strip_back(s: Seq<char>) -> Seq<char>
    decreases s.len(),
{
    if s.len() > 0 && s.last() == '"' {
        strip_back(s.drop_last())
    } else {
        s
    }
}

/// The camera name in a command line: without the white space around it, the quotes around that,
/// and the white space inside them.
pub open spec fn bare_name(cmdline: Seq<char>) -> Seq<char> {
    crate::text::trimmed(strip_back(strip_front(crate::text::trimmed(cmdline))))
}

/// The name to register under: the one in the command line, the default where there is none.
pub open spec fn chosen_name(cmdline: Option<Seq<char>>) -> Result<Seq<char>, Code> {
    let name = match cmdline {
        Some(s) => bare_name(s),
        None => Seq::empty(),
    };
    if name.len() == 0 {
        Ok(DEFAULT_NAME@)
    } else if name.len() <= MAX_NAME {
        Ok(name)
    } else {
        Err(E_INVALIDARG)
    }
}

fn strip_quotes(s: &[char]) -> (r: &[char])
    ensures
        r@ == strip_back(strip_front(s@)),
{
    let mut i: usize = 0;
    assert(s@.skip(0) == s@);
    while i < s.len() && s[i] == '"'
        invariant
            i <= s@.len(),
            strip_front(s@.skip(i as int)) == strip_front(s@),
        decreases s@.len() - i,
    {
        assert(s@.skip(i as int).skip(1) == s@.skip(i + 1));
        i += 1;
    }
    assert(strip_front(s@) == s@.skip(i as int));
    let mut j: usize = s.len();
    assert(s@.subrange(i as int, j as int) == s@.skip(i as int));
    while j > i && s[j - 1] == '"'
        invariant
            i <= j <= s@.len(),
            strip_back(s@.subrange(i as int, j as int)) == strip_back(strip_front(s@)),
        decreases j,
    {
        assert(s@.subrange(i as int, j as int).drop_last() == s@.subrange(i as int, j - 1));
        j -= 1;
    }
    vstd::slice::slice_subrange(s, i, j)
}

/// `DllInstall`: the name to register under. `regsvr32 /n /i:"Camera name" deskcam_dshow.dll`
/// hands over a name; without one the default is used, and one that is too long is refused.
pub fn install_name(cmdline: Option<String>) -> (r: Result<String, Code>)
    ensures
        match (r, chosen_name(
            match cmdline {
                Some(s) => Some(s@),
                None => None,
            },
        )) {
            (Ok(s), Ok(name)) => s@ == name,
            (Err(a), Err(b)) => a == b,
            _ => false,
        },
{
    let chars = match cmdline {
        Some(s) => chars_of(s.as_str()),
        None => Vec::new(),
    };
    let name = trim(strip_quotes(trim(chars.as_slice())));
    proof {
        if cmdline is None {
            assert(chars@ =~= Seq::<char>::empty());
            assert(crate::text::trimmed(chars@) =~= Seq::<char>::empty());
        }
    }
    if name.len() == 0 {
        let mut s = String::new();
        push_text(&mut s, DEFAULT_NAME);
        assert(s@ =~= DEFAULT_NAME@);
        Ok(s)
    } else if name.len() <= MAX_NAME {
        Ok(string_of(name))
    } else {
        Err(E_INVALIDARG)
    }
}

/// `CLSID_VideoInputDeviceCategory`, the category apps enumerate for cameras.
pub const VIDEO_INPUT_DEVICES: Guid = 0x860bb310_5d01_11d0_bd3b_00a0c911ce86;

/// `MERIT_DO_NOT_USE`: the filter is used only where an app chooses it.
pub const DO_NOT_USE: u32 = 0x0020_0000;

/// What the filter mapper is told of the capture filter: its class, its category, and its one pin
/// with the one type the pin is listed with.
#[derive(Clone, Copy, PartialEq, Eq, Debug, Structural)]
pub struct FilterRegistration {
    pub class: Guid,
    pub category: Guid,
    pub version: u32,
    pub merit: u32,
    pub pin_rendered: bool,
    pub pin_output: bool,
    pub pin_zero: bool,
    pub pin_many: bool,
    pub connects_to_filter: Guid,
    pub major_type: Guid,
    pub minor_type: Guid,
}

/// What the filter mapper is told of the capture filter.
pub fn filter_registration() -> (r: FilterRegistration)
    ensures
        r == (FilterRegistration {
            class: DSHOW_CLSID,
            category: VIDEO_INPUT_DEVICES,
            version: 1,
            merit: DO_NOT_USE,
            pin_rendered: false,
            pin_output: true,
            pin_zero: false,
            pin_many: false,
            connects_to_filter: GUID_NULL,
            major_type: MEDIATYPE_VIDEO,
            minor_type: MEDIASUBTYPE_NV12,
        }),
{
    FilterRegistration {
        class: DSHOW_CLSID,
        category: VIDEO_INPUT_DEVICES,
        version: 1,
        merit: DO_NOT_USE,
        pin_rendered: false,
        pin_output: true,
        pin_zero: false,
        pin_many: false,
        connects_to_filter: GUID_NULL,
        major_type: MEDIATYPE_VIDEO,
        minor_type: MEDIASUBTYPE_NV12,
    }
}

spec fn is_quotes(s: Seq<char>) -> bool {
    forall|i: int| 0 <= i < s.len() ==> #[trigger] s[i] == '"'
}

proof fn lemma_strip_front(q: Seq<char>, s: Seq<char>)
    requires
        is_quotes(q),
        s.len() > 0 ==> s[0] != '"',
    ensures
        strip_front(q + s) == s,
    decreases q.len(),
{
    if q.len() > 0 {
        assert((q + s)[0] == q[0]);
        assert((q + s).skip(1) =~= q.skip(1) + s);
        assert(is_quotes(q.skip(1))) by {
            assert forall|i: int| 0 <= i < q.skip(1).len() implies #[trigger] q.skip(1)[i] == '"' by {
                assert(q[i + 1] == '"');
            }
        }
        lemma_strip_front(q.skip(1), s);
    } else {
        assert(q + s =~= s);
    }
}

proof fn lemma_strip_back(s: Seq<char>, q: Seq<char>)
    requires
        is_quotes(q),
        s.len() > 0,
        s.last() != '"',
    ensures
        strip_back(s + q) == s,
    decreases q.len(),
{
    if q.len() > 0 {
        assert((s + q).last() == q[q.len() - 1]);
        assert((s + q).drop_last() =~= s + q.drop_last());
        assert(is_quotes(q.drop_last())) by {
            assert forall|i: int| 0 <= i < q.drop_last().len() implies #[trigger] q.drop_last()[i]
                == '"' by {
                assert(q[i] == '"');
            }
        }
        lemma_strip_back(s, q.drop_last());
    } else {
        assert(s + q =~= s);
    }
}

/// A camera name is the same with and without white space and quotes around it, and nothing within
/// it is lost.
pub proof fn law_name_may_be_quoted(
    a: Seq<char>,
    front: Seq<char>,
    name: Seq<char>,
    back: Seq<char>,
    d: Seq<char>,
)
    requires
        crate::text::is_blank(a),
        crate::text::is_blank(d),
        forall|i: int| 0 <= i < front.len() ==> #[trigger] front[i] == '"',
        forall|i: int| 0 <= i < back.len() ==> #[trigger] back[i] == '"',
        name.len() > 0,
        name[0] != '"' && !crate::text::is_space(name[0]),
        name.last() != '"' && !crate::text::is_space(name.last()),
    ensures
        bare_name(a + (front + name + back) + d) == name,
{
    let quoted = front + name + back;
    if front.len() > 0 {
        assert(quoted[0] == front[0]);
    } else {
        assert(quoted[0] == name[0]);
    }
    if back.len() > 0 {
        assert(quoted.last() == back[back.len() - 1]);
    } else {
        assert(quoted.last() == name.last());
    }
    crate::text::law_trim(a, quoted, d);
    assert(quoted =~= front + (name + back));
    assert((name + back)[0] == name[0]);
    lemma_strip_front(front, name + back);
    lemma_strip_back(name, back);
    let e = Seq::<char>::empty();
    crate::text::law_trim(e, name, e);
    assert(e + name + e =~= name);
}

/// A name of up to 64 characters is registered as it is, in quotes or without; a longer one is
/// refused; without a name it is DeskCam.
pub proof fn law_given_name_is_registered(name: Seq<char>, front: Seq<char>, back: Seq<char>)
    requires
        forall|i: int| 0 <= i < front.len() ==> #[trigger] front[i] == '"',
        forall|i: int| 0 <= i < back.len() ==> #[trigger] back[i] == '"',
        name.len() > 0,
        name[0] != '"' && !crate::text::is_space(name[0]),
        name.last() != '"' && !crate::text::is_space(name.last()),
    ensures
        name.len() < 65 ==> chosen_name(Some(front + name + back)) == Ok::<Seq<char>, Code>(name),
        name.len() > 64 ==> chosen_name(Some(front + name + back)) is Err,
        chosen_name(None) == Ok::<Seq<char>, Code>("DeskCam"@),
{
    let e = Seq::<char>::empty();
    law_name_may_be_quoted(e, front, name, back, e);
    assert(e + (front + name + back) + e =~= front + name + back);
}

}
