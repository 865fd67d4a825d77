//! Where DeskCam keeps its files.

use vstd::prelude::*;
use crate::text::{chars_of, push_text};

verus! {

/// `C:` and the like: a drive without a directory.
pub open spec fn is_bare_drive(base: Seq<char>) -> bool {
    base.len() == 2 && base[1] == ':' && ('a' <= base[0] <= 'z' || 'A' <= base[0] <= 'Z')
}

/// A path and a name below it, with a separator where one is needed.
pub open spec fn joined(base: Seq<char>, name: Seq<char>) -> Seq<char> {
    if base.len() == 0 || base.last() == '\\' || base.last() == '/' || is_bare_drive(base) {
        base + name
    } else {
        base + "\\"@ + name
    }
}

/// A path and a name below it.
pub fn join(base: &str, name: &str) -> (path: String)
    ensures
        path@ == joined(base@, name@),
{
    let chars = chars_of(base);
    let n: usize = chars.len();
    let bare = n == 2 && chars[1] == ':' && (('a' <= chars[0] && chars[0] <= 'z') || ('A'
        <= chars[0] && chars[0] <= 'Z'));
    let closed = n == 0 || chars[n - 1] == '\\' || chars[n - 1] == '/' || bare;
    let mut path = String::new();
    push_text(&mut path, base);
    if !closed {
        push_text(&mut path, "\\");
    }
    push_text(&mut path, name);
    assert(path@ =~= joined(base@, name@));
    path
}

/// The folder of all programs' data: where Windows says, `C:\ProgramData` where it says nothing.
pub open spec fn program_data(known: Option<Seq<char>>) -> Seq<char> {
    match known {
        Some(s) => if s.len() == 0 {
            "C:\\ProgramData"@
        } else {
            s
        },
        None => "C:\\ProgramData"@,
    }
}

/// `C:\ProgramData\DeskCam`.
pub open spec fn data_path(known: Option<Seq<char>>) -> Seq<char> {
    joined(program_data(known), "DeskCam"@)
}

pub open spec fn known_view(known: Option<&str>) -> Option<Seq<char>> {
    match known {
        Some(s) => Some(s@),
        None => None,
    }
}

/// `C:\ProgramData\DeskCam`: readable by the Frame Server (LocalService) and the user session.
/// `known` is the known folder for program data, where Windows gave it.
pub fn data_dir(known: Option<&str>) -> (path: String)
    ensures
        path@ == data_path(known_view(known)),
{
    match known {
        Some(s) => {
            let chars = chars_of(s);
            if chars.len() == 0 {
                join("C:\\ProgramData", "DeskCam")
            } else {
                join(s, "DeskCam")
            }
        },
        None => join("C:\\ProgramData", "DeskCam"),
    }
}

/// The file with the format the running app produces.
pub fn stream_file(known: Option<&str>) -> (path: String)
    ensures
        path@ == joined(data_path(known_view(known)), "stream.bin"@),
{
    let dir = data_dir(known);
    join(dir.as_str(), "stream.bin")
}

/// The file that is written first and then renamed to [`stream_file`], so that readers never see
/// a partial record.
pub fn stream_temp_file(known: Option<&str>) -> (path: String)
    ensures
        path@ == joined(data_path(known_view(known)), "stream.bin.tmp"@),
{
    let dir = data_dir(known);
    join(dir.as_str(), "stream.bin.tmp")
}

/// The configuration file.
pub fn config_file(known: Option<&str>) -> (path: String)
    ensures
        path@ == joined(data_path(known_view(known)), "config.ini"@),
{
    let dir = data_dir(known);
    join(dir.as_str(), "config.ini")
}

/// The log file: below the user's local data where Windows says, else where the environment says,
/// else below the current directory.
pub fn log_path(known: Option<&str>, environment: Option<&str>) -> (path: String)
    ensures
        path@ == joined(
            joined(
                match known {
                    Some(s) => s@,
                    None => match environment {
                        Some(e) => e@,
                        None => "."@,
                    },
                },
                "DeskCam"@,
            ),
            "deskcam.log"@,
        ),
{
    let dir = match known {
        Some(s) => join(s, "DeskCam"),
        None => match environment {
            Some(e) => join(e, "DeskCam"),
            None => join(".", "DeskCam"),
        },
    };
    join(dir.as_str(), "deskcam.log")
}

/// The three files are different ones in one folder.
pub proof fn law_files_differ(known: Option<Seq<char>>)
    ensures
        ({
            let dir = data_path(known);
            &&& joined(dir, "stream.bin"@) != joined(dir, "config.ini"@)
            &&& joined(dir, "stream.bin"@) != joined(dir, "stream.bin.tmp"@)
            &&& joined(dir, "config.ini"@) != joined(dir, "stream.bin.tmp"@)
        }),
{
    reveal_strlit("stream.bin");
    reveal_strlit("stream.bin.tmp");
    reveal_strlit("config.ini");
    reveal_strlit("\\");
    let dir = data_path(known);
    let a = joined(dir, "stream.bin"@);
    let b = joined(dir, "config.ini"@);
    assert(a.last() == 'n');
    assert(b.last() == 'i');
}

/// A joined path starts with the folder and ends with the name, and between them is a backslash
/// unless the folder is empty, closed by a separator, or a drive of two characters.
pub proof fn law_joined(base: Seq<char>, name: Seq<char>)
    ensures
        ({
            let path = joined(base, name);
            &&& path.take(base.len() as int) == base
            &&& path.skip(path.len() - name.len()) == name
            &&& path.len() == base.len() + name.len() || (path.len() == base.len() + 1 + name.len()
                && path[base.len() as int] == '\\')
            &&& base.len() > 2 && base.last() != '\\' && base.last() != '/' ==> path.len()
                == base.len() + 1 + name.len()
            &&& base.len() > 0 && (base.last() == '\\' || base.last() == '/') ==> path.len()
                == base.len() + name.len()
        }),
{
    reveal_strlit("\\");
    let path = joined(base, name);
    assert(path.take(base.len() as int) =~= base);
    assert(path.skip(path.len() - name.len()) =~= name);
}

/// The data folder is DeskCam's below the known one, whatever that is.
pub proof fn law_data_folder(known: Seq<char>)
    requires
        known.len() > 0,
    ensures
        data_path(Some(known)) == joined(known, "DeskCam"@),
        data_path(None) == data_path(Some(Seq::empty())),
{
}

}
