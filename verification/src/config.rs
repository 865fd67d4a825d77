//! `C:\ProgramData\DeskCam\config.ini`.
//!
//! The file has one section, `[camera]`, with `key = value` lines. Lines that start with `;` or
//! `#` are comments; a `;` behind white space starts a comment behind a value.

use vstd::prelude::*;
use crate::text::{chars_of, equals, equals_ignore_case, find, is_white_space, parse_u32, push_chars, push_decimal, push_text, string_of, to_lower, trim};

verus! {

pub const DEFAULT_TEXT: &'static str = r#"; DeskCam configuration. Use tray menu "Restart" after editing.
[camera]
; Display to capture: "primary" or N from \\.\DISPLAYN (see deskcam.log for the list)
monitor = primary
; Frames per second (1-240) or "monitor" to use the display's refresh rate
fps = 30
; Output size; the desktop is scaled to fit and letterboxed. Even numbers, 320x180 .. 3840x2160
width = 1920
height = 1080
; Draw the mouse cursor
cursor = true
; Camera name shown in apps (Windows appends "Windows Virtual Camera")
name = DeskCam
"#;

#[derive(Clone, Copy, PartialEq, Eq, Debug, Structural)]
pub enum MonitorSel {
    Primary,
    Display(u32),
}

#[derive(Clone, Copy, PartialEq, Eq, Debug, Structural)]
pub enum FpsSel {
    Fixed(u32),
    Monitor,
}

/// How the camera is to be exposed to apps.
#[derive(Clone, Copy, PartialEq, Eq, Debug, Structural)]
pub enum BackendSel {
    /// What the running Windows version supports.
    Auto,
    MediaFoundation,
    DirectShow,
}

#[derive(Clone, PartialEq, Eq, Debug)]
pub struct Config {
    pub monitor: MonitorSel,
    pub fps: FpsSel,
    pub width: u32,
    pub height: u32,
    pub cursor: bool,
    pub name: String,
    pub backend: BackendSel,
}

/// A configuration with its name as characters.
#[verifier::ext_equal]
pub struct ConfigView {
    pub monitor: MonitorSel,
    pub fps: FpsSel,
    pub width: u32,
    pub height: u32,
    pub cursor: bool,
    pub name: Seq<char>,
    pub backend: BackendSel,
}

impl View for Config {
    type V = ConfigView;

    open spec fn view(&self) -> ConfigView {
        ConfigView {
            monitor: self.monitor,
            fps: self.fps,
            width: self.width,
            height: self.height,
            cursor: self.cursor,
            name: self.name@,
            backend: self.backend,
        }
    }
}

/// The settings where the file says nothing.
pub open spec fn default_config() -> ConfigView {
    ConfigView {
        monitor: MonitorSel::Primary,
        fps: FpsSel::Fixed(30),
        width: 1920,
        height: 1080,
        cursor: true,
        name: "DeskCam"@,
        backend: BackendSel::Auto,
    }
}

impl Default for Config {
    fn default() -> (r: Config)
        ensures
            r@ == default_config(),
    {
        let mut name = String::new();
        push_text(&mut name, "DeskCam");
        assert(name@ =~= "DeskCam"@);
        Config {
            monitor: MonitorSel::Primary,
            fps: FpsSel::Fixed(30),
            width: 1920,
            height: 1080,
            cursor: true,
            name,
            backend: BackendSel::Auto,
        }
    }
}

// ---------------------------------------------------------------------------------------------
// Messages

/// How every message starts; `idx` counts the lines from zero.
pub open spec fn line_text(idx: int) -> Seq<char> {
    "config.ini line "@ + crate::text::decimal((idx + 1) as nat) + ": "@
}

pub open spec fn even_message(idx: int, key: Seq<char>, min: int, max: int, value: Seq<char>) -> Seq<
    char,
> {
    line_text(idx) + key + " must be an even number from "@ + crate::text::decimal(min as nat)
        + " to "@ + crate::text::decimal(max as nat) + ", got '"@ + value + "'"@
}

fn message(idx: usize, before: &str, s: &[char], after: &str) -> (m: String)
    requires
        idx < usize::MAX,
    ensures
        m@ == line_text(idx as int) + before@ + s@ + after@,
{
    let mut m = String::new();
    push_text(&mut m, "config.ini line ");
    push_decimal(&mut m, idx as u64 + 1);
    push_text(&mut m, ": ");
    push_text(&mut m, before);
    push_chars(&mut m, s);
    push_text(&mut m, after);
    assert(m@ =~= line_text(idx as int) + before@ + s@ + after@);
    m
}

// ---------------------------------------------------------------------------------------------
// Values

/// What stands in front of a comment: the text up to the first `;` behind white space.
pub open spec fn before_comment(s: Seq<char>) -> Seq<char> {
    s.take(comment_start(s, 1))
}

/// The position of the first `;` behind white space at or after `i`, or the length of `s`.
pub open spec fn comment_start(s: Seq<char>, i: int) -> int
    decreases s.len() - i,
{
    if i < 1 || i >= s.len() {
        s.len() as int
    } else if s[i] == ';' && crate::text::is_space(s[i - 1]) {
        i
    } else {
        comment_start(s, i + 1)
    }
}

fn find_comment(s: &[char]) -> (n: usize)
    ensures
        n == comment_start(s@, 1),
        n <= s@.len(),
{
    let mut i: usize = 1;
    while i < s.len()
        invariant
            1 <= i,
            i <= s@.len() || i == 1,
            comment_start(s@, i as int) == comment_start(s@, 1),
        decreases s@.len() - i,
    {
        if s[i] == ';' && is_white_space(s[i - 1]) {
            return i;
        }
        i += 1;
    }
    s.len()
}

/// An even number from `min` to `max`.
pub open spec fn even_value(value: Seq<char>, min: u32, max: u32) -> Option<u32> {
    match crate::text::u32_value(value) {
        Some(v) => if min <= v <= max && v % 2 == 0 {
            Some(v)
        } else {
            None
        },
        None => None,
    }
}

fn parse_even(key: &str, value: &[char], min: u32, max: u32, idx: usize) -> (r: Result<u32, String>)
    requires
        idx < usize::MAX,
    ensures
        match (r, even_value(value@, min, max)) {
            (Ok(v), Some(w)) => v == w,
            (Err(m), None) => m@ == even_message(idx as int, key@, min as int, max as int, value@),
            _ => false,
        },
{
    if let Some(v) = parse_u32(value) {
        if min <= v && v <= max && v % 2 == 0 {
            return Ok(v);
        }
    }
    let mut m = String::new();
    push_text(&mut m, "config.ini line ");
    push_decimal(&mut m, idx as u64 + 1);
    push_text(&mut m, ": ");
    push_text(&mut m, key);
    push_text(&mut m, " must be an even number from ");
    push_decimal(&mut m, min as u64);
    push_text(&mut m, " to ");
    push_decimal(&mut m, max as u64);
    push_text(&mut m, ", got '");
    push_chars(&mut m, value);
    push_text(&mut m, "'");
    assert(m@ =~= even_message(idx as int, key@, min as int, max as int, value@));
    Err(m)
}

/// `value` is `word` but for ASCII case.
pub open spec fn says(value: Seq<char>, word: Seq<char>) -> bool {
    crate::text::lower(value) == crate::text::lower(word)
}

pub open spec fn monitor_value(value: Seq<char>) -> Option<MonitorSel> {
    if says(value, "primary"@) {
        Some(MonitorSel::Primary)
    } else {
        match crate::text::u32_value(value) {
            Some(v) => if v >= 1 {
                Some(MonitorSel::Display(v))
            } else {
                None
            },
            None => None,
        }
    }
}

fn parse_monitor(value: &[char]) -> (r: Option<MonitorSel>)
    ensures
        r == monitor_value(value@),
{
    if equals_ignore_case(value, "primary") {
        return Some(MonitorSel::Primary);
    }
    match parse_u32(value) {
        Some(v) => if v >= 1 {
            Some(MonitorSel::Display(v))
        } else {
            None
        },
        None => None,
    }
}

pub open spec fn fps_value(value: Seq<char>) -> Option<FpsSel> {
    if says(value, "monitor"@) {
        Some(FpsSel::Monitor)
    } else {
        match crate::text::u32_value(value) {
            Some(v) => if 1 <= v <= 240 {
                Some(FpsSel::Fixed(v))
            } else {
                None
            },
            None => None,
        }
    }
}

fn parse_fps(value: &[char]) -> (r: Option<FpsSel>)
    ensures
        r == fps_value(value@),
{
    if equals_ignore_case(value, "monitor") {
        return Some(FpsSel::Monitor);
    }
    match parse_u32(value) {
        Some(v) => if 1 <= v && v <= 240 {
            Some(FpsSel::Fixed(v))
        } else {
            None
        },
        None => None,
    }
}

pub open spec fn cursor_value(value: Seq<char>) -> Option<bool> {
    let v = crate::text::lower(value);
    if v == "true"@ || v == "1"@ || v == "yes"@ {
        Some(true)
    } else if v == "false"@ || v == "0"@ || v == "no"@ {
        Some(false)
    } else {
        None
    }
}

fn parse_cursor(value: &[char]) -> (r: Option<bool>)
    ensures
        r == cursor_value(value@),
{
    let v = to_lower(value);
    if equals(&v, "true") || equals(&v, "1") || equals(&v, "yes") {
        Some(true)
    } else if equals(&v, "false") || equals(&v, "0") || equals(&v, "no") {
        Some(false)
    } else {
        None
    }
}

pub open spec fn backend_value(value: Seq<char>) -> Option<BackendSel> {
    if says(value, "auto"@) {
        Some(BackendSel::Auto)
    } else if says(value, "mf"@) {
        Some(BackendSel::MediaFoundation)
    } else if says(value, "dshow"@) {
        Some(BackendSel::DirectShow)
    } else {
        None
    }
}

fn parse_backend(value: &[char]) -> (r: Option<BackendSel>)
    ensures
        r == backend_value(value@),
{
    if equals_ignore_case(value, "auto") {
        Some(BackendSel::Auto)
    } else if equals_ignore_case(value, "mf") {
        Some(BackendSel::MediaFoundation)
    } else if equals_ignore_case(value, "dshow") {
        Some(BackendSel::DirectShow)
    } else {
        None
    }
}

// ---------------------------------------------------------------------------------------------
// Lines

/// The settings after `key = value`, or the message that refuses it.
pub open spec fn setting(cfg: ConfigView, key: Seq<char>, value: Seq<char>, idx: int) -> Result<
    ConfigView,
    Seq<char>,
> {
    if key == "monitor"@ {
        match monitor_value(value) {
            Some(monitor) => Ok(ConfigView { monitor, ..cfg }),
            None => Err(
                line_text(idx) + "monitor must be 'primary' or a display number, got '"@ + value
                    + "'"@,
            ),
        }
    } else if key == "fps"@ {
        match fps_value(value) {
            Some(fps) => Ok(ConfigView { fps, ..cfg }),
            None => Err(line_text(idx) + "fps must be 1-240 or 'monitor', got '"@ + value + "'"@),
        }
    } else if key == "width"@ {
        match even_value(value, 320, 3840) {
            Some(width) => Ok(ConfigView { width, ..cfg }),
            None => Err(even_message(idx, "width"@, 320, 3840, value)),
        }
    } else if key == "height"@ {
        match even_value(value, 180, 2160) {
            Some(height) => Ok(ConfigView { height, ..cfg }),
            None => Err(even_message(idx, "height"@, 180, 2160, value)),
        }
    } else if key == "cursor"@ {
        match cursor_value(value) {
            Some(cursor) => Ok(ConfigView { cursor, ..cfg }),
            None => Err(line_text(idx) + "cursor must be true or false, got '"@ + value + "'"@),
        }
    } else if key == "name"@ {
        if 1 <= value.len() <= 64 {
            Ok(ConfigView { name: value, ..cfg })
        } else {
            Err(line_text(idx) + "name must be 1-64 characters"@)
        }
    } else if key == "backend"@ {
        match backend_value(value) {
            Some(backend) => Ok(ConfigView { backend, ..cfg }),
            None => Err(line_text(idx) + "backend must be auto, mf or dshow, got '"@ + value + "'"@),
        }
    } else {
        Err(line_text(idx) + "unknown key '"@ + key + "'"@)
    }
}

/// What one line, trimmed, does: whether the `[camera]` section is open afterwards, and the
/// settings.
pub open spec fn line_effect(line: Seq<char>, idx: int, in_camera: bool, cfg: ConfigView) -> Result<
    (bool, ConfigView),
    Seq<char>,
> {
    if line.len() == 0 || line[0] == ';' || line[0] == '#' {
        Ok((in_camera, cfg))
    } else if line.len() >= 2 && line[0] == '[' && line.last() == ']' {
        let section = crate::text::trimmed(line.subrange(1, line.len() - 1));
        if says(section, "camera"@) {
            Ok((true, cfg))
        } else {
            Err(line_text(idx) + "unknown section '["@ + section + "]'"@)
        }
    } else {
        let eq = crate::text::index_of(line, '=');
        let key = crate::text::lower(crate::text::trimmed(line.take(eq)));
        let value = crate::text::trimmed(before_comment(line.skip(eq + 1)));
        if eq == line.len() {
            Err(line_text(idx) + "expected 'key = value'"@)
        } else if !in_camera {
            Err(line_text(idx) + "key '"@ + key + "' must be inside [camera]"@)
        } else {
            match setting(cfg, key, value, idx) {
                Ok(c) => Ok((in_camera, c)),
                Err(m) => Err(m),
            }
        }
    }
}

/// What the rest of a file does, from line `idx` on.
pub open spec fn rest_effect(rest: Seq<char>, idx: int, in_camera: bool, cfg: ConfigView) -> Result<
    ConfigView,
    Seq<char>,
>
    decreases rest.len(),
{
    let end = crate::text::index_of(rest, '\n');
    match line_effect(crate::text::trimmed(rest.take(end)), idx, in_camera, cfg) {
        Err(m) => Err(m),
        Ok((camera, c)) => if 0 <= end < rest.len() {
            rest_effect(rest.skip(end + 1), idx + 1, camera, c)
        } else {
            Ok(c)
        },
    }
}

/// The settings in a file, or the message about its first bad line.
pub open spec fn parsed(text: Seq<char>) -> Result<ConfigView, Seq<char>> {
    rest_effect(text, 0, false, default_config())
}

/// `r` is what `e` says.
pub open spec fn outcome(r: Result<Config, String>, e: Result<ConfigView, Seq<char>>) -> bool {
    match (r, e) {
        (Ok(c), Ok(v)) => c@ == v,
        (Err(m), Err(t)) => m@ == t,
        _ => false,
    }
}

fn apply_setting(cfg: Config, key: &[char], value: &[char], idx: usize) -> (r: Result<
    Config,
    String,
>)
    requires
        idx < usize::MAX,
    ensures
        outcome(r, setting(cfg@, key@, value@, idx as int)),
{
    let mut cfg = cfg;
    if equals(key, "monitor") {
        match parse_monitor(value) {
            Some(m) => cfg.monitor = m,
            None => {
                return Err(
                    message(idx, "monitor must be 'primary' or a display number, got '", value, "'"),
                );
            },
        }
    } else if equals(key, "fps") {
        match parse_fps(value) {
            Some(f) => cfg.fps = f,
            None => {
                return Err(message(idx, "fps must be 1-240 or 'monitor', got '", value, "'"));
            },
        }
    } else if equals(key, "width") {
        match parse_even("width", value, 320, 3840, idx) {
            Ok(v) => cfg.width = v,
            Err(m) => {
                return Err(m);
            },
        }
    } else if equals(key, "height") {
        match parse_even("height", value, 180, 2160, idx) {
            Ok(v) => cfg.height = v,
            Err(m) => {
                return Err(m);
            },
        }
    } else if equals(key, "cursor") {
        match parse_cursor(value) {
            Some(c) => cfg.cursor = c,
            None => {
                return Err(message(idx, "cursor must be true or false, got '", value, "'"));
            },
        }
    } else if equals(key, "name") {
        if !(1 <= value.len() && value.len() <= 64) {
            return Err(plain_message(idx, "name must be 1-64 characters"));
        }
        cfg.name = string_of(value);
    } else if equals(key, "backend") {
        match parse_backend(value) {
            Some(b) => cfg.backend = b,
            None => {
                return Err(message(idx, "backend must be auto, mf or dshow, got '", value, "'"));
            },
        }
    } else {
        return Err(message(idx, "unknown key '", key, "'"));
    }
    Ok(cfg)
}

fn plain_message(idx: usize, what: &str) -> (m: String)
    requires
        idx < usize::MAX,
    ensures
        m@ == line_text(idx as int) + what@,
{
    let mut m = String::new();
    push_text(&mut m, "config.ini line ");
    push_decimal(&mut m, idx as u64 + 1);
    push_text(&mut m, ": ");
    push_text(&mut m, what);
    assert(m@ =~= line_text(idx as int) + what@);
    m
}

fn apply_line(cfg: Config, in_camera: bool, line: &[char], idx: usize) -> (r: Result<
    (bool, Config),
    String,
>)
    requires
        line@.len() > 0 ==> idx < usize::MAX,
    ensures
        match (r, line_effect(line@, idx as int, in_camera, cfg@)) {
            (Ok((camera, c)), Ok((b, v))) => camera == b && c@ == v,
            (Err(m), Err(t)) => m@ == t,
            _ => false,
        },
{
    if line.len() == 0 || line[0] == ';' || line[0] == '#' {
        return Ok((in_camera, cfg));
    }
    let n: usize = line.len();
    if n >= 2 && line[0] == '[' && line[n - 1] == ']' {
        let section = trim(vstd::slice::slice_subrange(line, 1, n - 1));
        return if equals_ignore_case(section, "camera") {
            Ok((true, cfg))
        } else {
            Err(message(idx, "unknown section '[", section, "]'"))
        };
    }
    let eq = find(line, '=');
    if eq == n {
        return Err(plain_message(idx, "expected 'key = value'"));
    }
    let key = to_lower(trim(vstd::slice::slice_subrange(line, 0, eq)));
    let tail = vstd::slice::slice_subrange(line, eq + 1, n);
    let value = trim(vstd::slice::slice_subrange(tail, 0, find_comment(tail)));
    assert(tail@ == line@.skip(eq + 1));
    assert(line@.subrange(0, eq as int) == line@.take(eq as int));
    assert(tail@.subrange(0, comment_start(tail@, 1)) == before_comment(tail@));
    if !in_camera {
        return Err(message(idx, "key '", &key, "' must be inside [camera]"));
    }
    match apply_setting(cfg, &key, value, idx) {
        Ok(c) => Ok((in_camera, c)),
        Err(m) => Err(m),
    }
}

/// Parses the text of a configuration file.
pub fn parse(text: &str) -> (r: Result<Config, String>)
    ensures
        outcome(r, parsed(text@)),
{
    let chars = chars_of(text);
    let mut cfg = Config::default();
    let mut in_camera = false;
    let mut start: usize = 0;
    let mut idx: usize = 0;
    assert(chars@.skip(0) == chars@);
    loop
        invariant
            idx <= start <= chars@.len(),
            chars@ == text@,
            rest_effect(chars@.skip(start as int), idx as int, in_camera, cfg@) == parsed(text@),
        decreases chars@.len() - start,
    {
        let rest = vstd::slice::slice_subrange(chars.as_slice(), start, chars.len());
        let ghost whole = rest@;
        assert(whole == chars@.skip(start as int));
        let end = find(rest, '\n');
        let line = trim(vstd::slice::slice_subrange(rest, 0, end));
        assert(whole.subrange(0, end as int) == whole.take(end as int));
        proof {
            lemma_trimmed_len(whole.take(end as int));
        }
        match apply_line(cfg, in_camera, line, idx) {
            Err(m) => {
                return Err(m);
            },
            Ok((camera, c)) => {
                if end == rest.len() {
                    return Ok(c);
                }
                in_camera = camera;
                cfg = c;
                assert(whole.skip(end + 1) == chars@.skip(start + end + 1));
                start = start + end + 1;
                idx += 1;
            },
        }
    }
}

proof fn lemma_trimmed_len(s: Seq<char>)
    ensures
        crate::text::trimmed(s).len() <= s.len(),
{
    lemma_trim_start_len(s);
    lemma_trim_end_len(crate::text::trim_start(s));
}

proof fn lemma_trim_start_len(s: Seq<char>)
    ensures
        crate::text::trim_start(s).len() <= s.len(),
    decreases s.len(),
{
    if s.len() > 0 {
        lemma_trim_start_len(s.skip(1));
    }
}

proof fn lemma_trim_end_len(s: Seq<char>)
    ensures
        crate::text::trim_end(s).len() <= s.len(),
    decreases s.len(),
{
    if s.len() > 0 {
        lemma_trim_end_len(s.drop_last());
    }
}

// ---------------------------------------------------------------------------------------------
// Loading

/// What went wrong with the file.
#[derive(Clone, Copy, PartialEq, Eq, Debug, Structural)]
pub enum FileStep {
    /// Creating the settings folder.
    Create,
    /// Writing a file.
    Write,
    /// Reading the file.
    Read,
}

/// The message about a failed step.
pub open spec fn file_message(step: FileStep, path: Seq<char>, error: Seq<char>) -> Seq<char> {
    (match step {
        FileStep::Create => "cannot create "@,
        FileStep::Write => "cannot write "@,
        FileStep::Read => "cannot read "@,
    }) + path + ": "@ + error
}

/// The message about a failed step.
pub fn file_error(step: FileStep, path: &str, error: &str) -> (m: String)
    ensures
        m@ == file_message(step, path@, error@),
{
    let mut m = String::new();
    match step {
        FileStep::Create => push_text(&mut m, "cannot create "),
        FileStep::Write => push_text(&mut m, "cannot write "),
        FileStep::Read => push_text(&mut m, "cannot read "),
    }
    push_text(&mut m, path);
    push_text(&mut m, ": ");
    push_text(&mut m, error);
    assert(m@ =~= file_message(step, path@, error@));
    m
}

/// A step that failed, on which path and how.
#[derive(Clone, PartialEq, Eq, Debug)]
pub struct FileFailure {
    pub step: FileStep,
    pub path: String,
    pub error: String,
}

/// The configuration in the file that was read (the default one where there was none), or why
/// there is none.
pub fn load(content: Result<String, FileFailure>) -> (r: Result<Config, String>)
    ensures
        outcome(
            r,
            match content {
                Ok(text) => parsed(text@),
                Err(f) => Err(file_message(f.step, f.path@, f.error@)),
            },
        ),
{
    match content {
        Ok(text) => parse(text.as_str()),
        Err(f) => Err(file_error(f.step, f.path.as_str(), f.error.as_str())),
    }
}

// ---------------------------------------------------------------------------------------------
// Laws

/// The settings that a camera can be started with.
pub open spec fn valid_config(cfg: ConfigView) -> bool {
    &&& cfg.width % 2 == 0
    &&& 320 <= cfg.width <= 3840
    &&& cfg.height % 2 == 0
    &&& 180 <= cfg.height <= 2160
    &&& (cfg.fps matches FpsSel::Fixed(n) ==> 1 <= n <= 240)
    &&& (cfg.monitor matches MonitorSel::Display(n) ==> n >= 1)
    &&& 1 <= cfg.name.len() <= 64
}

proof fn lemma_rest_valid(rest: Seq<char>, idx: int, in_camera: bool, cfg: ConfigView)
    requires
        valid_config(cfg),
    ensures
        rest_effect(rest, idx, in_camera, cfg) matches Ok(c) ==> valid_config(c),
    decreases rest.len(),
{
    let end = crate::text::index_of(rest, '\n');
    match line_effect(crate::text::trimmed(rest.take(end)), idx, in_camera, cfg) {
        Ok((camera, c)) => {
            if 0 <= end < rest.len() {
                lemma_rest_valid(rest.skip(end + 1), idx + 1, camera, c);
            }
        },
        Err(_) => {},
    }
}

/// Whatever a file says, the settings read from it are in range.
pub proof fn law_parsed_is_valid(text: Seq<char>)
    ensures
        parsed(text) matches Ok(c) ==> valid_config(c),
{
    reveal_strlit("DeskCam");
    lemma_rest_valid(text, 0, false, default_config());
}

/// The lines of a text, without the line ends.
pub open spec fn lines_of(text: Seq<char>) -> Seq<Seq<char>>
    decreases text.len(),
{
    let end = crate::text::index_of(text, '\n');
    if 0 <= end < text.len() {
        seq![text.take(end)] + lines_of(text.skip(end + 1))
    } else {
        seq![text]
    }
}

/// A blank line or a comment, indented or not.
pub open spec fn is_skipped(line: Seq<char>) -> bool {
    let l = crate::text::trimmed(line);
    l.len() == 0 || l[0] == ';' || l[0] == '#'
}

/// The lines that say something, in their order.
pub open spec fn telling(lines: Seq<Seq<char>>) -> Seq<Seq<char>> {
    lines.filter(|line: Seq<char>| !is_skipped(line))
}

/// Both succeed with the same settings, or both fail (the messages may count lines differently).
pub open spec fn agree(
    a: Result<ConfigView, Seq<char>>,
    b: Result<ConfigView, Seq<char>>,
) -> bool {
    match (a, b) {
        (Ok(x), Ok(y)) => x == y,
        (Err(_), Err(_)) => true,
        _ => false,
    }
}

/// What lines do, from line `idx` on.
spec fn lines_effect(lines: Seq<Seq<char>>, idx: int, in_camera: bool, cfg: ConfigView) -> Result<
    ConfigView,
    Seq<char>,
>
    decreases lines.len(),
{
    if lines.len() == 0 {
        Ok(cfg)
    } else {
        match line_effect(crate::text::trimmed(lines[0]), idx, in_camera, cfg) {
            Err(m) => Err(m),
            Ok((camera, c)) => lines_effect(lines.skip(1), idx + 1, camera, c),
        }
    }
}

proof fn lemma_rest_is_lines(rest: Seq<char>, idx: int, in_camera: bool, cfg: ConfigView)
    ensures
        rest_effect(rest, idx, in_camera, cfg) == lines_effect(
            lines_of(rest),
            idx,
            in_camera,
            cfg,
        ),
    decreases rest.len(),
{
    let end = crate::text::index_of(rest, '\n');
    crate::text::law_index_of(rest, '\n');
    let lines = lines_of(rest);
    if end < rest.len() {
        assert(lines.skip(1) =~= lines_of(rest.skip(end + 1)));
        match line_effect(crate::text::trimmed(rest.take(end)), idx, in_camera, cfg) {
            Ok((camera, c)) => lemma_rest_is_lines(rest.skip(end + 1), idx + 1, camera, c),
            Err(_) => {},
        }
    } else {
        assert(rest.take(end) =~= rest);
        assert(lines.skip(1) =~= Seq::empty());
        assert(lines[0] == rest);
        match line_effect(crate::text::trimmed(rest), idx, in_camera, cfg) {
            Ok((camera, c)) => {
                assert(lines_effect(lines.skip(1), idx + 1, camera, c) == Ok::<
                    ConfigView,
                    Seq<char>,
                >(c));
            },
            Err(_) => {},
        }
    }
}

proof fn lemma_only_telling(
    lines: Seq<Seq<char>>,
    i: int,
    j: int,
    in_camera: bool,
    cfg: ConfigView,
)
    ensures
        agree(
            lines_effect(lines, i, in_camera, cfg),
            lines_effect(telling(lines), j, in_camera, cfg),
        ),
    decreases lines.len(),
{
    let pred = |line: Seq<char>| !is_skipped(line);
    if lines.len() == 0 {
        reveal(Seq::filter);
    } else {
        let head = seq![lines[0]];
        let rest = lines.skip(1);
        assert(lines =~= head + rest);
        Seq::filter_distributes_over_add(head, rest, pred);
        assert(head.filter(pred) =~= if pred(lines[0]) {
            head
        } else {
            Seq::empty()
        }) by {
            reveal(Seq::filter);
            assert(head.drop_last() =~= Seq::empty());
            assert(head.drop_last().filter(pred) =~= Seq::empty());
        }
        if is_skipped(lines[0]) {
            assert(telling(lines) =~= telling(rest));
            lemma_only_telling(rest, i + 1, j, in_camera, cfg);
        } else {
            assert(telling(lines) =~= head + telling(rest));
            assert(telling(lines).skip(1) =~= telling(rest));
            match line_effect(crate::text::trimmed(lines[0]), i, in_camera, cfg) {
                Ok((camera, c)) => lemma_only_telling(rest, i + 1, j + 1, camera, c),
                Err(_) => {},
            }
        }
    }
}

proof fn lemma_lines_joined(a: Seq<char>, b: Seq<char>)
    ensures
        lines_of(a + seq!['\n'] + b) == lines_of(a) + lines_of(b),
    decreases a.len(),
{
    let text = a + seq!['\n'] + b;
    let end = crate::text::index_of(a, '\n');
    crate::text::law_index_of(a, '\n');
    let first = crate::text::index_of(text, '\n');
    crate::text::law_index_of(text, '\n');
    assert(text[a.len() as int] == '\n');
    assert(first == end) by {
        if first < end {
            assert(text[first] == a[first]);
        } else if end < first {
            if end < a.len() {
                assert(text[end] == a[end]);
            }
        }
    }
    assert(text.take(end) =~= a.take(end));
    if end < a.len() {
        lemma_lines_joined(a.skip(end + 1), b);
        assert(text.skip(end + 1) =~= a.skip(end + 1) + seq!['\n'] + b);
    } else {
        assert(text.skip(end + 1) =~= b);
        assert(a.take(end) =~= a);
    }
    assert(lines_of(text) =~= lines_of(a) + lines_of(b));
}

proof fn lemma_none_telling(lines: Seq<Seq<char>>)
    requires
        forall|i: int| 0 <= i < lines.len() ==> is_skipped(#[trigger] lines[i]),
    ensures
        telling(lines) == Seq::<Seq<char>>::empty(),
    decreases lines.len(),
{
    reveal(Seq::filter);
    if lines.len() > 0 {
        assert(is_skipped(lines[lines.len() - 1]));
        lemma_none_telling(lines.drop_last());
    }
}

/// Only the lines that say something count: two files that differ in nothing but blank lines and
/// comments, wherever they stand, mean the same settings, or both are refused.
pub proof fn law_only_telling_lines_count(a: Seq<char>, b: Seq<char>)
    requires
        telling(lines_of(a)) == telling(lines_of(b)),
    ensures
        agree(parsed(a), parsed(b)),
{
    lemma_rest_is_lines(a, 0, false, default_config());
    lemma_rest_is_lines(b, 0, false, default_config());
    lemma_only_telling(lines_of(a), 0, 0, false, default_config());
    lemma_only_telling(lines_of(b), 0, 0, false, default_config());
}

/// Blank lines and comments between two lines, before the first or behind the last one change
/// neither the settings nor whether there are any.
pub proof fn law_inserted_lines_are_skipped(before: Seq<char>, extra: Seq<char>, after: Seq<char>)
    requires
        forall|i: int| 0 <= i < lines_of(extra).len() ==> is_skipped(#[trigger] lines_of(extra)[i]),
    ensures
        agree(
            parsed(before + seq!['\n'] + extra + seq!['\n'] + after),
            parsed(before + seq!['\n'] + after),
        ),
        agree(parsed(extra + seq!['\n'] + after), parsed(after)),
        agree(parsed(before + seq!['\n'] + extra), parsed(before)),
{
    let pred = |line: Seq<char>| !is_skipped(line);
    let nl = seq!['\n'];
    let (b, e, a) = (lines_of(before), lines_of(extra), lines_of(after));
    lemma_none_telling(e);
    lemma_lines_joined(before, extra);
    lemma_lines_joined(before + nl + extra, after);
    lemma_lines_joined(before, after);
    lemma_lines_joined(extra, after);
    Seq::filter_distributes_over_add(b, e, pred);
    Seq::filter_distributes_over_add(b + e, a, pred);
    Seq::filter_distributes_over_add(b, a, pred);
    Seq::filter_distributes_over_add(e, a, pred);
    assert(telling(b + e) =~= telling(b));
    assert(telling(b + e + a) =~= telling(b + a));
    assert(telling(e + a) =~= telling(a));
    law_only_telling_lines_count(before + nl + extra + nl + after, before + nl + after);
    law_only_telling_lines_count(extra + nl + after, after);
    law_only_telling_lines_count(before + nl + extra, before);
}

/// A file of blank lines and comments means the defaults.
pub proof fn law_file_of_comments_is_default(text: Seq<char>)
    requires
        forall|i: int| 0 <= i < lines_of(text).len() ==> is_skipped(#[trigger] lines_of(text)[i]),
    ensures
        parsed(text) == Ok::<ConfigView, Seq<char>>(default_config()),
{
    lemma_rest_is_lines(text, 0, false, default_config());
    lemma_only_telling(lines_of(text), 0, 0, false, default_config());
    lemma_none_telling(lines_of(text));
    assert(lines_effect(Seq::empty(), 0, false, default_config()) == Ok::<ConfigView, Seq<char>>(
        default_config(),
    ));
}

/// A blank line or a comment has no effect but to be counted.
pub proof fn law_skipped_line_is_counted(
    line: Seq<char>,
    rest: Seq<char>,
    idx: int,
    in_camera: bool,
    cfg: ConfigView,
)
    requires
        is_skipped(line),
        forall|k: int| 0 <= k < line.len() ==> line[k] != '\n',
    ensures
        rest_effect(line + seq!['\n'] + rest, idx, in_camera, cfg) == rest_effect(
            rest,
            idx + 1,
            in_camera,
            cfg,
        ),
{
    let text = line + seq!['\n'] + rest;
    crate::text::law_index_of(line, '\n');
    assert(lines_of(line) =~= seq![line]);
    lemma_lines_joined(line, rest);
    lemma_rest_is_lines(text, idx, in_camera, cfg);
    lemma_rest_is_lines(rest, idx + 1, in_camera, cfg);
    assert(lines_of(text).skip(1) =~= lines_of(rest));
}

/// An empty file means the defaults.
pub proof fn law_empty_file_is_default()
    ensures
        parsed(Seq::empty()) == Ok::<ConfigView, Seq<char>>(default_config()),
{
    let e = Seq::<char>::empty();
    assert(crate::text::index_of(e, '\n') == 0);
    assert(e.take(0) =~= e);
    assert(crate::text::trimmed(e) =~= e);
}

// ---------------------------------------------------------------------------------------------
// What a line sets

/// A word of ASCII letters.
pub open spec fn is_word(s: Seq<char>) -> bool {
    &&& s.len() > 0
    &&& forall|i: int|
        0 <= i < s.len() ==> ('a' <= #[trigger] s[i] <= 'z') || ('A' <= s[i] <= 'Z')
}

/// A value that stands for itself: on one line, without white space around it and without a
/// comment in it.
pub open spec fn is_plain(s: Seq<char>) -> bool {
    &&& s.len() > 0
    &&& !crate::text::is_space(s[0])
    &&& !crate::text::is_space(s.last())
    &&& s[0] != ';'
    &&& forall|i: int| 0 <= i < s.len() ==> #[trigger] s[i] != '\n'
    &&& forall|i: int|
        0 < i < s.len() ==> !(#[trigger] s[i] == ';' && crate::text::is_space(s[i - 1]))
}

/// White space within a line.
pub open spec fn is_gap(s: Seq<char>) -> bool {
    crate::text::is_blank(s) && forall|i: int| 0 <= i < s.len() ==> #[trigger] s[i] != '\n'
}

proof fn lemma_no_comment(s: Seq<char>, i: int)
    requires
        1 <= i,
        forall|k: int|
            i <= k < s.len() ==> !(#[trigger] s[k] == ';' && crate::text::is_space(s[k - 1])),
    ensures
        comment_start(s, i) == s.len(),
    decreases s.len() - i,
{
    if i < s.len() {
        assert(!(s[i] == ';' && crate::text::is_space(s[i - 1])));
        lemma_no_comment(s, i + 1);
    }
}

proof fn lemma_comment_at(s: Seq<char>, i: int, n: int)
    requires
        1 <= i <= n < s.len(),
        s[n] == ';' && crate::text::is_space(s[n - 1]),
        forall|k: int|
            i <= k < n ==> !(#[trigger] s[k] == ';' && crate::text::is_space(s[k - 1])),
    ensures
        comment_start(s, i) == n,
    decreases n - i,
{
    if i < n {
        assert(!(s[i] == ';' && crate::text::is_space(s[i - 1])));
        lemma_comment_at(s, i + 1, n);
    }
}

/// The line with its parts: key, white space, `=`, white space, value, and what follows it.
spec fn line_of(key: Seq<char>, b: Seq<char>, c: Seq<char>, value: Seq<char>, end: Seq<char>) -> Seq<
    char,
> {
    key + b + seq!['='] + c + value + end
}

proof fn lemma_line_parts(
    key: Seq<char>,
    b: Seq<char>,
    c: Seq<char>,
    value: Seq<char>,
    end: Seq<char>,
)
    requires
        is_word(key),
        is_gap(b),
        is_gap(c),
        is_plain(value),
        end.len() == 0 || (end.len() >= 2 && crate::text::is_space(end[0]) && end[1] == ';'),
    ensures
        ({
            let line = line_of(key, b, c, value, end);
            let eq = crate::text::index_of(line, '=');
            &&& eq == key.len() + b.len()
            &&& line[0] == key[0]
            &&& line.len() > eq
            &&& crate::text::trimmed(line.take(eq)) == key
            &&& crate::text::trimmed(before_comment(line.skip(eq + 1))) == value
        }),
{
    let line = line_of(key, b, c, value, end);
    let n: int = (key.len() + b.len()) as int;
    let eq = crate::text::index_of(line, '=');
    crate::text::law_index_of(line, '=');
    assert(line[n] == '=');
    assert(eq == n) by {
        if eq < n {
            if eq < key.len() {
                assert(line[eq] == key[eq]);
            } else {
                assert(line[eq] == b[eq - key.len()]);
                assert(crate::text::is_space(b[eq - key.len()]));
            }
        }
    }
    assert(line.take(n) =~= Seq::empty() + key + b);
    assert(('a' <= key[0] <= 'z') || ('A' <= key[0] <= 'Z'));
    let last = key.len() - 1;
    assert(('a' <= key[last] <= 'z') || ('A' <= key[last] <= 'Z'));
    crate::text::law_trim(Seq::empty(), key, b);
    let rest = line.skip(n + 1);
    assert(rest =~= c + value + end);
    let m: int = (c.len() + value.len()) as int;
    assert forall|k: int| 1 <= k < m implies !(#[trigger] rest[k] == ';' && crate::text::is_space(
        rest[k - 1],
    )) by {
        if k < c.len() {
            assert(crate::text::is_space(c[k]));
        } else {
            let j = k - c.len();
            assert(rest[k] == value[j]);
            if j > 0 {
                assert(rest[k - 1] == value[j - 1]);
                assert(!(value[j] == ';' && crate::text::is_space(value[j - 1])));
            }
        }
    }
    assert(value[value.len() - 1] == value.last());
    if end.len() == 0 {
        lemma_no_comment(rest, 1);
        assert(before_comment(rest) =~= c + value + Seq::empty());
        crate::text::law_trim(c, value, Seq::empty());
    } else {
        assert(rest[m] == end[0] && rest[m + 1] == end[1]);
        assert(rest[m] != ';');
        lemma_comment_at(rest, 1, m + 1);
        let sp = seq![end[0]];
        assert(before_comment(rest) =~= c + value + sp);
        crate::text::law_trim(c, value, sp);
    }
}

proof fn lemma_lower_word(key: Seq<char>)
    requires
        is_word(key),
    ensures
        key[0] != ';' && key[0] != '#' && key[0] != '[',
        !crate::text::is_space(key[0]),
{
    assert(('a' <= key[0] <= 'z') || ('A' <= key[0] <= 'Z'));
}

/// A line `key = value` in the section does what its key and value say, however it is spaced and
/// whatever comment stands behind it, and then the rest of the file is read.
pub proof fn law_spacing_case_and_comments_do_not_matter(
    a: Seq<char>,
    key: Seq<char>,
    b: Seq<char>,
    c: Seq<char>,
    value: Seq<char>,
    end: Seq<char>,
    d: Seq<char>,
    word: Seq<char>,
    rest: Seq<char>,
    idx: int,
    cfg: ConfigView,
)
    requires
        is_word(key),
        is_word(word),
        crate::text::lower(key) == crate::text::lower(word),
        is_gap(a) && is_gap(b) && is_gap(c) && is_gap(d),
        is_plain(value),
        end.len() == 0 || (end.len() >= 2 && crate::text::is_space(end[0]) && end[1] == ';'
            && !crate::text::is_space(end.last())),
        forall|i: int| 0 <= i < end.len() ==> #[trigger] end[i] != '\n',
    ensures
        rest_effect(
            a + (key + b + seq!['='] + c + value + end) + d + seq!['\n'] + rest,
            idx,
            true,
            cfg,
        ) == rest_effect(word + "="@ + value + seq!['\n'] + rest, idx, true, cfg),
{
    reveal_strlit("=");
    let e = Seq::<char>::empty();
    let inner = line_of(key, b, c, value, end);
    let line = a + inner + d;
    let plain = line_of(word, e, e, value, e);
    assert(word + "="@ + value =~= plain);
    lemma_line_parts(key, b, c, value, end);
    lemma_line_parts(word, e, e, value, e);
    lemma_lower_word(key);
    lemma_lower_word(word);
    assert(inner.last() == (if end.len() > 0 {
        end.last()
    } else {
        value.last()
    }));
    crate::text::law_trim(a, inner, d);
    crate::text::law_trim(e, plain, e);
    assert(e + plain + e =~= plain);
    assert(no_line_end(inner)) by {
        lemma_no_line_end(key, b, c, value, end);
    }
    assert(no_line_end(line)) by {
        assert forall|i: int| 0 <= i < line.len() implies #[trigger] line[i] != '\n' by {
            if i < a.len() {
                assert(line[i] == a[i]);
            } else if i < a.len() + inner.len() {
                assert(line[i] == inner[i - a.len()]);
            } else {
                assert(line[i] == d[i - a.len() - inner.len()]);
            }
        }
    }
    lemma_no_line_end(word, e, e, value, e);
    lemma_first_line(line, rest, idx, true, cfg);
    lemma_first_line(plain, rest, idx, true, cfg);
}

spec fn no_line_end(s: Seq<char>) -> bool {
    forall|i: int| 0 <= i < s.len() ==> #[trigger] s[i] != '\n'
}

proof fn lemma_no_line_end(
    key: Seq<char>,
    b: Seq<char>,
    c: Seq<char>,
    value: Seq<char>,
    end: Seq<char>,
)
    requires
        is_word(key),
        is_gap(b),
        is_gap(c),
        is_plain(value),
        no_line_end(end),
    ensures
        no_line_end(line_of(key, b, c, value, end)),
{
    let line = line_of(key, b, c, value, end);
    assert forall|i: int| 0 <= i < line.len() implies #[trigger] line[i] != '\n' by {
        let (k, m) = (key.len() as int, (key.len() + b.len()) as int);
        let n = m + 1 + c.len();
        if i < k {
            assert(line[i] == key[i]);
        } else if i < m {
            assert(line[i] == b[i - k]);
        } else if i == m {
            assert(line[i] == '=');
        } else if i < n {
            assert(line[i] == c[i - m - 1]);
        } else if i < n + value.len() {
            assert(line[i] == value[i - n]);
        } else {
            assert(line[i] == end[i - n - value.len()]);
        }
    }
}

/// What a file does whose first line is `line`.
proof fn lemma_first_line(
    line: Seq<char>,
    rest: Seq<char>,
    idx: int,
    in_camera: bool,
    cfg: ConfigView,
)
    requires
        no_line_end(line),
    ensures
        rest_effect(line + seq!['\n'] + rest, idx, in_camera, cfg) == (match line_effect(
            crate::text::trimmed(line),
            idx,
            in_camera,
            cfg,
        ) {
            Err(m) => Err(m),
            Ok((camera, c)) => rest_effect(rest, idx + 1, camera, c),
        }),
        rest_effect(line, idx, in_camera, cfg) == (match line_effect(
            crate::text::trimmed(line),
            idx,
            in_camera,
            cfg,
        ) {
            Err(m) => Err(m),
            Ok((camera, c)) => Ok(c),
        }),
{
    let text = line + seq!['\n'] + rest;
    crate::text::law_index_of(line, '\n');
    assert(lines_of(line) =~= seq![line]);
    lemma_lines_joined(line, rest);
    lemma_rest_is_lines(text, idx, in_camera, cfg);
    lemma_rest_is_lines(line, idx, in_camera, cfg);
    assert(lines_of(text)[0] == line);
    assert(lines_of(text).skip(1) =~= lines_of(rest));
    assert(lines_of(line).skip(1) =~= Seq::empty());
    match line_effect(crate::text::trimmed(line), idx, in_camera, cfg) {
        Ok((camera, c)) => {
            lemma_rest_is_lines(rest, idx + 1, camera, c);
            assert(lines_effect(Seq::empty(), idx + 1, camera, c) == Ok::<ConfigView, Seq<char>>(c));
        },
        Err(_) => {},
    }
}

/// What `[camera]`, then one line `key = value` make of the defaults.
proof fn lemma_one_setting(key: Seq<char>, value: Seq<char>)
    requires
        is_word(key),
        is_plain(value),
    ensures
        parsed("[camera]\n"@ + key + " = "@ + value) == setting(
            default_config(),
            crate::text::lower(key),
            value,
            1,
        ),
{
    reveal_strlit("[camera]\n");
    reveal_strlit("camera");
    reveal_strlit(" = ");
    let e = Seq::<char>::empty();
    let sp = seq![' '];
    let head = seq!['[', 'c', 'a', 'm', 'e', 'r', 'a', ']'];
    let line = line_of(key, sp, sp, value, e);
    let text = "[camera]\n"@ + key + " = "@ + value;
    assert(text =~= head + seq!['\n'] + line);
    crate::text::law_trim(e, head, e);
    assert(e + head + e =~= head);
    assert(head.subrange(1, 7) =~= "camera"@);
    crate::text::law_trim(e, "camera"@, e);
    assert(e + "camera"@ + e =~= "camera"@);
    assert(line_effect(head, 0, false, default_config()) == Ok::<(bool, ConfigView), Seq<char>>(
        (true, default_config()),
    ));
    lemma_first_line(head, line, 0, false, default_config());
    assert(is_gap(sp));
    lemma_line_parts(key, sp, sp, value, e);
    lemma_lower_word(key);
    assert(line.last() == value.last());
    crate::text::law_trim(e, line, e);
    assert(e + line + e =~= line);
    lemma_no_line_end(key, sp, sp, value, e);
    lemma_first_line(line, e, 1, true, default_config());
    assert(!(line.len() >= 2 && line[0] == '['));
}

proof fn lemma_decimal_is_plain(n: nat)
    ensures
        is_plain(crate::text::decimal(n)),
{
    let d = crate::text::decimal(n);
    crate::text::law_decimal_is_digits(n);
    assert(crate::text::is_digit(d[0]));
    assert(crate::text::is_digit(d[d.len() - 1]));
    assert forall|i: int| 0 <= i < d.len() implies #[trigger] d[i] != '\n' by {
        assert(crate::text::is_digit(d[i]));
    }
    assert forall|i: int| 0 < i < d.len() implies !(#[trigger] d[i] == ';' && crate::text::is_space(
        d[i - 1],
    )) by {
        assert(crate::text::is_digit(d[i]));
    }
}

proof fn lemma_number_is_no_word(n: nat, word: Seq<char>)
    requires
        is_word(word),
    ensures
        !says(crate::text::decimal(n), word),
{
    let d = crate::text::decimal(n);
    crate::text::law_decimal_is_digits(n);
    assert(crate::text::is_digit(d[0]));
    if says(d, word) {
        assert(crate::text::lower(d)[0] == crate::text::lower_char(d[0]));
        assert(crate::text::lower(word)[0] == crate::text::lower_char(word[0]));
        assert(('a' <= word[0] <= 'z') || ('A' <= word[0] <= 'Z'));
    }
}

proof fn lemma_key(key: Seq<char>)
    requires
        is_word(key),
        forall|i: int| 0 <= i < key.len() ==> 'a' <= #[trigger] key[i] <= 'z',
    ensures
        crate::text::lower(key) == key,
{
    assert(crate::text::lower(key) =~= key);
}

proof fn lemma_keys()
    ensures
        is_word("monitor"@) && crate::text::lower("monitor"@) == "monitor"@,
        is_word("fps"@) && crate::text::lower("fps"@) == "fps"@,
        is_word("width"@) && crate::text::lower("width"@) == "width"@,
        is_word("height"@) && crate::text::lower("height"@) == "height"@,
        is_word("cursor"@) && crate::text::lower("cursor"@) == "cursor"@,
        is_word("name"@) && crate::text::lower("name"@) == "name"@,
        is_word("backend"@) && crate::text::lower("backend"@) == "backend"@,
        is_word("primary"@) && crate::text::lower("primary"@) == "primary"@,
        "monitor"@ != "fps"@ && "monitor"@ != "width"@ && "monitor"@ != "height"@,
        "monitor"@ != "cursor"@ && "monitor"@ != "name"@ && "monitor"@ != "backend"@,
        "fps"@ != "width"@ && "fps"@ != "height"@ && "fps"@ != "cursor"@ && "fps"@ != "name"@,
        "fps"@ != "backend"@ && "width"@ != "height"@ && "width"@ != "cursor"@,
        "width"@ != "name"@ && "width"@ != "backend"@ && "height"@ != "cursor"@,
        "height"@ != "name"@ && "height"@ != "backend"@ && "cursor"@ != "name"@,
        "cursor"@ != "backend"@ && "name"@ != "backend"@,
{
    reveal_strlit("monitor");
    reveal_strlit("fps");
    reveal_strlit("width");
    reveal_strlit("height");
    reveal_strlit("cursor");
    reveal_strlit("name");
    reveal_strlit("backend");
    reveal_strlit("primary");
    lemma_key("monitor"@);
    lemma_key("fps"@);
    lemma_key("width"@);
    lemma_key("height"@);
    lemma_key("cursor"@);
    lemma_key("name"@);
    lemma_key("backend"@);
    lemma_key("primary"@);
    assert("monitor"@[0] == 'm' && "fps"@[0] == 'f' && "width"@[0] == 'w' && "height"@[0] == 'h');
    assert("cursor"@[0] == 'c' && "name"@[0] == 'n' && "backend"@[0] == 'b');
}

/// A number that a key takes is the number that is set, and nothing else is set with it; a number
/// out of the key's range is refused.
pub proof fn law_numbers_are_set_as_written(n: u32)
    ensures
        ({
            let r = parsed("[camera]\n"@ + "fps"@ + " = "@ + crate::text::decimal(n as nat));
            if 1 <= n <= 240 {
                r == Ok::<ConfigView, Seq<char>>(
                    ConfigView { fps: FpsSel::Fixed(n), ..default_config() },
                )
            } else {
                r is Err
            }
        }),
        ({
            let r = parsed("[camera]\n"@ + "monitor"@ + " = "@ + crate::text::decimal(n as nat));
            if n >= 1 {
                r == Ok::<ConfigView, Seq<char>>(
                    ConfigView { monitor: MonitorSel::Display(n), ..default_config() },
                )
            } else {
                r is Err
            }
        }),
        ({
            let r = parsed("[camera]\n"@ + "width"@ + " = "@ + crate::text::decimal(n as nat));
            if 320 <= n <= 3840 && n % 2 == 0 {
                r == Ok::<ConfigView, Seq<char>>(ConfigView { width: n, ..default_config() })
            } else {
                r is Err
            }
        }),
        ({
            let r = parsed("[camera]\n"@ + "height"@ + " = "@ + crate::text::decimal(n as nat));
            if 180 <= n <= 2160 && n % 2 == 0 {
                r == Ok::<ConfigView, Seq<char>>(ConfigView { height: n, ..default_config() })
            } else {
                r is Err
            }
        }),
{
    let d = crate::text::decimal(n as nat);
    lemma_keys();
    lemma_decimal_is_plain(n as nat);
    crate::text::law_decimal_round_trip(n);
    lemma_number_is_no_word(n as nat, "monitor"@);
    lemma_number_is_no_word(n as nat, "primary"@);
    lemma_one_setting("fps"@, d);
    lemma_one_setting("monitor"@, d);
    lemma_one_setting("width"@, d);
    lemma_one_setting("height"@, d);
}

/// A name of 1 to 64 characters is the name that is set; a longer one is refused.
pub proof fn law_name_is_set_as_written(name: Seq<char>)
    requires
        is_plain(name),
    ensures
        name.len() <= 64 ==> parsed("[camera]\n"@ + "name"@ + " = "@ + name) == Ok::<
            ConfigView,
            Seq<char>,
        >(ConfigView { name, ..default_config() }),
        name.len() > 64 ==> parsed("[camera]\n"@ + "name"@ + " = "@ + name) is Err,
{
    lemma_keys();
    lemma_one_setting("name"@, name);
}

proof fn lemma_words_are_plain(v: Seq<char>)
    requires
        v.len() > 0,
        forall|i: int|
            0 <= i < v.len() ==> ('a' <= crate::text::lower_char(#[trigger] v[i]) <= 'z') || v[i]
                == '0' || v[i] == '1',
    ensures
        is_plain(v),
{
    assert(v[0] != ';');
    assert(v[v.len() - 1] == v.last());
    assert forall|i: int| 0 < i < v.len() implies !(#[trigger] v[i] == ';' && crate::text::is_space(
        v[i - 1],
    )) by {}
}

proof fn lemma_word_value(v: Seq<char>, word: Seq<char>)
    requires
        crate::text::lower(v) == word,
        word.len() > 0,
        forall|i: int|
            0 <= i < word.len() ==> ('a' <= #[trigger] word[i] <= 'z') || word[i] == '0' || word[i]
                == '1',
    ensures
        is_plain(v),
{
    assert forall|i: int| 0 <= i < v.len() implies ('a' <= crate::text::lower_char(
        #[trigger] v[i],
    ) <= 'z') || v[i] == '0' || v[i] == '1' by {
        assert(crate::text::lower(v)[i] == crate::text::lower_char(v[i]));
        assert(('a' <= word[i] <= 'z') || word[i] == '0' || word[i] == '1');
    }
    lemma_words_are_plain(v);
}

/// The words that keys take, in upper or lower case, and what each of them sets.
pub proof fn law_words_are_set_as_written(v: Seq<char>)
    ensures
        ({
            let w = crate::text::lower(v);
            &&& w == "true"@ || w == "yes"@ || w == "1"@ ==> parsed(
                "[camera]\n"@ + "cursor"@ + " = "@ + v,
            ) == Ok::<ConfigView, Seq<char>>(ConfigView { cursor: true, ..default_config() })
            &&& w == "false"@ || w == "no"@ || w == "0"@ ==> parsed(
                "[camera]\n"@ + "cursor"@ + " = "@ + v,
            ) == Ok::<ConfigView, Seq<char>>(ConfigView { cursor: false, ..default_config() })
            &&& w == "monitor"@ ==> parsed("[camera]\n"@ + "fps"@ + " = "@ + v) == Ok::<
                ConfigView,
                Seq<char>,
            >(ConfigView { fps: FpsSel::Monitor, ..default_config() })
            &&& w == "primary"@ ==> parsed("[camera]\n"@ + "monitor"@ + " = "@ + v) == Ok::<
                ConfigView,
                Seq<char>,
            >(ConfigView { monitor: MonitorSel::Primary, ..default_config() })
            &&& w == "auto"@ ==> parsed("[camera]\n"@ + "backend"@ + " = "@ + v) == Ok::<
                ConfigView,
                Seq<char>,
            >(ConfigView { backend: BackendSel::Auto, ..default_config() })
            &&& w == "mf"@ ==> parsed("[camera]\n"@ + "backend"@ + " = "@ + v) == Ok::<
                ConfigView,
                Seq<char>,
            >(ConfigView { backend: BackendSel::MediaFoundation, ..default_config() })
            &&& w == "dshow"@ ==> parsed("[camera]\n"@ + "backend"@ + " = "@ + v) == Ok::<
                ConfigView,
                Seq<char>,
            >(ConfigView { backend: BackendSel::DirectShow, ..default_config() })
        }),
{
    lemma_cursor_words(v);
    lemma_choice_words(v);
    lemma_backend_words(v);
}

proof fn lemma_cursor_words(v: Seq<char>)
    ensures
        ({
            let w = crate::text::lower(v);
            let r = parsed("[camera]\n"@ + "cursor"@ + " = "@ + v);
            &&& w == "true"@ || w == "yes"@ || w == "1"@ ==> r == Ok::<ConfigView, Seq<char>>(
                ConfigView { cursor: true, ..default_config() },
            )
            &&& w == "false"@ || w == "no"@ || w == "0"@ ==> r == Ok::<ConfigView, Seq<char>>(
                ConfigView { cursor: false, ..default_config() },
            )
        }),
{
    let w = crate::text::lower(v);
    lemma_keys();
    reveal_strlit("true");
    reveal_strlit("yes");
    reveal_strlit("1");
    reveal_strlit("false");
    reveal_strlit("no");
    reveal_strlit("0");
    assert("true"@[0] == 't' && "yes"@[0] == 'y' && "1"@[0] == '1');
    assert("false"@[0] == 'f' && "no"@[0] == 'n' && "0"@[0] == '0');
    if w == "true"@ || w == "yes"@ || w == "1"@ || w == "false"@ || w == "no"@ || w == "0"@ {
        lemma_word_value(v, w);
        lemma_one_setting("cursor"@, v);
    }
}

proof fn lemma_choice_words(v: Seq<char>)
    ensures
        ({
            let w = crate::text::lower(v);
            &&& w == "monitor"@ ==> parsed("[camera]\n"@ + "fps"@ + " = "@ + v) == Ok::<
                ConfigView,
                Seq<char>,
            >(ConfigView { fps: FpsSel::Monitor, ..default_config() })
            &&& w == "primary"@ ==> parsed("[camera]\n"@ + "monitor"@ + " = "@ + v) == Ok::<
                ConfigView,
                Seq<char>,
            >(ConfigView { monitor: MonitorSel::Primary, ..default_config() })
        }),
{
    let w = crate::text::lower(v);
    lemma_keys();
    reveal_strlit("monitor");
    reveal_strlit("primary");
    if w == "monitor"@ {
        lemma_word_value(v, w);
        lemma_one_setting("fps"@, v);
    }
    if w == "primary"@ {
        lemma_word_value(v, w);
        lemma_one_setting("monitor"@, v);
    }
}

proof fn lemma_backend_words(v: Seq<char>)
    ensures
        ({
            let w = crate::text::lower(v);
            let r = parsed("[camera]\n"@ + "backend"@ + " = "@ + v);
            &&& w == "auto"@ ==> r == Ok::<ConfigView, Seq<char>>(
                ConfigView { backend: BackendSel::Auto, ..default_config() },
            )
            &&& w == "mf"@ ==> r == Ok::<ConfigView, Seq<char>>(
                ConfigView { backend: BackendSel::MediaFoundation, ..default_config() },
            )
            &&& w == "dshow"@ ==> r == Ok::<ConfigView, Seq<char>>(
                ConfigView { backend: BackendSel::DirectShow, ..default_config() },
            )
        }),
{
    let w = crate::text::lower(v);
    lemma_keys();
    reveal_strlit("auto");
    reveal_strlit("mf");
    reveal_strlit("dshow");
    lemma_key("auto"@);
    lemma_key("mf"@);
    lemma_key("dshow"@);
    assert("auto"@[0] == 'a' && "mf"@[0] == 'm' && "dshow"@[0] == 'd');
    if w == "auto"@ || w == "mf"@ || w == "dshow"@ {
        lemma_word_value(v, w);
        lemma_one_setting("backend"@, v);
    }
}

/// Any other word is refused: no key takes it.
pub proof fn law_other_keys_and_words_are_refused(key: Seq<char>, v: Seq<char>)
    requires
        is_word(key),
        is_word(v),
    ensures
        ({
            let k = crate::text::lower(key);
            let w = crate::text::lower(v);
            let r = parsed("[camera]\n"@ + key + " = "@ + v);
            &&& r is Ok ==> k == "monitor"@ || k == "fps"@ || k == "cursor"@ || k == "name"@ || k
                == "backend"@
            &&& r is Ok && k == "monitor"@ ==> w == "primary"@
            &&& r is Ok && k == "fps"@ ==> w == "monitor"@
            &&& r is Ok && k == "cursor"@ ==> w == "true"@ || w == "yes"@ || w == "false"@ || w
                == "no"@
            &&& r is Ok && k == "backend"@ ==> w == "auto"@ || w == "mf"@ || w == "dshow"@
        }),
{
    lemma_keys();
    assert(is_plain(v)) by {
        assert forall|i: int| 0 <= i < v.len() implies ('a' <= crate::text::lower_char(
            #[trigger] v[i],
        ) <= 'z') || v[i] == '0' || v[i] == '1' by {
            assert(('a' <= v[i] <= 'z') || ('A' <= v[i] <= 'Z'));
        }
        lemma_words_are_plain(v);
    }
    lemma_one_setting(key, v);
    assert(('a' <= v[0] <= 'z') || ('A' <= v[0] <= 'Z'));
    assert(crate::text::unsigned_digits(v) == v);
    assert(!crate::text::is_digit(v[0]));
    assert(crate::text::u32_value(v) == None::<u32>);
    reveal_strlit("1");
    reveal_strlit("0");
    reveal_strlit("auto");
    reveal_strlit("mf");
    reveal_strlit("dshow");
    lemma_key("auto"@);
    lemma_key("mf"@);
    lemma_key("dshow"@);
    let w = crate::text::lower(v);
    assert(w[0] == crate::text::lower_char(v[0]));
    assert("1"@[0] == '1' && "0"@[0] == '0');
}

/// A setting outside the section is refused.
pub proof fn law_settings_need_their_section(
    key: Seq<char>,
    value: Seq<char>,
    rest: Seq<char>,
    idx: int,
    cfg: ConfigView,
)
    requires
        is_word(key),
        is_plain(value),
    ensures
        rest_effect(key + "="@ + value + seq!['\n'] + rest, idx, false, cfg) is Err,
{
    reveal_strlit("=");
    let e = Seq::<char>::empty();
    let line = line_of(key, e, e, value, e);
    assert(key + "="@ + value =~= line);
    lemma_line_parts(key, e, e, value, e);
    lemma_lower_word(key);
    assert(line.last() == value.last());
    crate::text::law_trim(e, line, e);
    assert(e + line + e =~= line);
    lemma_no_line_end(key, e, e, value, e);
    lemma_first_line(line, rest, idx, false, cfg);
}

/// A number in the section is set on top of what was set before, whatever that was, and the rest of
/// the file is read with it.
pub proof fn law_settings_add_up(n: u32, rest: Seq<char>, idx: int, cfg: ConfigView)
    ensures
        ({
            let d = crate::text::decimal(n as nat);
            &&& 1 <= n <= 240 ==> rest_effect("fps"@ + "="@ + d + seq!['\n'] + rest, idx, true, cfg)
                == rest_effect(rest, idx + 1, true, ConfigView { fps: FpsSel::Fixed(n), ..cfg })
            &&& n >= 1 ==> rest_effect("monitor"@ + "="@ + d + seq!['\n'] + rest, idx, true, cfg)
                == rest_effect(
                rest,
                idx + 1,
                true,
                ConfigView { monitor: MonitorSel::Display(n), ..cfg },
            )
            &&& 320 <= n <= 3840 && n % 2 == 0 ==> rest_effect(
                "width"@ + "="@ + d + seq!['\n'] + rest,
                idx,
                true,
                cfg,
            ) == rest_effect(rest, idx + 1, true, ConfigView { width: n, ..cfg })
            &&& 180 <= n <= 2160 && n % 2 == 0 ==> rest_effect(
                "height"@ + "="@ + d + seq!['\n'] + rest,
                idx,
                true,
                cfg,
            ) == rest_effect(rest, idx + 1, true, ConfigView { height: n, ..cfg })
        }),
{
    let d = crate::text::decimal(n as nat);
    lemma_keys();
    lemma_decimal_is_plain(n as nat);
    crate::text::law_decimal_round_trip(n);
    lemma_number_is_no_word(n as nat, "monitor"@);
    lemma_number_is_no_word(n as nat, "primary"@);
    lemma_setting_line("fps"@, d, rest, idx, cfg);
    lemma_setting_line("monitor"@, d, rest, idx, cfg);
    lemma_setting_line("width"@, d, rest, idx, cfg);
    lemma_setting_line("height"@, d, rest, idx, cfg);
}

proof fn lemma_setting_line(
    key: Seq<char>,
    value: Seq<char>,
    rest: Seq<char>,
    idx: int,
    cfg: ConfigView,
)
    requires
        is_word(key),
        is_plain(value),
    ensures
        rest_effect(key + "="@ + value + seq!['\n'] + rest, idx, true, cfg) == (match setting(
            cfg,
            crate::text::lower(key),
            value,
            idx,
        ) {
            Ok(c) => rest_effect(rest, idx + 1, true, c),
            Err(m) => Err(m),
        }),
{
    reveal_strlit("=");
    let e = Seq::<char>::empty();
    let line = line_of(key, e, e, value, e);
    assert(key + "="@ + value =~= line);
    lemma_line_parts(key, e, e, value, e);
    lemma_lower_word(key);
    assert(line.last() == value.last());
    crate::text::law_trim(e, line, e);
    assert(e + line + e =~= line);
    lemma_no_line_end(key, e, e, value, e);
    lemma_first_line(line, rest, idx, true, cfg);
}

/// The message about a file names the first line that is refused, counted from one.
pub proof fn law_message_names_the_line(
    line: Seq<char>,
    rest: Seq<char>,
    idx: int,
    in_camera: bool,
    cfg: ConfigView,
)
    requires
        forall|i: int| 0 <= i < line.len() ==> #[trigger] line[i] != '\n',
        rest_effect(line, idx, in_camera, cfg) is Err,
    ensures
        ({
            let start = "config.ini line "@ + crate::text::decimal((idx + 1) as nat) + ": "@;
            match rest_effect(line + seq!['\n'] + rest, idx, in_camera, cfg) {
                Err(m) => m.len() >= start.len() && m.take(start.len() as int) == start,
                Ok(_) => false,
            }
        }),
{
    lemma_first_line(line, rest, idx, in_camera, cfg);
    lemma_line_message(crate::text::trimmed(line), idx, in_camera, cfg);
}

spec fn starts_with(s: Seq<char>, start: Seq<char>) -> bool {
    s.len() >= start.len() && s.take(start.len() as int) == start
}

proof fn lemma_starts(start: Seq<char>, a: Seq<char>, b: Seq<char>)
    requires
        starts_with(a, start),
    ensures
        starts_with(a + b, start),
{
    assert((a + b).take(start.len() as int) =~= a.take(start.len() as int));
}

proof fn lemma_quoted(idx: int, what: Seq<char>, value: Seq<char>, end: Seq<char>)
    ensures
        starts_with(line_text(idx) + what, line_text(idx)),
        starts_with(line_text(idx) + what + value + end, line_text(idx)),
{
    let t = line_text(idx);
    assert(t.take(t.len() as int) =~= t);
    lemma_starts(t, t, what);
    lemma_starts(t, t + what, value);
    lemma_starts(t, t + what + value, end);
}

proof fn lemma_even_message(idx: int, key: Seq<char>, min: int, max: int, value: Seq<char>)
    ensures
        starts_with(even_message(idx, key, min, max, value), line_text(idx)),
{
    let t = line_text(idx);
    lemma_quoted(idx, key, " must be an even number from "@, crate::text::decimal(min as nat));
    let a = t + key + " must be an even number from "@ + crate::text::decimal(min as nat);
    lemma_starts(t, a, " to "@);
    let b = a + " to "@;
    lemma_starts(t, b, crate::text::decimal(max as nat));
    let c = b + crate::text::decimal(max as nat);
    lemma_starts(t, c, ", got '"@);
    lemma_starts(t, c + ", got '"@, value);
    lemma_starts(t, c + ", got '"@ + value, "'"@);
}

proof fn lemma_line_message(line: Seq<char>, idx: int, in_camera: bool, cfg: ConfigView)
    ensures
        line_effect(line, idx, in_camera, cfg) matches Err(m) ==> starts_with(m, line_text(idx)),
{
    let eq = crate::text::index_of(line, '=');
    let key = crate::text::lower(crate::text::trimmed(line.take(eq)));
    let value = crate::text::trimmed(before_comment(line.skip(eq + 1)));
    let section = crate::text::trimmed(line.subrange(1, line.len() - 1));
    lemma_quoted(idx, "unknown section '["@, section, "]'"@);
    lemma_quoted(idx, "expected 'key = value'"@, value, value);
    lemma_quoted(idx, "key '"@, key, "' must be inside [camera]"@);
    lemma_quoted(idx, "monitor must be 'primary' or a display number, got '"@, value, "'"@);
    lemma_quoted(idx, "fps must be 1-240 or 'monitor', got '"@, value, "'"@);
    lemma_quoted(idx, "cursor must be true or false, got '"@, value, "'"@);
    lemma_quoted(idx, "name must be 1-64 characters"@, value, value);
    lemma_quoted(idx, "backend must be auto, mf or dshow, got '"@, value, "'"@);
    lemma_quoted(idx, "unknown key '"@, key, "'"@);
    lemma_even_message(idx, "width"@, 320, 3840, value);
    lemma_even_message(idx, "height"@, 180, 2160, value);
}

/// The message about a file names its path and ends with the reason.
pub proof fn law_file_message(step: FileStep, path: Seq<char>, error: Seq<char>)
    ensures
        ({
            let m = file_message(step, path, error);
            let n = if step == FileStep::Read {
                12int
            } else if step == FileStep::Write {
                13
            } else {
                14
            };
            &&& m.len() == n + path.len() + 2 + error.len()
            &&& m.subrange(n, n + path.len()) == path
            &&& m.skip(m.len() - error.len()) == error
        }),
{
    reveal_strlit("cannot create ");
    reveal_strlit("cannot write ");
    reveal_strlit("cannot read ");
    reveal_strlit(": ");
    let m = file_message(step, path, error);
    let n = if step == FileStep::Read {
        12int
    } else if step == FileStep::Write {
        13
    } else {
        14
    };
    assert(m.subrange(n, n + path.len()) =~= path);
    assert(m.skip(m.len() - error.len()) =~= error);
}

}
