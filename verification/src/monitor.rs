//! Display selection.

use vstd::prelude::*;
use crate::config::MonitorSel;
use crate::text::{chars_of, parse_u32, push_decimal, push_decimal_int, push_text};
use crate::utf16::{cut_at_zero, decode_lossy};

verus! {

/// A rectangle on the desktop.
#[derive(Clone, Copy, PartialEq, Eq, Debug, Structural)]
pub struct Rect {
    pub left: i32,
    pub top: i32,
    pub right: i32,
    pub bottom: i32,
}

#[derive(Clone, Copy, PartialEq, Eq, Debug, Structural)]
pub struct MonitorInfo {
    /// The number that stands for the monitor.
    pub hmon: u64,
    /// N of `\\.\DISPLAYN`.
    pub number: u32,
    pub primary: bool,
    pub rect: Rect,
    pub refresh_hz: u32,
}

// ---------------------------------------------------------------------------------------------
// One monitor

/// `word` stands in `s` at `i`.
pub open spec fn stands_at(s: Seq<char>, word: Seq<char>, i: int) -> bool {
    0 <= i && i + word.len() <= s.len() && s.subrange(i, i + word.len()) == word
}

/// What stands behind the last `word` that starts before `i`; all of `s` where there is none.
pub open spec fn behind_last(s: Seq<char>, word: Seq<char>, i: int) -> Seq<char>
    decreases i,
{
    if i <= 0 {
        s
    } else if stands_at(s, word, i - 1) {
        s.skip(i - 1 + word.len())
    } else {
        behind_last(s, word, i - 1)
    }
}

/// The number in a device name: what stands behind its last `DISPLAY`; 0 where that is none.
pub open spec fn device_number_of(device: Seq<u16>) -> u32 {
    let name = crate::utf16::text_of(crate::utf16::until_zero(device));
    match crate::text::u32_value(behind_last(name, "DISPLAY"@, name.len() as int)) {
        Some(n) => n,
        None => 0,
    }
}

fn matches_at(s: &[char], word: &[char], i: usize) -> (r: bool)
    requires
        i <= s@.len(),
    ensures
        r == stands_at(s@, word@, i as int),
{
    if word.len() > s.len() - i {
        return false;
    }
    let mut k: usize = 0;
    while k < word.len()
        invariant
            k <= word@.len(),
            i + word@.len() <= s@.len(),
            s@.len() <= usize::MAX,
            forall|j: int| 0 <= j < k ==> s@[i + j] == #[trigger] word@[j],
        decreases word@.len() - k,
    {
        if s[i + k] != word[k] {
            assert(s@.subrange(i as int, i + word@.len())[k as int] != word@[k as int]);
            return false;
        }
        k += 1;
    }
    assert(s@.subrange(i as int, i + word@.len()) =~= word@);
    true
}

/// The number of a display, from the name of its device.
pub fn device_number(device: &[u16]) -> (n: u32)
    ensures
        n == device_number_of(device@),
{
    let name = decode_lossy(cut_at_zero(device));
    let chars = chars_of(name.as_str());
    let word = chars_of("DISPLAY");
    let mut i: usize = chars.len();
    while i > 0 && !matches_at(chars.as_slice(), word.as_slice(), i - 1)
        invariant
            i <= chars@.len(),
            word@ == "DISPLAY"@,
            behind_last(chars@, word@, i as int) == behind_last(
                chars@,
                word@,
                chars@.len() as int,
            ),
        decreases i,
    {
        i -= 1;
    }
    let start: usize = if i == 0 {
        0
    } else {
        i - 1 + word.len()
    };
    let tail = vstd::slice::slice_subrange(chars.as_slice(), start, chars.len());
    assert(tail@ =~= behind_last(chars@, word@, chars@.len() as int));
    match parse_u32(tail) {
        Some(n) => n,
        None => 0,
    }
}

/// The refresh rate that Windows reports, where it reports one worth the name.
pub open spec fn refresh_of(reported: Option<u32>) -> u32 {
    match reported {
        Some(n) => if n <= 1 {
            60
        } else {
            n
        },
        None => 60,
    }
}

/// The refresh rate that Windows reports, where it reports one worth the name.
pub fn refresh_rate(reported: Option<u32>) -> (hz: u32)
    ensures
        hz == refresh_of(reported),
        hz >= 2,
{
    let hz: u32 = match reported {
        Some(n) => n,
        None => 0,
    };
    if hz <= 1 {
        60
    } else {
        hz
    }
}

/// The rectangle's sides can be computed.
pub open spec fn measurable(r: Rect) -> bool {
    &&& i32::MIN <= r.right - r.left <= i32::MAX
    &&& i32::MIN <= r.bottom - r.top <= i32::MAX
}

pub open spec fn description(m: MonitorInfo) -> Seq<char> {
    "display "@ + crate::text::decimal(m.number as nat) + (if m.primary {
        " (primary)"@
    } else {
        ""@
    }) + ": "@ + crate::text::decimal_int(m.rect.right - m.rect.left) + "x"@
        + crate::text::decimal_int(m.rect.bottom - m.rect.top) + " at ("@ + crate::text::decimal_int(
        m.rect.left as int,
    ) + ", "@ + crate::text::decimal_int(m.rect.top as int) + "), "@ + crate::text::decimal(
        m.refresh_hz as nat,
    ) + " Hz"@
}

/// A line about a display.
pub fn describe(m: &MonitorInfo) -> (s: String)
    requires
        measurable(m.rect),
    ensures
        s@ == description(*m),
{
    let mut s = String::new();
    push_text(&mut s, "display ");
    push_decimal(&mut s, m.number as u64);
    if m.primary {
        push_text(&mut s, " (primary)");
    } else {
        push_text(&mut s, "");
    }
    push_text(&mut s, ": ");
    push_decimal_int(&mut s, (m.rect.right - m.rect.left) as i64);
    push_text(&mut s, "x");
    push_decimal_int(&mut s, (m.rect.bottom - m.rect.top) as i64);
    push_text(&mut s, " at (");
    push_decimal_int(&mut s, m.rect.left as i64);
    push_text(&mut s, ", ");
    push_decimal_int(&mut s, m.rect.top as i64);
    push_text(&mut s, "), ");
    push_decimal(&mut s, m.refresh_hz as u64);
    push_text(&mut s, " Hz");
    assert(s@ =~= description(*m));
    s
}

// ---------------------------------------------------------------------------------------------
// All monitors

/// The monitors with a number, in their order.
pub open spec fn numbered(s: Seq<MonitorInfo>, n: u32) -> Seq<MonitorInfo> {
    s.filter(|m: MonitorInfo| m.number == n)
}

/// Ordered by number.
pub open spec fn ordered(s: Seq<MonitorInfo>) -> bool {
    forall|i: int, j: int| 0 <= i < j < s.len() ==> (#[trigger] s[i]).number <= (#[trigger] s[j]).number
}

/// `out` is `s` sorted by number, monitors of the same number in the order they had.
pub open spec fn sorted_from(out: Seq<MonitorInfo>, s: Seq<MonitorInfo>) -> bool {
    ordered(out) && forall|n: u32| #[trigger] numbered(out, n) == numbered(s, n)
}

proof fn lemma_numbered_insert(a: Seq<MonitorInfo>, x: MonitorInfo, b: Seq<MonitorInfo>, n: u32)
    requires
        forall|i: int| 0 <= i < b.len() ==> x.number < (#[trigger] b[i]).number,
    ensures
        numbered(a + seq![x] + b, n) == numbered((a + b).push(x), n),
{
    let f = |m: MonitorInfo| m.number == n;
    Seq::filter_distributes_over_add(a + seq![x], b, f);
    Seq::filter_distributes_over_add(a, seq![x], f);
    Seq::filter_distributes_over_add(a, b, f);
    Seq::filter_distributes_over_add(a + b, seq![x], f);
    assert((a + b).push(x) =~= (a + b) + seq![x]);
    if n == x.number {
        lemma_none_numbered(b, n);
        assert(a.filter(f) + seq![x].filter(f) + b.filter(f) =~= a.filter(f) + b.filter(f)
            + seq![x].filter(f));
    } else {
        assert(seq![x].filter(f) =~= Seq::empty()) by {
            reveal(Seq::filter);
            reveal_with_fuel(Seq::filter, 2);
        }
        assert(a.filter(f) + seq![x].filter(f) + b.filter(f) =~= a.filter(f) + b.filter(f)
            + seq![x].filter(f));
    }
}

proof fn lemma_none_numbered(s: Seq<MonitorInfo>, n: u32)
    requires
        forall|i: int| 0 <= i < s.len() ==> n < (#[trigger] s[i]).number,
    ensures
        numbered(s, n) == Seq::<MonitorInfo>::empty(),
    decreases s.len(),
{
    reveal(Seq::filter);
    if s.len() > 0 {
        lemma_none_numbered(s.drop_last(), n);
    }
}

/// Sorts the monitors by their number; those of the same number keep their order.
pub fn enumerate(found: Vec<MonitorInfo>) -> (out: Vec<MonitorInfo>)
    ensures
        sorted_from(out@, found@),
        out@.len() == found@.len(),
{
    let mut out: Vec<MonitorInfo> = Vec::new();
    let mut i: usize = 0;
    assert(found@.take(0) =~= Seq::<MonitorInfo>::empty());
    while i < found.len()
        invariant
            i <= found@.len(),
            out@.len() == i,
            sorted_from(out@, found@.take(i as int)),
        decreases found@.len() - i,
    {
        let x = found[i];
        let mut k: usize = out.len();
        while k > 0 && out[k - 1].number > x.number
            invariant
                k <= out@.len(),
                ordered(out@),
                forall|j: int| k <= j < out@.len() ==> x.number < (#[trigger] out@[j]).number,
            decreases k,
        {
            k -= 1;
        }
        let ghost before = out@;
        let ghost a = before.take(k as int);
        let ghost b = before.skip(k as int);
        out.insert(k, x);
        proof {
            assert(out@ =~= a + seq![x] + b);
            assert(before =~= a + b);
            assert(found@.take(i + 1) =~= found@.take(i as int).push(x));
            assert forall|n: u32| #[trigger]
                numbered(out@, n) == numbered(found@.take(i + 1), n) by {
                lemma_numbered_insert(a, x, b, n);
                lemma_numbered_push(before, found@.take(i as int), x, n);
            }
            assert forall|p: int, q: int| 0 <= p < q < out@.len() implies (#[trigger] out@[p]).number
                <= (#[trigger] out@[q]).number by {
                let l = |j: int| if j < k {
                    j
                } else {
                    j - 1
                };
                if p != k && q != k {
                    assert(out@[p] == before[l(p)] && out@[q] == before[l(q)]);
                } else if p == k {
                    assert(out@[q] == before[q - 1]);
                } else {
                    assert(out@[p] == before[p]);
                    assert(before[k - 1].number <= x.number);
                    if p < k - 1 {
                        assert(before[p].number <= before[k - 1].number);
                    }
                }
            }
        }
        i += 1;
    }
    assert(found@.take(i as int) =~= found@);
    out
}

proof fn lemma_numbered_push(s: Seq<MonitorInfo>, t: Seq<MonitorInfo>, x: MonitorInfo, n: u32)
    requires
        numbered(s, n) == numbered(t, n),
    ensures
        numbered(s.push(x), n) == numbered(t.push(x), n),
{
    reveal(Seq::filter);
    assert(s.push(x).drop_last() =~= s);
    assert(t.push(x).drop_last() =~= t);
}

/// `m` is what the selection means.
pub open spec fn selected(m: MonitorInfo, sel: MonitorSel) -> bool {
    match sel {
        MonitorSel::Primary => m.primary,
        MonitorSel::Display(n) => m.number == n,
    }
}

/// How a selection is written.
pub open spec fn selection_text(sel: MonitorSel) -> Seq<char> {
    match sel {
        MonitorSel::Primary => "Primary"@,
        MonitorSel::Display(n) => "Display("@ + crate::text::decimal(n as nat) + ")"@,
    }
}

/// The numbers of monitors, with commas in between.
pub open spec fn number_list(s: Seq<MonitorInfo>) -> Seq<char>
    decreases s.len(),
{
    if s.len() == 0 {
        Seq::empty()
    } else if s.len() == 1 {
        crate::text::decimal(s[0].number as nat)
    } else {
        number_list(s.drop_last()) + ", "@ + crate::text::decimal(s.last().number as nat)
    }
}

/// The message about a monitor that is not there.
pub open spec fn not_found(s: Seq<MonitorInfo>, sel: MonitorSel) -> Seq<char> {
    "monitor "@ + selection_text(sel) + " not found; available displays: "@ + number_list(s)
}

/// The first selected monitor, or a message that lists the displays.
pub fn select(monitors: &[MonitorInfo], sel: MonitorSel) -> (r: Result<MonitorInfo, String>)
    ensures
        match r {
            Ok(m) => exists|i: int|
                0 <= i < monitors@.len() && m == #[trigger] monitors@[i] && selected(m, sel)
                    && forall|k: int| 0 <= k < i ==> !selected(#[trigger] monitors@[k], sel),
            Err(e) => {
                &&& forall|k: int|
                    0 <= k < monitors@.len() ==> !selected(#[trigger] monitors@[k], sel)
                &&& e@ == not_found(monitors@, sel)
            },
        },
{
    let mut i: usize = 0;
    while i < monitors.len()
        invariant
            i <= monitors@.len(),
            forall|k: int| 0 <= k < i ==> !selected(#[trigger] monitors@[k], sel),
        decreases monitors@.len() - i,
    {
        let m = monitors[i];
        let hit = match sel {
            MonitorSel::Primary => m.primary,
            MonitorSel::Display(n) => m.number == n,
        };
        if hit {
            assert(m == monitors@[i as int]);
            return Ok(m);
        }
        i += 1;
    }
    let mut s = String::new();
    push_text(&mut s, "monitor ");
    match sel {
        MonitorSel::Primary => push_text(&mut s, "Primary"),
        MonitorSel::Display(n) => {
            push_text(&mut s, "Display(");
            push_decimal(&mut s, n as u64);
            push_text(&mut s, ")");
        },
    }
    push_text(&mut s, " not found; available displays: ");
    let ghost head = "monitor "@ + selection_text(sel) + " not found; available displays: "@;
    assert(s@ =~= head);
    let mut k: usize = 0;
    while k < monitors.len()
        invariant
            k <= monitors@.len(),
            s@ == head + number_list(monitors@.take(k as int)),
        decreases monitors@.len() - k,
    {
        if k > 0 {
            push_text(&mut s, ", ");
        }
        push_decimal(&mut s, monitors[k].number as u64);
        k += 1;
        assert(monitors@.take(k as int).drop_last() =~= monitors@.take(k - 1));
        assert(s@ =~= head + number_list(monitors@.take(k as int)));
    }
    assert(monitors@.take(k as int) =~= monitors@);
    assert(s@ =~= not_found(monitors@, sel));
    Err(s)
}

/// The number of a display is the number at the end of its device name, behind the last `DISPLAY`;
/// what follows the closing zero does not count.
pub proof fn law_display_number_is_read(front: Seq<char>, n: u32, junk: Seq<u16>)
    requires
        forall|i: int| 0 <= i < front.len() ==> #[trigger] front[i] != '\0',
    ensures
        device_number_of(
            crate::utf16::units(front + "DISPLAY"@ + crate::text::decimal(n as nat)) + seq![0u16]
                + junk,
        ) == n,
{
    let d = crate::text::decimal(n as nat);
    let word = "DISPLAY"@;
    let s = front + word + d;
    reveal_strlit("DISPLAY");
    crate::text::law_decimal_is_digits(n as nat);
    crate::text::law_decimal_round_trip(n);
    assert forall|i: int| 0 <= i < s.len() implies #[trigger] s[i] != '\0' by {
        if i < front.len() {
            assert(s[i] == front[i]);
        } else if i < front.len() + word.len() {
            assert(s[i] == word[i - front.len()]);
        } else {
            assert(s[i] == d[i - front.len() - word.len()]);
            assert(crate::text::is_digit(d[i - front.len() - word.len()]));
        }
    }
    crate::utf16::law_field_ends_at_zero(s, junk);
    crate::utf16::law_round_trip(s);
    let p: int = front.len() as int;
    assert forall|i: int| p < i < s.len() implies !stands_at(s, word, i) by {
        if stands_at(s, word, i) {
            assert(s.subrange(i, i + word.len())[0] == s[i]);
            assert(word[0] == 'D');
            if i < p + word.len() {
                assert(s[i] == word[i - p]);
            } else {
                assert(s[i] == d[i - p - word.len()]);
                assert(crate::text::is_digit(d[i - p - word.len()]));
            }
        }
    }
    assert(s.subrange(p, p + word.len()) =~= word);
    lemma_behind_last(s, word, s.len() as int, p);
    assert(s.skip(p + word.len()) =~= d);
}

proof fn lemma_behind_last(s: Seq<char>, word: Seq<char>, i: int, p: int)
    requires
        0 <= p < i <= s.len(),
        stands_at(s, word, p),
        forall|k: int| p < k < s.len() ==> !stands_at(s, word, k),
    ensures
        behind_last(s, word, i) == s.skip(p + word.len()),
    decreases i,
{
    if i - 1 > p {
        assert(!stands_at(s, word, i - 1));
        lemma_behind_last(s, word, i - 1, p);
    }
}

/// A selection means the primary monitor, or those with its number.
pub proof fn law_selection(m: MonitorInfo, n: u32)
    ensures
        selected(m, MonitorSel::Primary) <==> m.primary,
        selected(m, MonitorSel::Display(n)) <==> m.number == n,
{
}

/// A monitor's description tells its number, whether it is the primary one, its place, its size and
/// its rate, whatever follows.
pub proof fn law_description_tells_the_monitor(
    a: MonitorInfo,
    s: Seq<char>,
    b: MonitorInfo,
    t: Seq<char>,
)
    requires
        description(a) + s == description(b) + t,
    ensures
        a.number == b.number,
        a.primary == b.primary,
        a.rect == b.rect,
        a.refresh_hz == b.refresh_hz,
        s == t,
{
    let p = "display "@;
    lemma_described(a, s);
    lemma_described(b, t);
    crate::text::law_same_rest(p, numbered_text(a, s), numbered_text(b, t));
    lemma_mark(a, placed_text(a, s));
    lemma_mark(b, placed_text(b, t));
    let (x, y) = (mark(a) + placed_text(a, s), mark(b) + placed_text(b, t));
    crate::text::law_number_ends_at_text(a.number as nat, x, b.number as nat, y);
    assert(x[1] == (if a.primary {
        '('
    } else {
        ' '
    }));
    assert(y[1] == (if b.primary {
        '('
    } else {
        ' '
    }));
    crate::text::law_same_rest(mark(a), placed_text(a, s), placed_text(b, t));
    lemma_place(a, s, b, t);
}

spec fn mark(m: MonitorInfo) -> Seq<char> {
    (if m.primary {
        " (primary)"@
    } else {
        ""@
    }) + ": "@
}

spec fn numbered_text(m: MonitorInfo, s: Seq<char>) -> Seq<char> {
    crate::text::decimal(m.number as nat) + (mark(m) + placed_text(m, s))
}

spec fn placed_text(m: MonitorInfo, s: Seq<char>) -> Seq<char> {
    crate::text::decimal_int(m.rect.right - m.rect.left) + ("x"@ + (crate::text::decimal_int(
        m.rect.bottom - m.rect.top,
    ) + (" at ("@ + (crate::text::decimal_int(m.rect.left as int) + (", "@ + (
    crate::text::decimal_int(m.rect.top as int) + ("), "@ + (crate::text::decimal(
        m.refresh_hz as nat,
    ) + (" Hz"@ + s)))))))))
}

proof fn lemma_described(m: MonitorInfo, s: Seq<char>)
    ensures
        description(m) + s == "display "@ + numbered_text(m, s),
{
    let (x, at, comma, end, hz) = ("x"@, " at ("@, ", "@, "), "@, " Hz"@);
    let colon = ": "@;
    let primary = if m.primary {
        " (primary)"@
    } else {
        ""@
    };
    let w = crate::text::decimal_int(m.rect.right - m.rect.left);
    let h = crate::text::decimal_int(m.rect.bottom - m.rect.top);
    let l = crate::text::decimal_int(m.rect.left as int);
    let t = crate::text::decimal_int(m.rect.top as int);
    let r = crate::text::decimal(m.refresh_hz as nat);
    let p0 = "display "@;
    let p1 = p0 + crate::text::decimal(m.number as nat);
    let p2 = p1 + primary;
    let p3 = p2 + colon;
    lemma_regrouped(p3, w, x, h, at, l, comma, t, end, r, hz, s);
    let placed = placed_text(m, s);
    crate::text::law_joined_texts(p2, colon, placed);
    crate::text::law_joined_texts(p1, primary, colon + placed);
    crate::text::law_joined_texts(primary, colon, placed);
    crate::text::law_joined_texts(
        p0,
        crate::text::decimal(m.number as nat),
        mark(m) + placed,
    );
}

proof fn lemma_regrouped(
    p: Seq<char>,
    w: Seq<char>,
    x: Seq<char>,
    h: Seq<char>,
    at: Seq<char>,
    l: Seq<char>,
    comma: Seq<char>,
    t: Seq<char>,
    end: Seq<char>,
    r: Seq<char>,
    hz: Seq<char>,
    s: Seq<char>,
)
    ensures
        p + w + x + h + at + l + comma + t + end + r + hz + s == p + (w + (x + (h + (at + (l + (comma
            + (t + (end + (r + (hz + s)))))))))),
{
    let p1 = p + w;
    let p2 = p1 + x;
    let p3 = p2 + h;
    let p4 = p3 + at;
    let p5 = p4 + l;
    let p6 = p5 + comma;
    let p7 = p6 + t;
    let p8 = p7 + end;
    let p9 = p8 + r;
    let s1 = hz + s;
    let s2 = r + s1;
    let s3 = end + s2;
    let s4 = t + s3;
    let s5 = comma + s4;
    let s6 = l + s5;
    let s7 = at + s6;
    let s8 = h + s7;
    let s9 = x + s8;
    crate::text::law_joined_texts(p9, hz, s);
    crate::text::law_joined_texts(p8, r, s1);
    crate::text::law_joined_texts(p7, end, s2);
    crate::text::law_joined_texts(p6, t, s3);
    crate::text::law_joined_texts(p5, comma, s4);
    crate::text::law_joined_texts(p4, l, s5);
    crate::text::law_joined_texts(p3, at, s6);
    crate::text::law_joined_texts(p2, h, s7);
    crate::text::law_joined_texts(p1, x, s8);
    crate::text::law_joined_texts(p, w, s9);
}

proof fn lemma_mark(m: MonitorInfo, s: Seq<char>)
    ensures
        (mark(m) + s)[0] == (if m.primary {
            ' '
        } else {
            ':'
        }),
        (mark(m) + s)[1] == (if m.primary {
            '('
        } else {
            ' '
        }),
        mark(m).len() > 1,
{
    reveal_strlit(" (primary)");
    reveal_strlit("");
    reveal_strlit(": ");
}

proof fn lemma_place(a: MonitorInfo, s: Seq<char>, b: MonitorInfo, t: Seq<char>)
    requires
        placed_text(a, s) == placed_text(b, t),
    ensures
        a.rect == b.rect,
        a.refresh_hz == b.refresh_hz,
        s == t,
{
    reveal_strlit("x");
    reveal_strlit(" at (");
    reveal_strlit(", ");
    reveal_strlit("), ");
    reveal_strlit(" Hz");
    let (x, at, comma, end, hz) = ("x"@, " at ("@, ", "@, "), "@, " Hz"@);
    let (ra, rb) = (a.rect, b.rect);
    let (a5, b5) = (hz + s, hz + t);
    let a4 = end + (crate::text::decimal(a.refresh_hz as nat) + a5);
    let b4 = end + (crate::text::decimal(b.refresh_hz as nat) + b5);
    let a3 = comma + (crate::text::decimal_int(ra.top as int) + a4);
    let b3 = comma + (crate::text::decimal_int(rb.top as int) + b4);
    let a2 = at + (crate::text::decimal_int(ra.left as int) + a3);
    let b2 = at + (crate::text::decimal_int(rb.left as int) + b3);
    let a1 = x + (crate::text::decimal_int(ra.bottom - ra.top) + a2);
    let b1 = x + (crate::text::decimal_int(rb.bottom - rb.top) + b2);
    assert(a1[0] == 'x' && b1[0] == 'x');
    crate::text::law_signed_number_ends_at_text(ra.right - ra.left, a1, rb.right - rb.left, b1);
    crate::text::law_same_rest(
        x,
        crate::text::decimal_int(ra.bottom - ra.top) + a2,
        crate::text::decimal_int(rb.bottom - rb.top) + b2,
    );
    assert(a2[0] == ' ' && b2[0] == ' ');
    crate::text::law_signed_number_ends_at_text(ra.bottom - ra.top, a2, rb.bottom - rb.top, b2);
    crate::text::law_same_rest(
        at,
        crate::text::decimal_int(ra.left as int) + a3,
        crate::text::decimal_int(rb.left as int) + b3,
    );
    assert(a3[0] == ',' && b3[0] == ',');
    crate::text::law_signed_number_ends_at_text(ra.left as int, a3, rb.left as int, b3);
    crate::text::law_same_rest(
        comma,
        crate::text::decimal_int(ra.top as int) + a4,
        crate::text::decimal_int(rb.top as int) + b4,
    );
    assert(a4[0] == ')' && b4[0] == ')');
    crate::text::law_signed_number_ends_at_text(ra.top as int, a4, rb.top as int, b4);
    crate::text::law_same_rest(
        end,
        crate::text::decimal(a.refresh_hz as nat) + a5,
        crate::text::decimal(b.refresh_hz as nat) + b5,
    );
    assert(a5[0] == ' ' && b5[0] == ' ');
    crate::text::law_number_ends_at_text(a.refresh_hz as nat, a5, b.refresh_hz as nat, b5);
    crate::text::law_same_rest(hz, s, t);
}

/// The list in the message about a missing monitor names every display: other displays give another
/// list.
pub proof fn law_list_names_all(a: Seq<MonitorInfo>, b: Seq<MonitorInfo>)
    requires
        number_list(a) == number_list(b),
    ensures
        a.len() == b.len(),
        forall|i: int| 0 <= i < a.len() ==> (#[trigger] a[i]).number == b[i].number,
    decreases a.len(),
{
    reveal_strlit(", ");
    lemma_list_end(a);
    lemma_list_end(b);
    if a.len() > 0 && b.len() > 0 {
        let (m, n) = (a.last().number as nat, b.last().number as nat);
        crate::text::law_number_starts_behind_text(list_front(a), m, list_front(b), n);
        if a.len() > 1 {
            assert(list_front(a).len() > 0);
            assert(b.len() > 1);
            let (x, y) = (number_list(a.drop_last()), number_list(b.drop_last()));
            assert(x =~= list_front(a).take(list_front(a).len() - 2));
            assert(y =~= list_front(b).take(list_front(b).len() - 2));
            law_list_names_all(a.drop_last(), b.drop_last());
            assert forall|i: int| 0 <= i < a.len() implies (#[trigger] a[i]).number == b[i].number by {
                if i < a.len() - 1 {
                    assert(a.drop_last()[i].number == b.drop_last()[i].number);
                }
            }
        }
    }
}

spec fn list_front(s: Seq<MonitorInfo>) -> Seq<char> {
    if s.len() < 2 {
        Seq::empty()
    } else {
        number_list(s.drop_last()) + ", "@
    }
}

proof fn lemma_list_end(s: Seq<MonitorInfo>)
    ensures
        s.len() == 0 ==> number_list(s).len() == 0,
        s.len() > 0 ==> number_list(s) == list_front(s) + crate::text::decimal(
            s.last().number as nat,
        ) && number_list(s).len() > 0,
        list_front(s).len() > 0 ==> list_front(s).last() == ' ',
        s.len() > 1 ==> list_front(s).len() > 1,
{
    reveal_strlit(", ");
    if s.len() > 0 {
        crate::text::law_decimal_is_digits(s.last().number as nat);
        assert(number_list(s) =~= list_front(s) + crate::text::decimal(s.last().number as nat));
    }
}

/// Sorting neither loses nor adds a monitor, and a lower number comes first.
pub proof fn law_sorting(out: Seq<MonitorInfo>, s: Seq<MonitorInfo>, m: MonitorInfo, i: int, j: int)
    requires
        sorted_from(out, s),
        0 <= i < out.len(),
        0 <= j < out.len(),
    ensures
        out.contains(m) <==> s.contains(m),
        out[i].number < out[j].number ==> i < j,
{
    assert(numbered(out, m.number) == numbered(s, m.number));
    lemma_kept(out, m);
    lemma_kept(s, m);
}

proof fn lemma_kept(s: Seq<MonitorInfo>, m: MonitorInfo)
    ensures
        s.contains(m) <==> numbered(s, m.number).contains(m),
    decreases s.len(),
{
    reveal(Seq::filter);
    if s.len() > 0 {
        let rest = s.drop_last();
        let (some, all) = (numbered(rest, m.number), numbered(s, m.number));
        lemma_kept(rest, m);
        assert(s =~= rest.push(s.last()));
        lemma_last_or_earlier(rest, s.last(), m);
        lemma_last_or_earlier(some, s.last(), m);
    }
}

proof fn lemma_last_or_earlier(s: Seq<MonitorInfo>, x: MonitorInfo, m: MonitorInfo)
    ensures
        s.push(x).contains(m) <==> s.contains(m) || x == m,
{
    let t = s.push(x);
    if s.contains(m) {
        let k = choose|k: int| 0 <= k < s.len() && s[k] == m;
        assert(t[k] == m);
    }
    if x == m {
        assert(t[s.len() as int] == m);
    }
    if t.contains(m) {
        let k = choose|k: int| 0 <= k < t.len() && t[k] == m;
        assert(k < s.len() ==> s[k] == m);
    }
}

/// Every reported rate from 2 on is taken as it is; without one worth the name 60 is assumed.
pub proof fn law_refresh_rate(n: u32)
    ensures
        n > 1 ==> refresh_of(Some(n)) == n,
        n < 2 ==> refresh_of(Some(n)) == 60,
        refresh_of(None) == 60,
{
}

}
