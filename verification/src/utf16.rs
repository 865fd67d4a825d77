//! UTF-16, the text form of the Windows APIs.

use vstd::prelude::*;
use crate::text::chars_of;

verus! {

/// The numbers that are characters: all up to `0x10FFFF` but the surrogates.
pub open spec fn is_scalar(n: int) -> bool {
    0 <= n <= 0x10_FFFF && !(0xD800 <= n <= 0xDFFF)
}

/// `char::from_u32` gives the character with the number `n`, and `None` where there is none.
pub assume_specification[ char::from_u32 ](n: u32) -> (r: Option<char>)
    ensures
        match r {
            Some(c) => is_scalar(n as int) && c as int == n,
            None => !is_scalar(n as int),
        },
;

/// The code units of a character.
pub open spec fn char_units(c: char) -> Seq<u16> {
    let n = c as int;
    if n < 0x1_0000 {
        seq![n as u16]
    } else {
        seq![(0xD800 + (n - 0x1_0000) / 0x400) as u16, (0xDC00 + (n - 0x1_0000) % 0x400) as u16]
    }
}

proof fn lemma_char_range(c: char)
    ensures
        is_scalar(c as int),
{
}

/// The code units of a text.
pub open spec fn units(s: Seq<char>) -> Seq<u16>
    decreases s.len(),
{
    if s.len() == 0 {
        Seq::empty()
    } else {
        units(s.drop_last()) + char_units(s.last())
    }
}

/// Encodes a text.
pub fn encode(s: &str) -> (v: Vec<u16>)
    ensures
        v@ == units(s@),
{
    let chars = chars_of(s);
    let mut v: Vec<u16> = Vec::new();
    let mut i: usize = 0;
    while i < chars.len()
        invariant
            i <= chars@.len(),
            v@ == units(chars@.take(i as int)),
        decreases chars@.len() - i,
    {
        let c = chars[i];
        proof {
            lemma_char_range(c);
        }
        let n: u32 = c as u32;
        if n < 0x1_0000 {
            v.push(n as u16);
        } else {
            v.push((0xD800 + (n - 0x1_0000) / 0x400) as u16);
            v.push((0xDC00 + (n - 0x1_0000) % 0x400) as u16);
        }
        i += 1;
        assert(chars@.take(i as int).drop_last() == chars@.take(i - 1));
        assert(v@ =~= units(chars@.take(i as int)));
    }
    assert(chars@.take(i as int) == chars@);
    v
}

/// Encodes a text and ends it with a zero unit.
pub fn encode_z(s: &str) -> (v: Vec<u16>)
    ensures
        v@ == units(s@).push(0),
{
    let mut v = encode(s);
    v.push(0);
    v
}

pub open spec fn is_high(u: u16) -> bool {
    0xD800 <= u <= 0xDBFF
}

pub open spec fn is_low(u: u16) -> bool {
    0xDC00 <= u <= 0xDFFF
}

/// The character of a surrogate pair.
pub open spec fn pair_char(high: u16, low: u16) -> char {
    (0x1_0000 + (high - 0xD800) * 0x400 + (low - 0xDC00)) as char
}

/// The text of code units; a surrogate without its partner stands for `U+FFFD`.
pub open spec fn text_of(u: Seq<u16>) -> Seq<char>
    decreases u.len(),
{
    if u.len() == 0 {
        Seq::empty()
    } else if !is_high(u[0]) && !is_low(u[0]) {
        seq![u[0] as char] + text_of(u.skip(1))
    } else if is_high(u[0]) && u.len() > 1 && is_low(u[1]) {
        seq![pair_char(u[0], u[1])] + text_of(u.skip(2))
    } else {
        seq!['\u{FFFD}'] + text_of(u.skip(1))
    }
}

/// Decodes code units; a surrogate without its partner becomes `U+FFFD`.
pub fn decode_lossy(u: &[u16]) -> (s: String)
    ensures
        s@ == text_of(u@),
{
    let mut s = String::new();
    let mut i: usize = 0;
    assert(u@.skip(0) == u@);
    while i < u.len()
        invariant
            i <= u@.len(),
            s@ + text_of(u@.skip(i as int)) == text_of(u@),
        decreases u@.len() - i,
    {
        let ghost rest = u@.skip(i as int);
        let ghost before = s@;
        let a = u[i];
        assert(rest[0] == a);
        if !(0xD800 <= a && a <= 0xDFFF) {
            match char::from_u32(a as u32) {
                Some(c) => s.push(c),
                None => {},
            }
            i += 1;
            assert(rest.skip(1) == u@.skip(i as int));
            assert(s@ + text_of(rest.skip(1)) =~= before + (seq![a as char] + text_of(rest.skip(1))));
        } else if a <= 0xDBFF && i + 1 < u.len() && 0xDC00 <= u[i + 1] && u[i + 1] <= 0xDFFF {
            let b = u[i + 1];
            assert(rest[1] == b);
            let n: u32 = 0x1_0000 + (a as u32 - 0xD800) * 0x400 + (b as u32 - 0xDC00);
            match char::from_u32(n) {
                Some(c) => s.push(c),
                None => {},
            }
            i += 2;
            assert(rest.skip(2) == u@.skip(i as int));
            assert(s@ + text_of(rest.skip(2)) =~= before + (seq![pair_char(a, b)] + text_of(
                rest.skip(2),
            )));
        } else {
            s.push('\u{FFFD}');
            i += 1;
            assert(rest.skip(1) == u@.skip(i as int));
            assert(s@ + text_of(rest.skip(1)) =~= before + (seq!['\u{FFFD}'] + text_of(
                rest.skip(1),
            )));
        }
    }
    assert(u@.skip(i as int) =~= Seq::<u16>::empty());
    assert(s@ =~= text_of(u@));
    s
}

/// Encoding goes by characters from the front as well as from the end.
proof fn lemma_units_front(s: Seq<char>)
    requires
        s.len() > 0,
    ensures
        units(s) == char_units(s[0]) + units(s.skip(1)),
    decreases s.len(),
{
    if s.len() == 1 {
        assert(s.drop_last() =~= Seq::<char>::empty());
        assert(s.skip(1) =~= Seq::<char>::empty());
        assert(units(s) =~= char_units(s[0]) + units(s.skip(1)));
    } else {
        lemma_units_front(s.drop_last());
        assert(s.drop_last().skip(1) =~= s.skip(1).drop_last());
        assert(units(s) =~= char_units(s[0]) + units(s.skip(1)));
    }
}

/// Decoding gives back every encoded text.
pub proof fn law_round_trip(s: Seq<char>)
    ensures
        text_of(units(s)) == s,
    decreases s.len(),
{
    if s.len() > 0 {
        lemma_units_front(s);
        law_round_trip(s.skip(1));
        let u = units(s);
        let c = s[0];
        let k = char_units(c).len();
        lemma_char_range(c);
        assert(u.skip(k as int) =~= units(s.skip(1)));
        if c as int >= 0x1_0000 {
            assert(pair_char(u[0], u[1]) == c);
        }
        assert(text_of(u) =~= seq![c] + s.skip(1));
        assert(s =~= seq![c] + s.skip(1));
    }
}

/// Each character takes one or two code units.
pub proof fn law_units_len(s: Seq<char>)
    ensures
        s.len() <= units(s).len() <= 2 * s.len(),
    decreases s.len(),
{
    if s.len() > 0 {
        law_units_len(s.drop_last());
    }
}

// ---------------------------------------------------------------------------------------------
// Fixed fields

/// What a field of `n` units holds of a text: at most `n - 1` units, then zeros.
pub open spec fn field(s: Seq<char>, n: int) -> Seq<u16> {
    Seq::new(
        n as nat,
        |i: int|
            if i < n - 1 && i < units(s).len() {
                units(s)[i]
            } else {
                0
            },
    )
}

/// Copies a text into a field, cut to its size and ended by zeros.
pub fn copy_name(dst: &mut [u16], name: &str)
    requires
        old(dst)@.len() > 0,
    ensures
        final(dst)@ == field(name@, old(dst)@.len() as int),
{
    let wide = encode(name);
    let mut i: usize = 0;
    while i < dst.len()
        invariant
            i <= dst@.len(),
            dst@.len() == old(dst)@.len(),
            dst@.len() > 0,
            wide@ == units(name@),
            forall|k: int|
                0 <= k < i ==> #[trigger] dst@[k] == field(name@, dst@.len() as int)[k],
        decreases dst@.len() - i,
    {
        dst[i] = if i < dst.len() - 1 && i < wide.len() {
            wide[i]
        } else {
            0
        };
        i += 1;
    }
    assert(dst@ =~= field(name@, dst@.len() as int));
}

/// Copies a text into a field, cut to its size and ended by a zero; what stood behind that stays.
pub fn copy_wide(dst: &mut [u16], text: &str)
    requires
        old(dst)@.len() > 0,
    ensures
        ({
            let n = old(dst)@.len() as int;
            let k = if units(text@).len() < n - 1 {
                units(text@).len() as int
            } else {
                n - 1
            };
            final(dst)@ == units(text@).take(k).push(0) + old(dst)@.skip(k + 1)
        }),
{
    let wide = encode(text);
    let n: usize = if wide.len() < dst.len() - 1 {
        wide.len()
    } else {
        dst.len() - 1
    };
    let mut i: usize = 0;
    while i < n
        invariant
            i <= n,
            n < dst@.len(),
            n <= wide@.len(),
            dst@.len() == old(dst)@.len(),
            forall|k: int| 0 <= k < i ==> #[trigger] dst@[k] == wide@[k],
            forall|k: int| i <= k < dst@.len() ==> #[trigger] dst@[k] == old(dst)@[k],
        decreases n - i,
    {
        dst[i] = wide[i];
        i += 1;
    }
    dst[n] = 0;
    assert(dst@ =~= wide@.take(n as int).push(0) + old(dst)@.skip(n + 1));
}

/// The units up to the first zero.
pub open spec fn until_zero(u: Seq<u16>) -> Seq<u16>
    decreases u.len(),
{
    if u.len() == 0 || u[0] == 0 {
        Seq::empty()
    } else {
        seq![u[0]] + until_zero(u.skip(1))
    }
}

/// The units up to the first zero.
pub fn cut_at_zero(u: &[u16]) -> (r: &[u16])
    ensures
        r@ == until_zero(u@),
{
    let mut n: usize = 0;
    assert(u@.skip(0) == u@);
    assert(u@.take(0) + until_zero(u@) =~= until_zero(u@));
    while n < u.len() && u[n] != 0
        invariant
            n <= u@.len(),
            u@.take(n as int) + until_zero(u@.skip(n as int)) == until_zero(u@),
        decreases u@.len() - n,
    {
        let ghost rest = u@.skip(n as int);
        n += 1;
        assert(rest.skip(1) == u@.skip(n as int));
        assert(u@.take(n as int) + until_zero(rest.skip(1)) =~= u@.take(n - 1) + (seq![rest[0]]
            + until_zero(rest.skip(1))));
    }
    assert(until_zero(u@.skip(n as int)) =~= Seq::<u16>::empty());
    assert(u@.take(n as int) =~= until_zero(u@));
    assert(u@.subrange(0, n as int) =~= u@.take(n as int));
    vstd::slice::slice_subrange(u, 0, n)
}

/// A name that fits into a field is read back from it.
pub proof fn law_field_round_trip(s: Seq<char>, n: int)
    requires
        units(s).len() < n,
        forall|i: int| 0 <= i < s.len() ==> #[trigger] s[i] != '\0',
    ensures
        text_of(until_zero(field(s, n))) == s,
{
    lemma_no_zero_unit(s);
    lemma_until_zero(field(s, n), units(s).len() as int);
    assert(field(s, n).take(units(s).len() as int) =~= units(s));
    law_round_trip(s);
}

proof fn lemma_no_zero_unit(s: Seq<char>)
    requires
        forall|i: int| 0 <= i < s.len() ==> #[trigger] s[i] != '\0',
    ensures
        forall|i: int| 0 <= i < units(s).len() ==> #[trigger] units(s)[i] != 0,
    decreases s.len(),
{
    if s.len() > 0 {
        lemma_no_zero_unit(s.drop_last());
        let c = s[s.len() - 1];
        assert(c != '\0');
        lemma_char_range(c);
        let head = units(s.drop_last());
        assert(forall|i: int| 0 <= i < char_units(c).len() ==> #[trigger] char_units(c)[i] != 0);
        assert forall|i: int| 0 <= i < units(s).len() implies #[trigger] units(s)[i] != 0 by {
            if i < head.len() {
                assert(units(s)[i] == head[i]);
            } else {
                assert(units(s)[i] == char_units(c)[i - head.len()]);
            }
        }
    }
}

proof fn lemma_until_zero(u: Seq<u16>, n: int)
    requires
        0 <= n < u.len(),
        u[n] == 0,
        forall|i: int| 0 <= i < n ==> #[trigger] u[i] != 0,
    ensures
        until_zero(u) == u.take(n),
    decreases n,
{
    if n > 0 {
        assert(u[0] != 0);
        assert forall|i: int| 0 <= i < n - 1 implies #[trigger] u.skip(1)[i] != 0 by {
            assert(u[i + 1] != 0);
        }
        lemma_until_zero(u.skip(1), n - 1);
        assert(u.take(n) =~= seq![u[0]] + u.skip(1).take(n - 1));
    } else {
        assert(u.take(0) =~= Seq::<u16>::empty());
    }
}

/// A text in a field ends at the first zero, whatever stands behind it.
pub proof fn law_field_ends_at_zero(s: Seq<char>, junk: Seq<u16>)
    requires
        forall|i: int| 0 <= i < s.len() ==> #[trigger] s[i] != '\0',
    ensures
        until_zero(units(s) + seq![0u16] + junk) == units(s),
{
    lemma_no_zero_unit(s);
    let (u, n) = (units(s), units(s).len() as int);
    let t = u + seq![0u16] + junk;
    assert forall|i: int| 0 <= i < n implies #[trigger] t[i] != 0 by {
        assert(t[i] == u[i]);
    }
    assert(t[n] == 0);
    lemma_until_zero(t, n);
    assert(t.take(n) =~= u);
}

/// A character of the basic plane is one unit, its number; any other is a high and a low surrogate
/// that together hold its number above 0x10000, ten bits each.
pub proof fn law_character_units(c: char)
    ensures
        (c as int) < 0x1_0000 ==> char_units(c).len() == 1 && char_units(c)[0] == c as int,
        (c as int) >= 0x1_0000 ==> {
            &&& char_units(c).len() == 2
            &&& 0xD800 <= char_units(c)[0] < 0xDC00
            &&& 0xDC00 <= char_units(c)[1] < 0xE000
            &&& 0x1_0000 + 0x400 * (char_units(c)[0] - 0xD800) + (char_units(c)[1] - 0xDC00)
                == c as int
        },
{
}

/// A field holds the units of a text in their order, as many as leave room for a zero, and zeros
/// behind them.
pub proof fn law_field_units(s: Seq<char>, n: int, i: int)
    requires
        0 <= i < n,
    ensures
        field(s, n).len() == n,
        i < units(s).len() && i + 1 < n ==> field(s, n)[i] == units(s)[i],
        i >= units(s).len() ==> field(s, n)[i] == 0,
        field(s, n)[n - 1] == 0,
{
}

/// Decoding goes on behind an encoded text, whatever units follow.
pub proof fn law_decoding_goes_on(s: Seq<char>, u: Seq<u16>)
    ensures
        text_of(units(s) + u) == s + text_of(u),
    decreases s.len(),
{
    if s.len() > 0 {
        let c = s[0];
        let rest = s.skip(1);
        let k = char_units(c).len() as int;
        lemma_units_front(s);
        lemma_char_range(c);
        law_decoding_goes_on(rest, u);
        let whole = units(s) + u;
        assert(whole.skip(k) =~= units(rest) + u);
        assert(whole[0] == char_units(c)[0]);
        if k == 2 {
            assert(whole[1] == char_units(c)[1]);
            assert(pair_char(whole[0], whole[1]) == c);
        }
        assert(s =~= seq![c] + rest);
        assert(text_of(whole) =~= s + text_of(u));
    } else {
        assert(units(s) + u =~= u);
        assert(s + text_of(u) =~= text_of(u));
    }
}

/// A surrogate without its partner is one replacement character, and the text around it is kept.
pub proof fn law_unpaired_surrogate(s: Seq<char>, u: u16, t: Seq<char>)
    requires
        0xD800 <= u <= 0xDFFF,
    ensures
        text_of(units(s) + (seq![u] + units(t))) == s + (seq!['\u{FFFD}'] + t),
{
    let rest = seq![u] + units(t);
    law_decoding_goes_on(s, rest);
    law_round_trip(t);
    assert(rest.skip(1) =~= units(t));
    if t.len() > 0 {
        lemma_units_front(t);
        lemma_char_range(t[0]);
        assert(rest[1] == char_units(t[0])[0]);
        assert(!is_low(rest[1]));
    }
}

}
