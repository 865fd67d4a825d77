//! Text primitives on characters: decimal numbers, white space, ASCII case and splitting.
//!
//! Strings are seen as sequences of `char`. Every executable function below is specified by a
//! function on `Seq<char>` of the same meaning.

use vstd::prelude::*;

verus! {

/// `String::push` appends one character.
pub assume_specification[ String::push ](s: &mut String, c: char)
    ensures
        final(s)@ == old(s)@.push(c),
;

/// Collects the characters of a string.
pub fn chars_of(s: &str) -> (v: Vec<char>)
    ensures
        v@ == s@,
{
    let mut v: Vec<char> = Vec::new();
    for c in it: s.chars()
        invariant
            it.seq() == s@,
            v@ == s@.take(it.index() as int),
    {
        v.push(c);
    }
    v
}

/// Appends characters to a string.
pub fn push_chars(out: &mut String, s: &[char])
    ensures
        final(out)@ == old(out)@ + s@,
{
    let mut i: usize = 0;
    while i < s.len()
        invariant
            i <= s@.len(),
            out@ == old(out)@ + s@.take(i as int),
        decreases s@.len() - i,
    {
        out.push(s[i]);
        i += 1;
        assert(s@.take(i as int) == s@.take(i - 1).push(s@[i - 1]));
    }
    assert(s@.take(i as int) == s@);
}

/// Appends a string to a string.
pub fn push_text(out: &mut String, s: &str)
    ensures
        final(out)@ == old(out)@ + s@,
{
    let v = chars_of(s);
    push_chars(out, &v);
}

/// A string with the given characters.
pub fn string_of(s: &[char]) -> (out: String)
    ensures
        out@ == s@,
{
    let mut out = String::new();
    push_chars(&mut out, s);
    out
}

// ---------------------------------------------------------------------------------------------
// Decimal numbers

/// The character of a decimal digit.
pub open spec fn digit_char(d: int) -> char {
    ('0' as int + d) as char
}

/// Decimal notation of `n`, without leading zeros.
pub open spec fn decimal(n: nat) -> Seq<char>
    decreases n,
{
    if n < 10 {
        seq![digit_char(n as int)]
    } else {
        decimal(n / 10).push(digit_char((n % 10) as int))
    }
}

/// Decimal notation of a signed number.
pub open spec fn decimal_int(n: int) -> Seq<char> {
    if n < 0 {
        seq!['-'] + decimal((-n) as nat)
    } else {
        decimal(n as nat)
    }
}

/// Appends the decimal notation of `n`.
pub fn push_decimal(out: &mut String, n: u64)
    ensures
        final(out)@ == old(out)@ + decimal(n as nat),
    decreases n,
{
    if n >= 10 {
        push_decimal(out, n / 10);
    }
    let d: u8 = (n % 10) as u8;
    out.push((48 + d) as char);
    assert(out@ =~= old(out)@ + decimal(n as nat));
}

/// Appends the decimal notation of a signed number.
pub fn push_decimal_int(out: &mut String, n: i64)
    ensures
        final(out)@ == old(out)@ + decimal_int(n as int),
{
    if n < 0 {
        out.push('-');
        let m: u64 = (-(n as i128)) as u64;
        push_decimal(out, m);
        assert(out@ =~= old(out)@ + decimal_int(n as int));
    } else {
        push_decimal(out, n as u64);
    }
}

/// Whether `c` is an ASCII decimal digit.
pub open spec fn is_digit(c: char) -> bool {
    '0' <= c <= '9'
}

/// The number that a sequence of digits denotes.
pub open spec fn digits_value(s: Seq<char>) -> nat
    decreases s.len(),
{
    if s.len() == 0 {
        0
    } else {
        (digits_value(s.drop_last()) * 10 + (s.last() as int - '0' as int)) as nat
    }
}

/// What is left of a number's text behind an optional plus sign.
pub open spec fn unsigned_digits(s: Seq<char>) -> Seq<char> {
    if s.len() > 0 && s[0] == '+' {
        s.skip(1)
    } else {
        s
    }
}

/// The 32-bit number that a text denotes: one or more digits behind an optional plus sign,
/// `None` for anything else and for a number that does not fit.
pub open spec fn u32_value(s: Seq<char>) -> Option<u32> {
    let d = unsigned_digits(s);
    if d.len() > 0 && (forall|i: int| 0 <= i < d.len() ==> is_digit(#[trigger] d[i])) && digits_value(
        d,
    ) <= u32::MAX {
        Some(digits_value(d) as u32)
    } else {
        None
    }
}

proof fn lemma_digits_value_grows(s: Seq<char>, i: int)
    requires
        0 <= i <= s.len(),
        forall|k: int| 0 <= k < s.len() ==> is_digit(#[trigger] s[k]),
    ensures
        digits_value(s.take(i)) <= digits_value(s),
    decreases s.len() - i,
{
    if i < s.len() {
        assert(s.take(i + 1).drop_last() == s.take(i));
        lemma_digits_value_grows(s, i + 1);
    } else {
        assert(s.take(i) == s);
    }
}

/// Parses a 32-bit number.
pub fn parse_u32(s: &[char]) -> (r: Option<u32>)
    ensures
        r == u32_value(s@),
{
    let start: usize = if s.len() > 0 && s[0] == '+' {
        1
    } else {
        0
    };
    let ghost d = unsigned_digits(s@);
    assert(d == s@.skip(start as int));
    if s.len() == start {
        return None;
    }
    let mut i: usize = start;
    let mut value: u64 = 0;
    while i < s.len()
        invariant
            start <= i <= s@.len(),
            start <= 1,
            d == s@.skip(start as int),
            d == unsigned_digits(s@),
            forall|k: int| 0 <= k < i - start ==> is_digit(#[trigger] d[k]),
            value == digits_value(d.take(i - start)),
            value <= u32::MAX,
        decreases s@.len() - i,
    {
        let c = s[i];
        assert(d[i - start] == c);
        if !('0' <= c && c <= '9') {
            return None;
        }
        assert(d.take(i - start + 1).drop_last() == d.take(i - start));
        value = value * 10 + (c as u64 - '0' as u64);
        if value > 0xffff_ffff {
            proof {
                if forall|k: int| 0 <= k < d.len() ==> is_digit(#[trigger] d[k]) {
                    lemma_digits_value_grows(d, i - start + 1);
                }
            }
            return None;
        }
        i += 1;
    }
    assert(d.take(i - start) == d);
    Some(value as u32)
}

proof fn lemma_decimal_digits(n: nat)
    ensures
        decimal(n).len() > 0,
        forall|i: int| 0 <= i < decimal(n).len() ==> is_digit(#[trigger] decimal(n)[i]),
        digits_value(decimal(n)) == n,
    decreases n,
{
    reveal_with_fuel(digits_value, 2);
    if n < 10 {
        assert(decimal(n).drop_last() == Seq::<char>::empty());
    } else {
        lemma_decimal_digits(n / 10);
        assert(decimal(n).drop_last() == decimal(n / 10));
    }
}

/// Reading the decimal notation of a 32-bit number gives the number back.
pub proof fn law_decimal_round_trip(n: u32)
    ensures
        u32_value(decimal(n as nat)) == Some(n),
{
    lemma_decimal_digits(n as nat);
    assert(is_digit(decimal(n as nat)[0]));
}

/// Different numbers have different decimal notations.
pub proof fn law_decimal_injective(m: nat, n: nat)
    requires
        decimal(m) == decimal(n),
    ensures
        m == n,
{
    lemma_decimal_digits(m);
    lemma_decimal_digits(n);
}

/// Decimal notation consists of digits only.
pub proof fn law_decimal_is_digits(n: nat)
    ensures
        decimal(n).len() > 0,
        forall|i: int| 0 <= i < decimal(n).len() ==> is_digit(#[trigger] decimal(n)[i]),
{
    lemma_decimal_digits(n);
}

// ---------------------------------------------------------------------------------------------
// White space

/// The characters with the Unicode property `White_Space`.
pub open spec fn is_space(c: char) -> bool {
    let n = c as int;
    ||| 0x09 <= n <= 0x0d
    ||| n == 0x20
    ||| n == 0x85
    ||| n == 0xa0
    ||| n == 0x1680
    ||| 0x2000 <= n <= 0x200a
    ||| n == 0x2028
    ||| n == 0x2029
    ||| n == 0x202f
    ||| n == 0x205f
    ||| n == 0x3000
}

/// Whether `c` is white space.
pub fn is_white_space(c: char) -> (r: bool)
    ensures
        r == is_space(c),
{
    let n: u32 = c as u32;
    (0x09 <= n && n <= 0x0d) || n == 0x20 || n == 0x85 || n == 0xa0 || n == 0x1680 || (0x2000 <= n && n
        <= 0x200a) || n == 0x2028 || n == 0x2029 || n == 0x202f || n == 0x205f || n == 0x3000
}

/// `s` without the white space in front.
pub open spec fn trim_start(s: Seq<char>) -> Seq<char>
    decreases s.len(),
{
    if s.len() > 0 && is_space(s[0]) {
        trim_start(s.skip(1))
    } else {
        s
    }
}

/// `s` without the white space at its end.
pub open spec fn trim_end(s: Seq<char>) -> Seq<char>
    decreases s.len(),
{
    if s.len() > 0 && is_space(s.last()) {
        trim_end(s.drop_last())
    } else {
        s
    }
}

/// `s` without the white space around it.
pub open spec fn trimmed(s: Seq<char>) -> Seq<char> {
    trim_end(trim_start(s))
}

/// Removes the white space around `s`.
pub fn trim(s: &[char]) -> (r: &[char])
    ensures
        r@ == trimmed(s@),
{
    let mut i: usize = 0;
    assert(s@.skip(0) == s@);
    while i < s.len() && is_white_space(s[i])
        invariant
            i <= s@.len(),
            trim_start(s@.skip(i as int)) == trim_start(s@),
        decreases s@.len() - i,
    {
        assert(s@.skip(i as int).skip(1) == s@.skip(i + 1));
        i += 1;
    }
    assert(trim_start(s@) == s@.skip(i as int));
    let mut j: usize = s.len();
    assert(s@.subrange(i as int, j as int) == s@.skip(i as int));
    while j > i && is_white_space(s[j - 1])
        invariant
            i <= j <= s@.len(),
            trim_end(s@.subrange(i as int, j as int)) == trimmed(s@),
        decreases j,
    {
        assert(s@.subrange(i as int, j as int).drop_last() == s@.subrange(i as int, j - 1));
        j -= 1;
    }
    vstd::slice::slice_subrange(s, i, j)
}

// ---------------------------------------------------------------------------------------------
// ASCII case

/// The ASCII lower-case form of `c`; other characters stand for themselves.
pub open spec fn lower_char(c: char) -> char {
    if 'A' <= c <= 'Z' {
        (c as int + 32) as char
    } else {
        c
    }
}

/// The ASCII lower-case form of `s`.
pub open spec fn lower(s: Seq<char>) -> Seq<char> {
    s.map_values(|c: char| lower_char(c))
}

/// Puts `c` into ASCII lower case.
pub fn to_lower_char(c: char) -> (r: char)
    ensures
        r == lower_char(c),
{
    if 'A' <= c && c <= 'Z' {
        ((c as u8) + 32) as char
    } else {
        c
    }
}

/// Puts `s` into ASCII lower case.
pub fn to_lower(s: &[char]) -> (v: Vec<char>)
    ensures
        v@ == lower(s@),
{
    let mut v: Vec<char> = Vec::new();
    let mut i: usize = 0;
    while i < s.len()
        invariant
            i <= s@.len(),
            v@ == lower(s@.take(i as int)),
        decreases s@.len() - i,
    {
        v.push(to_lower_char(s[i]));
        i += 1;
        assert(v@ =~= lower(s@.take(i as int)));
    }
    assert(s@.take(i as int) == s@);
    v
}

/// Whether `s` has exactly the characters of `t`.
pub fn equals(s: &[char], t: &str) -> (r: bool)
    ensures
        r == (s@ == t@),
{
    let u = chars_of(t);
    if s.len() != u.len() {
        return false;
    }
    let mut i: usize = 0;
    while i < s.len()
        invariant
            i <= s@.len(),
            s@.len() == u@.len(),
            u@ == t@,
            s@.take(i as int) == u@.take(i as int),
        decreases s@.len() - i,
    {
        if s[i] != u[i] {
            assert(s@[i as int] != t@[i as int]);
            return false;
        }
        i += 1;
        assert(s@.take(i as int) == s@.take(i - 1).push(s@[i - 1]));
        assert(u@.take(i as int) == u@.take(i - 1).push(u@[i - 1]));
    }
    assert(s@.take(i as int) == s@);
    assert(u@.take(i as int) == u@);
    true
}

/// Whether `s` equals `t` when ASCII case is ignored.
pub fn equals_ignore_case(s: &[char], t: &str) -> (r: bool)
    ensures
        r == (lower(s@) == lower(t@)),
{
    let s = to_lower(s);
    let t = chars_of(t);
    let t = to_lower(&t);
    let t = string_of(&t);
    equals(&s, t.as_str())
}

// ---------------------------------------------------------------------------------------------
// Splitting

/// The position of the first `c` in `s`, or the length of `s`.
pub open spec fn index_of(s: Seq<char>, c: char) -> int
    decreases s.len(),
{
    if s.len() == 0 || s[0] == c {
        0
    } else {
        1 + index_of(s.skip(1), c)
    }
}

/// The position of the first `c` in `s`, or the length of `s`.
pub proof fn law_index_of(s: Seq<char>, c: char)
    ensures
        0 <= index_of(s, c) <= s.len(),
        forall|k: int| 0 <= k < index_of(s, c) ==> s[k] != c,
        index_of(s, c) < s.len() ==> s[index_of(s, c)] == c,
    decreases s.len(),
{
    if s.len() > 0 && s[0] != c {
        law_index_of(s.skip(1), c);
        assert forall|k: int| 0 <= k < index_of(s, c) implies s[k] != c by {
            if k > 0 {
                assert(s.skip(1)[k - 1] != c);
            }
        }
    }
}

proof fn lemma_index_of_at(s: Seq<char>, c: char, n: int)
    requires
        0 <= n <= s.len(),
        forall|k: int| 0 <= k < n ==> s[k] != c,
        n < s.len() ==> s[n] == c,
    ensures
        index_of(s, c) == n,
{
    law_index_of(s, c);
}

/// The position of the first `c` in `s`, or the length of `s`.
pub fn find(s: &[char], c: char) -> (n: usize)
    ensures
        n == index_of(s@, c),
        n <= s@.len(),
        forall|k: int| 0 <= k < n ==> s@[k] != c,
        n < s@.len() ==> s@[n as int] == c,
{
    let mut n: usize = 0;
    while n < s.len() && s[n] != c
        invariant
            n <= s@.len(),
            forall|k: int| 0 <= k < n ==> s@[k] != c,
        decreases s@.len() - n,
    {
        n += 1;
    }
    proof {
        lemma_index_of_at(s@, c, n as int);
    }
    n
}

// ---------------------------------------------------------------------------------------------
// Laws

/// `s` is white space.
pub open spec fn is_blank(s: Seq<char>) -> bool {
    forall|i: int| 0 <= i < s.len() ==> is_space(#[trigger] s[i])
}

/// Trimming takes away the white space around a text and nothing else.
pub proof fn law_trim(a: Seq<char>, s: Seq<char>, b: Seq<char>)
    requires
        is_blank(a),
        is_blank(b),
        s.len() > 0 ==> !is_space(s[0]) && !is_space(s.last()),
    ensures
        trimmed(a + s + b) == s,
{
    let t = s + b;
    assert(a + s + b =~= a + t);
    lemma_trim_start(a, t);
    if s.len() > 0 {
        assert(t[0] == s[0]);
        assert(trim_start(t) == t);
        lemma_trim_end(s, b);
    } else {
        assert(t =~= b);
        lemma_trim_start(b, s);
        assert(b + s =~= b);
        assert(trim_start(s) == s);
        assert(trim_end(s) == s);
    }
}

proof fn lemma_trim_start(a: Seq<char>, t: Seq<char>)
    requires
        is_blank(a),
    ensures
        trim_start(a + t) == trim_start(t),
    decreases a.len(),
{
    if a.len() > 0 {
        assert((a + t)[0] == a[0]);
        assert(is_space(a[0]));
        assert((a + t).skip(1) =~= a.skip(1) + t);
        assert(is_blank(a.skip(1))) by {
            assert forall|i: int| 0 <= i < a.skip(1).len() implies is_space(#[trigger] a.skip(1)[i]) by {
                assert(is_space(a[i + 1]));
            }
        }
        lemma_trim_start(a.skip(1), t);
    } else {
        assert(a + t =~= t);
    }
}

proof fn lemma_trim_end(s: Seq<char>, b: Seq<char>)
    requires
        is_blank(b),
        s.len() > 0,
        !is_space(s.last()),
    ensures
        trim_end(s + b) == s,
    decreases b.len(),
{
    if b.len() > 0 {
        assert((s + b).last() == b.last());
        assert(is_space(b[b.len() - 1]));
        assert((s + b).drop_last() =~= s + b.drop_last());
        assert(is_blank(b.drop_last())) by {
            assert forall|i: int| 0 <= i < b.drop_last().len() implies is_space(
                #[trigger] b.drop_last()[i],
            ) by {
                assert(is_space(b[i]));
            }
        }
        lemma_trim_end(s, b.drop_last());
    } else {
        assert(s + b =~= s);
    }
}

/// Blanks, tabs and line ends are white space, visible ASCII characters are not.
pub proof fn law_ascii_space(c: char)
    requires
        c as int <= 0x7f,
    ensures
        is_space(c) == (c == ' ' || c == '\t' || c == '\n' || c == '\r' || c as int == 0x0b || c as int
            == 0x0c),
{
}

/// Lower case changes the letters from A to Z to those from a to z, and nothing else.
pub proof fn law_lower(c: char, k: int)
    requires
        0 <= k < 26,
    ensures
        c as int == 0x41 + k ==> lower_char(c) as int == 0x61 + k,
        !('A' <= c <= 'Z') ==> lower_char(c) == c,
        lower_char(lower_char(c)) == lower_char(c),
{
}

/// A number may have a plus sign and leading zeros; any character but a digit behind the sign makes
/// it no number, and so does a value beyond 32 bits.
pub proof fn law_number_notation(n: u32, s: Seq<char>, i: int)
    requires
        0 <= i < s.len(),
        !is_digit(s[i]),
        i > 0 || s[0] != '+' || s.len() == 1,
    ensures
        u32_value(seq!['+'] + decimal(n as nat)) == Some(n),
        u32_value(seq!['0'] + decimal(n as nat)) == Some(n),
        u32_value(s) == None::<u32>,
        u32_value(decimal((n + 0x1_0000_0000) as nat)) == None::<u32>,
{
    let d = decimal(n as nat);
    lemma_decimal_digits(n as nat);
    assert((seq!['+'] + d).skip(1) =~= d);
    let z = seq!['0'] + d;
    assert(forall|k: int| 0 <= k < z.len() ==> is_digit(#[trigger] z[k])) by {
        assert forall|k: int| 0 <= k < z.len() implies is_digit(#[trigger] z[k]) by {
            if k > 0 {
                assert(is_digit(d[k - 1]));
            }
        }
    }
    lemma_leading_zero(d);
    if s[0] == '+' {
        assert(s.len() == 1 || s.skip(1)[i - 1] == s[i]);
    }
    let big = decimal((n + 0x1_0000_0000) as nat);
    lemma_decimal_digits((n + 0x1_0000_0000) as nat);
    assert(is_digit(big[0]));
}

proof fn lemma_leading_zero(d: Seq<char>)
    ensures
        digits_value(seq!['0'] + d) == digits_value(d),
    decreases d.len(),
{
    let z = seq!['0'] + d;
    if d.len() > 0 {
        assert(z.drop_last() =~= seq!['0'] + d.drop_last());
        lemma_leading_zero(d.drop_last());
    } else {
        assert(z.drop_last() =~= Seq::empty());
        reveal_with_fuel(digits_value, 2);
    }
}

/// Each further digit counts one and lifts what stands before it by ten.
pub proof fn law_place_value(n: nat, k: int)
    requires
        0 <= k <= 9,
    ensures
        u32_value(decimal(n) + seq![(0x30 + k) as char]) == (if 10 * n + k <= u32::MAX {
            Some((10 * n + k) as u32)
        } else {
            None
        }),
{
    let c = (0x30 + k) as char;
    let d = decimal(n);
    let s = d + seq![c];
    lemma_decimal_digits(n);
    assert(s.drop_last() =~= d);
    assert(is_digit(c));
    assert(is_digit(d[0]));
    assert forall|i: int| 0 <= i < s.len() implies is_digit(#[trigger] s[i]) by {
        if i < d.len() {
            assert(is_digit(d[i]));
        }
    }
}

/// A number can be read off the front of a text as far as its digits go.
pub proof fn law_number_ends_at_text(m: nat, s: Seq<char>, n: nat, t: Seq<char>)
    requires
        decimal(m) + s == decimal(n) + t,
        s.len() > 0 ==> !is_digit(s[0]),
        t.len() > 0 ==> !is_digit(t[0]),
    ensures
        m == n,
        s == t,
{
    let (a, b) = (decimal(m), decimal(n));
    let whole = a + s;
    law_decimal_is_digits(m);
    law_decimal_is_digits(n);
    if a.len() < b.len() {
        let k = a.len() as int;
        assert(whole.len() == b.len() + t.len());
        assert(whole[k] == s[0] && (b + t)[k] == b[k]);
        assert(is_digit(b[k]));
    } else if b.len() < a.len() {
        let k = b.len() as int;
        assert((b + t)[k] == t[0] && whole[k] == a[k]);
        assert(is_digit(a[k]));
    }
    assert(a =~= whole.take(a.len() as int));
    assert(b =~= whole.take(b.len() as int));
    assert(s =~= whole.skip(a.len() as int));
    assert(t =~= whole.skip(b.len() as int));
    law_decimal_injective(m, n);
}

/// So can a signed number.
pub proof fn law_signed_number_ends_at_text(m: int, s: Seq<char>, n: int, t: Seq<char>)
    requires
        decimal_int(m) + s == decimal_int(n) + t,
        s.len() > 0 ==> !is_digit(s[0]),
        t.len() > 0 ==> !is_digit(t[0]),
    ensures
        m == n,
        s == t,
{
    let (x, y) = (decimal_int(m) + s, decimal_int(n) + t);
    let (a, b) = (if m < 0 {
        -m
    } else {
        m
    }, if n < 0 {
        -n
    } else {
        n
    });
    law_decimal_is_digits(a as nat);
    law_decimal_is_digits(b as nat);
    assert(x[0] == decimal_int(m)[0] && y[0] == decimal_int(n)[0]);
    assert(m >= 0 ==> is_digit(decimal(a as nat)[0]));
    assert(n >= 0 ==> is_digit(decimal(b as nat)[0]));
    assert((m < 0) == (n < 0));
    if m < 0 {
        assert(x.skip(1) =~= decimal(a as nat) + s);
        assert(y.skip(1) =~= decimal(b as nat) + t);
    }
    law_number_ends_at_text(a as nat, s, b as nat, t);
}

/// A number can be read off the end of a text as far as its digits go.
pub proof fn law_number_starts_behind_text(s: Seq<char>, m: nat, t: Seq<char>, n: nat)
    requires
        s + decimal(m) == t + decimal(n),
        s.len() > 0 ==> !is_digit(s.last()),
        t.len() > 0 ==> !is_digit(t.last()),
    ensures
        m == n,
        s == t,
{
    let (a, b) = (decimal(m), decimal(n));
    let whole = s + a;
    law_decimal_is_digits(m);
    law_decimal_is_digits(n);
    assert(whole.len() == t.len() + b.len());
    if s.len() < t.len() {
        let k = t.len() - 1;
        assert((t + b)[k] == t.last() && whole[k] == a[k - s.len()]);
        assert(is_digit(a[k - s.len()]));
    } else if t.len() < s.len() {
        let k = s.len() - 1;
        assert(whole[k] == s.last() && (t + b)[k] == b[k - t.len()]);
        assert(is_digit(b[k - t.len()]));
    }
    assert(s =~= whole.take(s.len() as int));
    assert(t =~= whole.take(t.len() as int));
    assert(a =~= whole.skip(s.len() as int));
    assert(b =~= whole.skip(t.len() as int));
    law_decimal_injective(m, n);
}

/// What follows the same beginning is the same where the whole is.
pub proof fn law_same_rest(p: Seq<char>, s: Seq<char>, t: Seq<char>)
    requires
        p + s == p + t,
    ensures
        s == t,
{
    assert(s =~= (p + s).skip(p.len() as int));
    assert(t =~= (p + t).skip(p.len() as int));
}

/// Texts may be joined in either order.
pub proof fn law_joined_texts(a: Seq<char>, b: Seq<char>, c: Seq<char>)
    ensures
        (a + b) + c == a + (b + c),
{
    assert((a + b) + c =~= a + (b + c));
}

/// Beyond ASCII, white space is the next line, the two fixed blanks, the blanks of the general
/// punctuation, its line and paragraph separators, and the ideographic blank.
pub proof fn law_wide_space(c: char)
    requires
        c as int >= 0x80,
    ensures
        is_space(c) <==> c == '\u{85}' || c == '\u{a0}' || c == '\u{1680}' || '\u{2000}' <= c
            <= '\u{200a}' || c == '\u{2028}' || c == '\u{2029}' || c == '\u{202f}' || c
            == '\u{205f}' || c == '\u{3000}',
{
}

}
