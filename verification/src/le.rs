//! Little-endian numbers in byte sequences.

use vstd::prelude::*;

verus! {

/// The 32-bit number at `off`.
pub open spec fn le32(s: Seq<u8>, off: int) -> int {
    s[off] + 0x100 * s[off + 1] + 0x1_0000 * s[off + 2] + 0x100_0000 * s[off + 3]
}

/// The 64-bit number at `off`.
pub open spec fn le64(s: Seq<u8>, off: int) -> int {
    le32(s, off) + 0x1_0000_0000 * le32(s, off + 4)
}

/// Byte `k` of the 32-bit number `v`.
pub open spec fn le32_byte(v: int, k: int) -> u8 {
    if k == 0 {
        (v % 256) as u8
    } else if k == 1 {
        (v / 0x100 % 256) as u8
    } else if k == 2 {
        (v / 0x1_0000 % 256) as u8
    } else {
        (v / 0x100_0000 % 256) as u8
    }
}

/// `s` and `t` agree except on the `n` bytes from `off` on.
pub open spec fn same_outside(s: Seq<u8>, t: Seq<u8>, off: int, n: int) -> bool {
    &&& s.len() == t.len()
    &&& forall|i: int| 0 <= i < s.len() && !(off <= i < off + n) ==> #[trigger] t[i] == s[i]
}

/// The low byte of `v`.
pub fn low_byte(v: u32) -> (b: u8)
    ensures
        b == v as int % 256,
{
    (v % 256) as u8
}

/// Reads the 32-bit number at `off`.
pub fn get32(s: &[u8], off: usize) -> (v: u32)
    requires
        off + 4 <= s@.len(),
    ensures
        v == le32(s@, off as int),
{
    s[off] as u32 + 0x100 * s[off + 1] as u32 + 0x1_0000 * s[off + 2] as u32 + 0x100_0000 * s[off
        + 3] as u32
}

/// Reads the 64-bit number at `off`.
pub fn get64(s: &[u8], off: usize) -> (v: u64)
    requires
        off + 8 <= s@.len(),
    ensures
        v == le64(s@, off as int),
{
    assert(s.len() == s@.len());
    get32(s, off) as u64 + 0x1_0000_0000 * get32(s, off + 4) as u64
}

/// Writes the 32-bit number at `off`.
pub fn put32(s: &mut [u8], off: usize, v: u32)
    requires
        off + 4 <= old(s)@.len(),
    ensures
        le32(final(s)@, off as int) == v,
        same_outside(old(s)@, final(s)@, off as int, 4),
{
    s[off] = low_byte(v);
    s[off + 1] = low_byte(v / 0x100);
    s[off + 2] = low_byte(v / 0x1_0000);
    s[off + 3] = low_byte(v / 0x100_0000);
}

/// Writes the 64-bit number at `off`.
pub fn put64(s: &mut [u8], off: usize, v: u64)
    requires
        off + 8 <= old(s)@.len(),
    ensures
        le64(final(s)@, off as int) == v,
        same_outside(old(s)@, final(s)@, off as int, 8),
{
    assert(s.len() == s@.len());
    put32(s, off, (v % 0x1_0000_0000) as u32);
    put32(s, off + 4, (v / 0x1_0000_0000) as u32);
}

/// A 32-bit number determines its four bytes.
pub proof fn law_le32_bytes(s: Seq<u8>, t: Seq<u8>, off: int)
    requires
        le32(s, off) == le32(t, off),
    ensures
        s[off] == t[off],
        s[off + 1] == t[off + 1],
        s[off + 2] == t[off + 2],
        s[off + 3] == t[off + 3],
{
}

/// Four bytes of a 32-bit number give the number back.
pub proof fn law_le32_of_bytes(s: Seq<u8>, off: int, v: u32)
    requires
        forall|k: int| 0 <= k < 4 ==> s[off + k] == #[trigger] le32_byte(v as int, k),
    ensures
        le32(s, off) == v,
{
    assert(s[off + 0] == le32_byte(v as int, 0));
    assert(s[off + 1] == le32_byte(v as int, 1));
    assert(s[off + 2] == le32_byte(v as int, 2));
    assert(s[off + 3] == le32_byte(v as int, 3));
}

/// The bytes of 32-bit words, one after the other.
pub open spec fn words_bytes(words: Seq<u32>) -> Seq<u8> {
    Seq::new((4 * words.len()) as nat, |i: int| le32_byte(words[i / 4] as int, i % 4))
}

/// Each word stands at its place.
pub proof fn law_words_bytes(words: Seq<u32>, i: int)
    requires
        0 <= i < words.len(),
    ensures
        le32(words_bytes(words), 4 * i) == words[i],
{
    let s = words_bytes(words);
    assert forall|k: int| 0 <= k < 4 implies s[4 * i + k] == #[trigger] le32_byte(
        words[i] as int,
        k,
    ) by {
        assert((4 * i + k) / 4 == i && (4 * i + k) % 4 == k);
    }
    law_le32_of_bytes(s, 4 * i, words[i]);
}

/// The bytes of 32-bit words, one after the other.
pub fn pack(words: &[u32]) -> (v: Vec<u8>)
    ensures
        v@ == words_bytes(words@),
{
    let mut v: Vec<u8> = Vec::new();
    let mut i: usize = 0;
    while i < words.len()
        invariant
            i <= words@.len(),
            v@.len() == 4 * i,
            forall|k: int| 0 <= k < 4 * i ==> #[trigger] v@[k] == words_bytes(words@)[k],
        decreases words@.len() - i,
    {
        let w = words[i];
        v.push(low_byte(w));
        v.push(low_byte(w / 0x100));
        v.push(low_byte(w / 0x1_0000));
        v.push(low_byte(w / 0x100_0000));
        i += 1;
    }
    assert(v@ =~= words_bytes(words@));
    v
}

/// A number is the sum of its bytes, each counting 256 times as much as the one before it.
pub proof fn law_places(s: Seq<u8>, off: int)
    ensures
        le32(s, off) == s[off] + 256 * s[off + 1] + 65536 * s[off + 2] + 16777216 * s[off + 3],
        le64(s, off) == s[off] + 256 * s[off + 1] + 65536 * s[off + 2] + 16777216 * s[off + 3]
            + 4294967296 * s[off + 4] + 1099511627776 * s[off + 5] + 281474976710656 * s[off + 6]
            + 72057594037927936 * s[off + 7],
{
}

}
