//! Little-endian words inside byte sequences.
use vstd::prelude::*;

verus! {

/// The 16-bit little-endian number stored at `at`.
pub open spec fn le16(s: Seq<u8>, at: int) -> int {
    s[at] + 0x100 * s[at + 1]
}

/// The 24-bit little-endian number stored at `at`.
pub open spec fn le24(s: Seq<u8>, at: int) -> int {
    s[at] + 0x100 * s[at + 1] + 0x1_0000 * s[at + 2]
}

/// The 32-bit little-endian number stored at `at`.
pub open spec fn le32(s: Seq<u8>, at: int) -> int {
    s[at] + 0x100 * s[at + 1] + 0x1_0000 * s[at + 2] + 0x100_0000 * s[at + 3]
}

/// Byte `k` (0 is the lowest) of the 32-bit word `w`.
pub open spec fn word_byte(w: int, k: int) -> u8 {
    if k == 0 {
        (w % 0x100) as u8
    } else if k == 1 {
        ((w / 0x100) % 0x100) as u8
    } else if k == 2 {
        ((w / 0x1_0000) % 0x100) as u8
    } else {
        ((w / 0x100_0000) % 0x100) as u8
    }
}

/// The four bytes of a word, read back, are the word.
pub proof fn law_word_bytes_round_trip(w: u32)
    ensures
        le32(Seq::new(4, |k: int| word_byte(w as int, k)), 0) == w,
{
}

/// A number stored from its lowest byte to its highest reads back as itself, wherever
/// it is stored.
pub proof fn law_stored_numbers_read_back(s: Seq<u8>, at: int, n: int)
    requires
        0 <= n,
        s[at] == n % 0x100,
        s[at + 1] == (n / 0x100) % 0x100,
    ensures
        n < 0x1_0000 ==> le16(s, at) == n,
        n < 0x100_0000 && s[at + 2] == n / 0x1_0000 ==> le24(s, at) == n,
        n < 0x1_0000_0000 && s[at + 2] == (n / 0x1_0000) % 0x100 && s[at + 3] == n / 0x100_0000
            ==> le32(s, at) == n,
{
}

/// The bytes of a word add up to it, each weighted by its place.
pub proof fn law_word_bytes_add_up(w: int)
    requires
        0 <= w < 0x1_0000_0000,
    ensures
        word_byte(w, 0) + 0x100 * word_byte(w, 1) + 0x1_0000 * word_byte(w, 2) + 0x100_0000
            * word_byte(w, 3) == w,
{
}

/// Reads the 16-bit little-endian number at `at`.
pub fn read_le16(s: &[u8], at: usize) -> (r: u16)
    requires
        at + 2 <= s@.len(),
    ensures
        r == le16(s@, at as int),
{
    s[at] as u16 + 0x100 * (s[at + 1] as u16)
}

/// Reads the 24-bit little-endian number at `at`.
pub fn read_le24(s: &[u8], at: usize) -> (r: u32)
    requires
        at + 3 <= s@.len(),
    ensures
        r == le24(s@, at as int),
{
    s[at] as u32 + 0x100 * (s[at + 1] as u32) + 0x1_0000 * (s[at + 2] as u32)
}

/// Reads the 32-bit little-endian number at `at`.
pub fn read_le32(s: &[u8], at: usize) -> (r: u32)
    requires
        at + 4 <= s@.len(),
    ensures
        r == le32(s@, at as int),
{
    s[at] as u32 + 0x100 * (s[at + 1] as u32) + 0x1_0000 * (s[at + 2] as u32) + 0x100_0000 * (
    s[at + 3] as u32)
}

} // verus!
