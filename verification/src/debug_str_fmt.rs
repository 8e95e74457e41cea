//! Byte-level escaping used for Debug-mode content.
//!
//! A byte is either emitted as itself, as a two-byte backslash shorthand
//! (`\t`, `\n`, `\r`, `\'`, `\"`, `\\`), or as a four-byte hexadecimal
//! escape `\xHH` with uppercase digits. The spec functions here give the
//! exact encoded form of each byte and of a whole byte sequence.

use vstd::prelude::*;

verus! {

/// Whether `b` must be escaped in Debug mode: every byte below the space
/// character, plus the two quote characters and the backslash.
pub open spec fn spec_is_escaped(b: u8) -> bool {
    b < 32 || b == 34 || b == 39 || b == 92
}

/// Whether an escaped byte has a two-byte backslash shorthand.
pub open spec fn spec_is_backslash_escaped(b: u8) -> bool {
    b == 9 || b == 10 || b == 13 || b == 34 || b == 39 || b == 92
}

/// The replacement character of a byte with a backslash shorthand:
/// tab, newline and carriage return map to `t`, `n`, `r`; the quote
/// characters and the backslash map to themselves.
pub open spec fn spec_backslash_escape(b: u8) -> u8 {
    if b == 9 {
        116
    } else if b == 10 {
        110
    } else if b == 13 {
        114
    } else {
        b
    }
}

/// The ASCII character of the hexadecimal digit `n` (uppercase).
pub open spec fn spec_hex_ascii(n: u8) -> u8 {
    if n < 10 {
        (48 + n) as u8
    } else {
        (55 + n) as u8
    }
}

/// The bytes emitted for one content byte in Debug mode.
pub open spec fn escape_of(b: u8) -> Seq<u8> {
    if !spec_is_escaped(b) {
        seq![b]
    } else if spec_is_backslash_escaped(b) {
        seq![92u8, spec_backslash_escape(b)]
    } else {
        seq![92u8, 120u8, spec_hex_ascii(b / 16), spec_hex_ascii(b % 16)]
    }
}

/// The bytes emitted for a whole byte sequence in Debug mode, quotes
/// excluded: the concatenation of each byte's escape.
pub open spec fn escaped(s: Seq<u8>) -> Seq<u8>
    decreases s.len(),
{
    if s.len() == 0 {
        Seq::empty()
    } else {
        escaped(s.drop_last()) + escape_of(s.last())
    }
}

/// Extending a prefix by one byte appends exactly that byte's escape.
pub proof fn lemma_escaped_take_step(s: Seq<u8>, i: int)
    requires
        0 <= i < s.len(),
    ensures
        escaped(s.take(i + 1)) == escaped(s.take(i)) + escape_of(s[i]),
{
    let t = s.take(i + 1);
    assert(t.drop_last() =~= s.take(i));
    assert(t.last() == s[i]);
}

/// A sequence without escapable bytes encodes to itself.
pub proof fn lemma_escaped_id(s: Seq<u8>)
    requires
        forall|i: int| 0 <= i < s.len() ==> !spec_is_escaped(#[trigger] s[i]),
    ensures
        escaped(s) == s,
    decreases s.len(),
{
    if s.len() > 0 {
        lemma_escaped_id(s.drop_last());
        assert(escaped(s.drop_last()) + escape_of(s.last()) =~= s);
    }
}

/// Whether `c` must be escaped in Debug mode.
pub fn is_escaped(c: u8) -> (r: bool)
    ensures
        r == spec_is_escaped(c),
{
    c < 32 || c == 34 || c == 39 || c == 92
}

/// Whether `c` has a two-byte backslash shorthand.
pub fn is_backslash_escaped(c: u8) -> (r: bool)
    ensures
        r == spec_is_backslash_escaped(c),
{
    c == 9 || c == 10 || c == 13 || c == 34 || c == 39 || c == 92
}

/// The replacement character following the backslash for a byte with a
/// shorthand escape.
pub fn get_backslash_escape(c: u8) -> (r: u8)
    ensures
        r == spec_backslash_escape(c),
{
    if c == 9 {
        116
    } else if c == 10 {
        110
    } else if c == 13 {
        114
    } else {
        c
    }
}

/// The ASCII character of the hexadecimal digit `n`.
pub fn hex_as_ascii(n: u8) -> (r: u8)
    requires
        n < 16,
    ensures
        r == spec_hex_ascii(n),
{
    if n < 10 {
        48 + n
    } else {
        55 + n
    }
}

/// The number of bytes the Debug-mode emission of `c` occupies.
pub fn char_debug_len(c: u8) -> (r: usize)
    ensures
        r == escape_of(c).len(),
{
    if is_escaped(c) {
        if is_backslash_escaped(c) {
            2
        } else {
            4
        }
    } else {
        1
    }
}

} // verus!
