//! Byte classes of the text format, and small helpers on byte slices.

use vstd::prelude::*;
use vstd::string::*;

verus! {

/// The line feed byte, the only byte that ends a line.
pub const LF: u8 = 0x0a;

/// A decimal digit, `0` to `9`.
pub open spec fn is_digit_byte(b: u8) -> bool {
    '0' as u8 <= b <= '9' as u8
}

/// A hexadecimal digit: `0` to `9`, `a` to `f` or `A` to `F`.
pub open spec fn is_hexdigit_byte(b: u8) -> bool {
    ||| '0' as u8 <= b <= '9' as u8
    ||| 'A' as u8 <= b <= 'F' as u8
    ||| 'a' as u8 <= b <= 'f' as u8
}

/// The punctuation that may stand in an identifier, a keyword or a number.
pub open spec fn is_idchar_symbol(b: u8) -> bool {
    ||| b == '!' as u8
    ||| b == '#' as u8
    ||| b == '$' as u8
    ||| b == '%' as u8
    ||| b == '&' as u8
    ||| b == '\'' as u8
    ||| b == '*' as u8
    ||| b == '+' as u8
    ||| b == '-' as u8
    ||| b == '.' as u8
    ||| b == '/' as u8
    ||| b == ':' as u8
    ||| b == '<' as u8
    ||| b == '=' as u8
    ||| b == '>' as u8
    ||| b == '?' as u8
    ||| b == '@' as u8
    ||| b == '\\' as u8
    ||| b == '^' as u8
    ||| b == '_' as u8
    ||| b == '`' as u8
    ||| b == '~' as u8
}

/// The bytes that tokens other than strings and parentheses are made of:
/// ASCII letters, digits and the symbols of [`is_idchar_symbol`].
pub open spec fn is_idchar_byte(b: u8) -> bool {
    ||| '0' as u8 <= b <= '9' as u8
    ||| 'A' as u8 <= b <= 'Z' as u8
    ||| 'a' as u8 <= b <= 'z' as u8
    ||| is_idchar_symbol(b)
}

/// Blank bytes between tokens: space, tab, carriage return and line feed.
pub open spec fn is_space_byte(b: u8) -> bool {
    b == ' ' as u8 || b == 0x09 || b == 0x0d || b == LF
}

/// `+` or `-`.
pub open spec fn is_sign_byte(b: u8) -> bool {
    b == '+' as u8 || b == '-' as u8
}

/// The bytes of an ASCII text, one per character.
pub open spec fn ascii_bytes(text: Seq<char>) -> Seq<u8> {
    Seq::new(text.len(), |i: int| text[i] as u8)
}

/// Whether `bytes` begins with `prefix`.
pub open spec fn has_prefix(bytes: Seq<u8>, prefix: Seq<u8>) -> bool {
    prefix.len() <= bytes.len() && bytes.subrange(0, prefix.len() as int) == prefix
}

/// Compares two byte slices.
pub fn bytes_eq(a: &[u8], b: &[u8]) -> (r: bool)
    ensures
        r == (a@ == b@),
{
    if a.len() != b.len() {
        return false;
    }
    let mut i: usize = 0;
    while i < a.len()
        invariant
            i <= a.len(),
            a.len() == b.len(),
            forall|j: int| 0 <= j < i ==> a@[j] == b@[j],
        decreases a.len() - i,
    {
        if a[i] != b[i] {
            return false;
        }
        i += 1;
    }
    assert(a@ =~= b@);
    true
}

/// Whether `bytes` spells the ASCII text `text`.
pub fn bytes_are(bytes: &[u8], text: &str) -> (r: bool)
    requires
        is_ascii(text),
    ensures
        r == (bytes@ == ascii_bytes(text@)),
{
    broadcast use is_ascii_spec_bytes;

    let t = text.as_bytes();
    assert(t@ =~= ascii_bytes(text@));
    bytes_eq(bytes, t)
}

/// Whether `bytes` begins with the ASCII text `text`.
pub fn bytes_start_with(bytes: &[u8], text: &str) -> (r: bool)
    requires
        is_ascii(text),
    ensures
        r == has_prefix(bytes@, ascii_bytes(text@)),
{
    broadcast use is_ascii_spec_bytes;

    let t = text.as_bytes();
    assert(t@ =~= ascii_bytes(text@));
    if bytes.len() < t.len() {
        return false;
    }
    bytes_eq(vstd::slice::slice_subrange(bytes, 0, t.len()), t)
}

/// Copies a byte slice into a vector.
pub fn bytes_to_vec(bytes: &[u8]) -> (v: Vec<u8>)
    ensures
        v@ == bytes@,
{
    let mut v: Vec<u8> = Vec::new();
    let mut i: usize = 0;
    while i < bytes.len()
        invariant
            i <= bytes.len(),
            v@ == bytes@.subrange(0, i as int),
        decreases bytes.len() - i,
    {
        v.push(bytes[i]);
        i += 1;
        assert(v@ =~= bytes@.subrange(0, i as int));
    }
    assert(bytes@.subrange(0, bytes.len() as int) =~= bytes@);
    v
}

} // verus!
