//! The values that literals stand for: integers, floats and strings.

use vstd::prelude::*;
use vstd::slice::slice_subrange;
use vstd::utf8::{
    decode_utf8, encode_scalar, encode_utf8, encode_utf8_decode_utf8, encode_utf8_valid_utf8,
    is_ascii_chars, is_ascii_chars_encode_utf8, is_scalar, valid_utf8,
};
use crate::bytes::{
    ascii_bytes, bytes_are, bytes_start_with, has_prefix, is_digit_byte, is_hexdigit_byte,
};
use crate::lexer::WatLexer;
use crate::numbers::{has_hex_prefix, is_digits, is_float, is_number, unsigned_part};
use crate::scan::{escape_end, hexnum_run_end, is_simple_escape, lemma_hexnum_run_end};
use crate::wat::{Data, FloatView, WatFloat, WatSign};

verus! {

/// The value of a digit; 0 for a byte that is none.
pub open spec fn digit_value(b: u8) -> nat {
    if is_digit_byte(b) {
        (b - '0' as u8) as nat
    } else if 'a' as u8 <= b <= 'f' as u8 {
        (b - 'a' as u8 + 10) as nat
    } else if 'A' as u8 <= b <= 'F' as u8 {
        (b - 'A' as u8 + 10) as nat
    } else {
        0
    }
}

/// The base of the digits: 16 if `hex`, else 10.
pub open spec fn radix(hex: bool) -> nat {
    if hex {
        16
    } else {
        10
    }
}

/// The number that the digits of `s` spell in the given base; underscores
/// count for nothing.
pub open spec fn digits_value(s: Seq<u8>, hex: bool) -> nat
    decreases s.len(),
{
    if s.len() == 0 {
        0
    } else if s.last() == '_' as u8 {
        digits_value(s.drop_last(), hex)
    } else {
        digits_value(s.drop_last(), hex) * radix(hex) + digit_value(s.last())
    }
}

/// The value of digits of the given base, if they are well formed and
/// their value fits in 32 bits.
pub open spec fn digits_u32(s: Seq<u8>, hex: bool) -> Option<u32> {
    if is_digits(s, hex) && digits_value(s, hex) <= u32::MAX {
        Some(digits_value(s, hex) as u32)
    } else {
        None
    }
}

/// The value of a hexadecimal number without prefix, if it fits in 32 bits.
pub open spec fn hexnum_u32(s: Seq<u8>) -> Option<u32> {
    digits_u32(s, true)
}

/// The value of an integer, decimal or with the prefix `0x`, if it fits in
/// 32 bits.
#[verifier::opaque]
pub open spec fn number_u32(s: Seq<u8>) -> Option<u32> {
    if has_hex_prefix(s) {
        hexnum_u32(s.skip(2))
    } else {
        digits_u32(s, false)
    }
}

/// The bytes of `n`, least significant first, without leading zero bytes
/// but for the one byte of zero.
pub open spec fn le_bytes(n: nat) -> Seq<u8>
    decreases n,
{
    if n < 0x100 {
        seq![n as u8]
    } else {
        seq![(n % 0x100) as u8] + le_bytes(n / 0x100)
    }
}

/// The bytes of an optional number.
pub open spec fn u32_data(n: Option<u32>) -> Option<Seq<u8>> {
    match n {
        Some(n) => Some(le_bytes(n as nat)),
        None => None,
    }
}

/// The bytes of the value of a hexadecimal number without prefix.
pub open spec fn hexnum_data(s: Seq<u8>) -> Option<Seq<u8>> {
    u32_data(hexnum_u32(s))
}

/// The bytes of the value of an integer.
pub open spec fn number_data(s: Seq<u8>) -> Option<Seq<u8>> {
    u32_data(number_u32(s))
}

/// The sign that a literal begins with; positive if it begins with none.
pub open spec fn sign_of(s: Seq<u8>) -> WatSign {
    if s.len() > 0 && s[0] == '-' as u8 {
        WatSign::Negative
    } else {
        WatSign::Positive
    }
}

/// What a float literal stands for. Infinity and not-a-number carry their
/// sign, and the latter its payload if one is written and fits in 32 bits.
/// Of any other float only the sign is taken.
#[verifier::opaque]
pub open spec fn float_value(s: Seq<u8>) -> Option<FloatView> {
    let m = unsigned_part(s);
    if !is_float(s) {
        None
    } else if m == ascii_bytes("inf"@) {
        Some(FloatView::Inf(sign_of(s)))
    } else if m == ascii_bytes("nan"@) {
        Some(FloatView::NaN(sign_of(s), None))
    } else if has_prefix(m, ascii_bytes("nan:0x"@)) {
        match hexnum_data(m.skip(6)) {
            Some(payload) => Some(FloatView::NaN(sign_of(s), Some(payload))),
            None => None,
        }
    } else {
        Some(FloatView::Number(sign_of(s), Seq::empty(), 0))
    }
}

/// The byte that a single-letter escape stands for.
pub open spec fn simple_escape_byte(b: u8) -> u8 {
    if b == 't' as u8 {
        0x09
    } else if b == 'n' as u8 {
        0x0a
    } else if b == 'r' as u8 {
        0x0d
    } else {
        b
    }
}

/// The bytes that the escape in `[p, e)` stands for: the byte of a
/// single-letter escape, the UTF-8 encoding of the code point of a `\u{..}`
/// escape, or the byte that two hexadecimal digits spell. `None` if the
/// code point is no Unicode scalar value.
pub open spec fn escape_bytes(s: Seq<u8>, p: int, e: int) -> Option<Seq<u8>> {
    if s[p + 1] == 'u' as u8 {
        match hexnum_u32(s.subrange(p + 3, e - 1)) {
            Some(v) => if is_scalar(v) {
                Some(encode_scalar(v))
            } else {
                None
            },
            None => None,
        }
    } else if is_simple_escape(s[p + 1]) {
        Some(seq![simple_escape_byte(s[p + 1])])
    } else {
        Some(seq![(digit_value(s[p + 1]) * 16 + digit_value(s[p + 2])) as u8])
    }
}

/// The bytes that `s` stands for from offset `p` on, with every escape
/// replaced by what it stands for. `None` if an escape is malformed.
pub open spec fn unescaped(s: Seq<u8>, p: int) -> Option<Seq<u8>>
    decreases s.len() - p,
    via unescaped_decreases
{
    if p < 0 || p >= s.len() {
        Some(Seq::empty())
    } else if s[p] != '\\' as u8 {
        match unescaped(s, p + 1) {
            Some(rest) => Some(seq![s[p]] + rest),
            None => None,
        }
    } else {
        match escape_end(s, p) {
            Ok(e) => match (escape_bytes(s, p, e), unescaped(s, e)) {
                (Some(bytes), Some(rest)) => Some(bytes + rest),
                _ => None,
            },
            Err(_) => None,
        }
    }
}

#[via_fn]
proof fn unescaped_decreases(s: Seq<u8>, p: int) {
    if 0 <= p < s.len() && s[p] == '\\' as u8 {
        lemma_escape_end(s, p);
    }
}

/// An escape is at least two bytes long and stays within the source.
pub proof fn lemma_escape_end(s: Seq<u8>, p: int)
    requires
        0 <= p < s.len(),
    ensures
        escape_end(s, p) matches Ok(e) ==> p + 2 <= e <= s.len(),
{
    if p + 3 < s.len() && is_hexdigit_byte(s[p + 3]) {
        lemma_hexnum_run_end(s, p + 3);
    }
}

/// The bytes that a string literal stands for: what lies between its
/// quotes, unescaped. `None` if it is not enclosed in quotes.
pub open spec fn string_bytes(lit: Seq<u8>) -> Option<Seq<u8>> {
    if lit.len() >= 2 && lit[0] == '"' as u8 && lit.last() == '"' as u8 {
        unescaped(lit.subrange(1, lit.len() - 1), 0)
    } else {
        None
    }
}

/// The text that a string literal stands for, if its bytes are UTF-8.
#[verifier::opaque]
pub open spec fn string_text(lit: Seq<u8>) -> Option<Seq<char>> {
    match string_bytes(lit) {
        Some(bytes) => if valid_utf8(bytes) {
            Some(decode_utf8(bytes))
        } else {
            None
        },
        None => None,
    }
}

/// A byte that stands for itself in a string literal: printable ASCII
/// other than the quote and the backslash.
pub open spec fn is_plain_string_byte(b: u8) -> bool {
    0x20 <= b < 0x7f && b != '"' as u8 && b != '\\' as u8
}

/// The string literal with `body` between its quotes.
pub open spec fn quoted(body: Seq<u8>) -> Seq<u8> {
    seq!['"' as u8] + body + seq!['"' as u8]
}

/// The text whose characters are the ASCII bytes `bytes`.
pub open spec fn ascii_text(bytes: Seq<u8>) -> Seq<char> {
    Seq::new(bytes.len(), |i: int| bytes[i] as char)
}

proof fn lemma_unescaped_plain(body: Seq<u8>, p: int)
    requires
        0 <= p <= body.len(),
        forall|i: int| 0 <= i < body.len() ==> is_plain_string_byte(#[trigger] body[i]),
    ensures
        unescaped(body, p) == Some(body.skip(p)),
    decreases body.len() - p,
{
    if p < body.len() {
        lemma_unescaped_plain(body, p + 1);
        assert(is_plain_string_byte(body[p]));
        assert(seq![body[p]] + body.skip(p + 1) =~= body.skip(p));
    } else {
        assert(body.skip(p) =~= Seq::empty());
    }
}

/// A string literal of printable ASCII without escapes stands for the
/// bytes between its quotes, character for character.
pub proof fn lemma_plain_string_stands_for_itself(body: Seq<u8>)
    requires
        forall|i: int| 0 <= i < body.len() ==> is_plain_string_byte(#[trigger] body[i]),
    ensures
        string_bytes(quoted(body)) == Some(body),
        string_text(quoted(body)) == Some(ascii_text(body)),
{
    reveal(string_text);
    let lit = quoted(body);
    assert(lit.subrange(1, lit.len() - 1) =~= body);
    lemma_unescaped_plain(body, 0);
    assert(body.skip(0) =~= body);
    let text = ascii_text(body);
    assert forall|i: int| 0 <= i < text.len() implies '\0' <= #[trigger] text[i] <= '\u{7f}' by {
        assert(is_plain_string_byte(body[i]));
    }
    assert(is_ascii_chars(text));
    is_ascii_chars_encode_utf8(text);
    assert forall|i: int| 0 <= i < body.len() implies encode_utf8(text)[i] == body[i] by {
        assert(is_plain_string_byte(body[i]));
        assert(text[i] as u8 == body[i]);
    }
    assert(encode_utf8(text) =~= body);
    encode_utf8_valid_utf8(text);
    encode_utf8_decode_utf8(text);
}

/// A prefix of digits spells no more than the whole.
proof fn lemma_digits_value_prefix(s: Seq<u8>, hex: bool, i: int)
    requires
        0 <= i <= s.len(),
    ensures
        digits_value(s.subrange(0, i), hex) <= digits_value(s, hex),
    decreases s.len() - i,
{
    if i < s.len() {
        lemma_digits_value_prefix(s, hex, i + 1);
        let t = s.subrange(0, i + 1);
        assert(t.drop_last() =~= s.subrange(0, i));
        assert(digits_value(t.drop_last(), hex) <= digits_value(t.drop_last(), hex) * radix(hex))
            by (nonlinear_arith)
            requires
                radix(hex) >= 1,
        ;
    } else {
        assert(s.subrange(0, i) =~= s);
    }
}

/// The value of a digit.
fn digit_of(ch: u8) -> (d: u64)
    ensures
        d == digit_value(ch),
        d < 16,
{
    if ch >= '0' as u8 && ch <= '9' as u8 {
        (ch - '0' as u8) as u64
    } else if ch >= 'a' as u8 && ch <= 'f' as u8 {
        (ch - 'a' as u8) as u64 + 10
    } else if ch >= 'A' as u8 && ch <= 'F' as u8 {
        (ch - 'A' as u8) as u64 + 10
    } else {
        0
    }
}

/// Reads digits of the given base.
fn parse_digits_u32(bytes: &[u8], hex: bool) -> (r: Option<u32>)
    ensures
        r == digits_u32(bytes@, hex),
{
    let well_formed = if hex {
        WatLexer::is_hexnum(bytes)
    } else {
        WatLexer::is_num(bytes)
    };
    if !well_formed {
        return None;
    }
    let base: u64 = if hex {
        16
    } else {
        10
    };
    let mut value: u64 = 0;
    let mut i: usize = 0;
    while i < bytes.len()
        invariant
            i <= bytes.len(),
            base == radix(hex),
            value == digits_value(bytes@.subrange(0, i as int), hex),
            value <= u32::MAX,
        decreases bytes.len() - i,
    {
        let ch = bytes[i];
        proof {
            assert(bytes@.subrange(0, i + 1).drop_last() =~= bytes@.subrange(0, i as int));
        }
        if ch != '_' as u8 {
            value = value * base + digit_of(ch);
            if value > u32::MAX as u64 {
                proof {
                    lemma_digits_value_prefix(bytes@, hex, i + 1);
                }
                return None;
            }
        }
        i += 1;
    }
    assert(bytes@.subrange(0, i as int) =~= bytes@);
    Some(value as u32)
}

/// Reads a hexadecimal number without prefix. `None` if it is malformed or
/// does not fit in 32 bits.
pub fn parse_hexnum_u32(bytes: &[u8]) -> (r: Option<u32>)
    ensures
        r == hexnum_u32(bytes@),
{
    parse_digits_u32(bytes, true)
}

/// Reads an integer, decimal or with the prefix `0x`. `None` if it is
/// malformed or does not fit in 32 bits.
pub fn parse_u32(bytes: &[u8]) -> (r: Option<u32>)
    ensures
        r == number_u32(bytes@),
        r is Some ==> is_number(bytes@),
{
    reveal(number_u32);
    if bytes.len() >= 2 && bytes[0] == '0' as u8 && bytes[1] == 'x' as u8 {
        return parse_hexnum_u32(slice_subrange(bytes, 2, bytes.len()));
    }
    parse_digits_u32(bytes, false)
}

/// The bytes of a number, least significant first.
pub fn convert_u32_to_data(maybe_num: Option<u32>) -> (r: Option<Data>)
    ensures
        data_is(r, u32_data(maybe_num)),
{
    let mut num = match maybe_num {
        Some(num) => num,
        None => {
            return None;
        },
    };
    let mut result: Vec<u8> = Vec::new();
    let ghost all = le_bytes(num as nat);
    while num >= 0x100
        invariant
            all == result@ + le_bytes(num as nat),
        decreases num,
    {
        result.push((num % 0x100) as u8);
        proof {
            assert(result@ + le_bytes((num / 0x100) as nat) =~= result@.drop_last() + le_bytes(
                num as nat,
            ));
        }
        num = num / 0x100;
    }
    result.push(num as u8);
    assert(result@ =~= all);
    Some(result)
}

/// Whether `data` holds the bytes `bytes`, or both are none.
pub open spec fn data_is(data: Option<Data>, bytes: Option<Seq<u8>>) -> bool {
    match bytes {
        Some(b) => data matches Some(d) && d@ == b,
        None => data is None,
    }
}

/// Reads a hexadecimal number without prefix into bytes.
pub fn parse_hexnum(bytes: &[u8]) -> (r: Option<Data>)
    ensures
        data_is(r, hexnum_data(bytes@)),
{
    convert_u32_to_data(parse_hexnum_u32(bytes))
}

/// Reads an integer, decimal or with the prefix `0x`, into bytes.
pub fn parse_num(bytes: &[u8]) -> (r: Option<Data>)
    ensures
        data_is(r, number_data(bytes@)),
{
    reveal(number_u32);
    if bytes.len() >= 2 && bytes[0] == '0' as u8 && bytes[1] == 'x' as u8 {
        return parse_hexnum(slice_subrange(bytes, 2, bytes.len()));
    }
    convert_u32_to_data(parse_u32(bytes))
}

/// The sign that a literal begins with.
pub fn parse_sign(bytes: &[u8]) -> (sign: WatSign)
    ensures
        sign == sign_of(bytes@),
{
    if bytes.len() > 0 && bytes[0] == '-' as u8 {
        WatSign::Negative
    } else {
        WatSign::Positive
    }
}

/// Reads a float literal.
pub fn parse_float(bytes: &[u8]) -> (r: Option<WatFloat>)
    ensures
        match float_value(bytes@) {
            Some(f) => r matches Some(g) && g@ == f,
            None => r is None,
        },
{
    reveal(float_value);
    if !WatLexer::is_float(bytes) {
        return None;
    }
    let sign = parse_sign(bytes);
    let n = bytes.len();
    let i: usize = if n > 0 && (bytes[0] == '-' as u8 || bytes[0] == '+' as u8) {
        1
    } else {
        0
    };
    let body = slice_subrange(bytes, i, n);
    assert(body@ =~= unsigned_part(bytes@));
    proof {
        reveal_strlit("nan");
        reveal_strlit("inf");
        reveal_strlit("nan:0x");
    }
    if bytes_are(body, "inf") {
        return Some(WatFloat::Inf(sign));
    }
    if bytes_are(body, "nan") {
        return Some(WatFloat::NaN(sign, None));
    }
    if bytes_start_with(body, "nan:0x") {
        return match parse_hexnum(slice_subrange(body, 6, body.len())) {
            Some(payload) => Some(WatFloat::NaN(sign, Some(payload))),
            None => None,
        };
    }
    Some(WatFloat::Number(sign, Vec::new(), 0))
}

/// Where the hexadecimal number that begins with the digit at `p` ends.
fn hexnum_end(bytes: &[u8], p: usize) -> (e: usize)
    requires
        p < bytes@.len(),
        is_hexdigit_byte(bytes@[p as int]),
    ensures
        e == hexnum_run_end(bytes@, p as int),
        p < e <= bytes@.len(),
{
    let n = bytes.len();
    let mut i = p;
    proof {
        lemma_hexnum_run_end(bytes@, p as int);
    }
    loop
        invariant_except_break
            i < n,
            is_hexdigit_byte(bytes@[i as int]),
            hexnum_run_end(bytes@, p as int) == hexnum_run_end(bytes@, i as int),
        invariant
            n == bytes@.len(),
            p <= i,
        ensures
            i == hexnum_run_end(bytes@, p as int),
        decreases n - i,
    {
        if n - i > 1 && WatLexer::is_hexdigit_char(bytes[i + 1]) {
            i += 1;
        } else if n - i > 2 && bytes[i + 1] == '_' as u8 && WatLexer::is_hexdigit_char(
            bytes[i + 2],
        ) {
            i += 2;
        } else {
            i += 1;
            break ;
        }
    }
    i
}

/// Where the escape that begins with the backslash at `p` ends; `None` if
/// it is malformed.
fn escape_extent(bytes: &[u8], p: usize) -> (r: Option<usize>)
    requires
        p < bytes@.len(),
    ensures
        match escape_end(bytes@, p as int) {
            Ok(e) => r == Some(e as usize) && p + 2 <= e <= bytes@.len(),
            Err(_) => r is None,
        },
{
    let n = bytes.len();
    proof {
        lemma_escape_end(bytes@, p as int);
    }
    if n - p < 2 {
        return None;
    }
    let escape = bytes[p + 1];
    if escape == 'u' as u8 {
        if n - p < 4 || bytes[p + 2] != '{' as u8 || !WatLexer::is_hexdigit_char(bytes[p + 3]) {
            return None;
        }
        let e = hexnum_end(bytes, p + 3);
        if e >= n || bytes[e] != '}' as u8 {
            return None;
        }
        Some(e + 1)
    } else if escape == 't' as u8 || escape == 'n' as u8 || escape == 'r' as u8 || escape
        == '"' as u8 || escape == '\'' as u8 || escape == '\\' as u8 {
        Some(p + 2)
    } else {
        if !WatLexer::is_hexdigit_char(escape) || n - p < 3 || !WatLexer::is_hexdigit_char(
            bytes[p + 2],
        ) {
            return None;
        }
        Some(p + 3)
    }
}

/// Appends the UTF-8 encoding of a Unicode scalar value.
fn push_scalar(result: &mut Vec<u8>, v: u32)
    requires
        is_scalar(v),
    ensures
        final(result)@ == old(result)@ + encode_scalar(v),
{
    if v < 0x80 {
        assert(v & 0x7f < 0x100) by (bit_vector);
        result.push((v & 0x7f) as u8);
    } else if v < 0x800 {
        assert((v >> 6) & 0x1f < 0x100 && v & 0x3f < 0x100) by (bit_vector);
        result.push(0xc0 | ((v >> 6) & 0x1f) as u8);
        result.push(0x80 | (v & 0x3f) as u8);
    } else if v < 0x10000 {
        assert((v >> 12) & 0x0f < 0x100 && (v >> 6) & 0x3f < 0x100 && v & 0x3f < 0x100)
            by (bit_vector);
        result.push(0xe0 | ((v >> 12) & 0x0f) as u8);
        result.push(0x80 | ((v >> 6) & 0x3f) as u8);
        result.push(0x80 | (v & 0x3f) as u8);
    } else {
        assert((v >> 18) & 0x07 < 0x100 && (v >> 12) & 0x3f < 0x100 && (v >> 6) & 0x3f < 0x100 && v
            & 0x3f < 0x100) by (bit_vector);
        result.push(0xf0 | ((v >> 18) & 0x07) as u8);
        result.push(0x80 | ((v >> 12) & 0x3f) as u8);
        result.push(0x80 | ((v >> 6) & 0x3f) as u8);
        result.push(0x80 | (v & 0x3f) as u8);
    }
    assert(result@ =~= old(result)@ + encode_scalar(v));
}

/// Whether `v` is a Unicode scalar value.
fn is_scalar_value(v: u32) -> (r: bool)
    ensures
        r == is_scalar(v),
{
    v <= 0x10ffff && !(0xd800 <= v && v <= 0xdfff)
}

/// Appends what the escape in `[p, e)` stands for. Says `false`, and
/// appends nothing, if it stands for nothing.
fn push_escape(result: &mut Vec<u8>, bytes: &[u8], p: usize, e: usize) -> (ok: bool)
    requires
        p < bytes@.len(),
        escape_end(bytes@, p as int) == Ok::<int, int>(e as int),
    ensures
        match escape_bytes(bytes@, p as int, e as int) {
            Some(b) => ok && final(result)@ == old(result)@ + b,
            None => !ok && final(result)@ == old(result)@,
        },
{
    proof {
        lemma_escape_end(bytes@, p as int);
        if p + 3 < bytes@.len() && is_hexdigit_byte(bytes@[p + 3]) {
            lemma_hexnum_run_end(bytes@, p + 3);
        }
    }
    let escape = bytes[p + 1];
    if escape == 'u' as u8 {
        match parse_hexnum_u32(slice_subrange(bytes, p + 3, e - 1)) {
            Some(v) => {
                if !is_scalar_value(v) {
                    return false;
                }
                push_scalar(result, v);
            },
            None => {
                return false;
            },
        }
    } else if escape == 't' as u8 {
        result.push(0x09);
    } else if escape == 'n' as u8 {
        result.push(0x0a);
    } else if escape == 'r' as u8 {
        result.push(0x0d);
    } else if escape == '"' as u8 || escape == '\'' as u8 || escape == '\\' as u8 {
        result.push(escape);
    } else {
        let value = digit_of(escape) * 16 + digit_of(bytes[p + 2]);
        result.push(value as u8);
    }
    assert(result@ =~= old(result)@ + escape_bytes(bytes@, p as int, e as int).unwrap());
    true
}

/// Replaces every escape of `bytes` by what it stands for.
fn unescape(bytes: &[u8]) -> (r: Option<Vec<u8>>)
    ensures
        data_is(r, unescaped(bytes@, 0)),
{
    let mut result: Vec<u8> = Vec::new();
    let mut i: usize = 0;
    assert(Seq::<u8>::empty() + unescaped(bytes@, 0).unwrap() =~= unescaped(bytes@, 0).unwrap());
    while i < bytes.len()
        invariant
            i <= bytes.len(),
            unescaped(bytes@, 0) == match unescaped(bytes@, i as int) {
                Some(rest) => Some(result@ + rest),
                None => None,
            },
        decreases bytes.len() - i,
    {
        let ghost before = result@;
        let ch = bytes[i];
        if ch != '\\' as u8 {
            result.push(ch);
            proof {
                if let Some(rest) = unescaped(bytes@, i + 1) {
                    assert(result@ + rest =~= before + (seq![ch] + rest));
                }
            }
            i += 1;
        } else {
            let e = match escape_extent(bytes, i) {
                Some(e) => e,
                None => {
                    return None;
                },
            };
            if !push_escape(&mut result, bytes, i, e) {
                return None;
            }
            proof {
                let b = escape_bytes(bytes@, i as int, e as int).unwrap();
                if let Some(rest) = unescaped(bytes@, e as int) {
                    assert(result@ + rest =~= before + (b + rest));
                }
            }
            i = e;
        }
    }
    assert(result@ + Seq::<u8>::empty() =~= result@);
    Some(result)
}

/// The bytes that a string literal stands for. `None` if the literal is
/// not enclosed in quotes, or if an escape in it is malformed or names no
/// Unicode scalar value.
pub fn unescape_string(bytes: &[u8]) -> (r: Option<Vec<u8>>)
    ensures
        data_is(r, string_bytes(bytes@)),
{
    let n = bytes.len();
    if n < 2 || bytes[0] != '"' as u8 || bytes[n - 1] != '"' as u8 {
        return None;
    }
    unescape(slice_subrange(bytes, 1, n - 1))
}

/// `String::from_utf8` of the standard library: the string whose bytes
/// are `bytes`, if they are UTF-8, and nothing if they are not.
#[verifier::external_body]
fn string_from_utf8(bytes: Vec<u8>) -> (text: Option<String>)
    ensures
        match text {
            Some(s) => valid_utf8(bytes@) && s@ == decode_utf8(bytes@),
            None => !valid_utf8(bytes@),
        },
{
    String::from_utf8(bytes).ok()
}

/// The text that a string literal stands for. `None` if the literal is
/// malformed or its bytes are not UTF-8.
pub fn parse_string(bytes: &[u8]) -> (r: Option<String>)
    ensures
        match string_text(bytes@) {
            Some(text) => r matches Some(s) && s@ == text,
            None => r is None,
        },
{
    reveal(string_text);
    match unescape_string(bytes) {
        Some(decoded) => string_from_utf8(decoded),
        None => None,
    }
}

} // verus!
