//! The grammar of numeric literals, and the recognizers the lexer classifies
//! tokens with.

use vstd::prelude::*;
use vstd::slice::slice_subrange;
use crate::bytes::{
    ascii_bytes, bytes_are, bytes_start_with, has_prefix, is_digit_byte, is_hexdigit_byte,
    is_sign_byte,
};
use crate::lexer::WatLexer;

verus! {

/// A digit of the given radix: hexadecimal if `hex`, else decimal.
pub open spec fn is_radix_digit(b: u8, hex: bool) -> bool {
    if hex {
        is_hexdigit_byte(b)
    } else {
        is_digit_byte(b)
    }
}

/// Whether the byte at `i` is a digit, or a `_` that stands between two
/// digits.
pub open spec fn is_digit_or_separator(s: Seq<u8>, i: int, hex: bool) -> bool {
    ||| is_radix_digit(s[i], hex)
    ||| {
        &&& s[i] == '_' as u8
        &&& 0 < i < s.len() - 1
        &&& is_radix_digit(s[i - 1], hex)
        &&& is_radix_digit(s[i + 1], hex)
    }
}

/// One or more digits, where a single `_` may separate two digits.
pub open spec fn is_digits(s: Seq<u8>, hex: bool) -> bool {
    &&& s.len() > 0
    &&& forall|i: int| 0 <= i < s.len() ==> #[trigger] is_digit_or_separator(s, i, hex)
}

/// A decimal number: digits, optionally separated by single underscores.
pub open spec fn is_num(s: Seq<u8>) -> bool {
    is_digits(s, false)
}

/// A hexadecimal number: hex digits, optionally separated by single
/// underscores.
pub open spec fn is_hexnum(s: Seq<u8>) -> bool {
    is_digits(s, true)
}

/// Whether `s` begins with `0x`.
pub open spec fn has_hex_prefix(s: Seq<u8>) -> bool {
    s.len() >= 2 && s[0] == '0' as u8 && s[1] == 'x' as u8
}

/// An integer: a decimal number, or `0x` and a hexadecimal number.
pub open spec fn is_number(s: Seq<u8>) -> bool {
    ||| is_num(s)
    ||| has_hex_prefix(s) && is_hexnum(s.skip(2))
}

/// `s` without its leading sign, if it has one.
pub open spec fn unsigned_part(s: Seq<u8>) -> Seq<u8> {
    if s.len() > 0 && is_sign_byte(s[0]) {
        s.skip(1)
    } else {
        s
    }
}

/// The letter that introduces an exponent: `p` or `P` in a hexadecimal
/// float, `e` or `E` in a decimal one.
pub open spec fn is_exponent_mark(b: u8, hex: bool) -> bool {
    if hex {
        b == 'p' as u8 || b == 'P' as u8
    } else {
        b == 'e' as u8 || b == 'E' as u8
    }
}

/// An optional fraction: nothing, or `.` with or without digits after it.
pub open spec fn is_fraction(f: Seq<u8>, hex: bool) -> bool {
    ||| f.len() == 0
    ||| f[0] == '.' as u8 && (f.len() == 1 || is_digits(f.skip(1), hex))
}

/// An optional exponent: nothing, or the exponent mark, an optional sign and
/// a decimal number.
pub open spec fn is_exponent(e: Seq<u8>, hex: bool) -> bool {
    ||| e.len() == 0
    ||| is_exponent_mark(e[0], hex) && is_num(unsigned_part(e.skip(1)))
}

/// Whether `s` is digits up to `i`, a fraction up to `j` and an exponent
/// from there on.
pub open spec fn is_float_split(s: Seq<u8>, hex: bool, i: int, j: int) -> bool {
    &&& 0 <= i <= j <= s.len()
    &&& is_digits(s.subrange(0, i), hex)
    &&& is_fraction(s.subrange(i, j), hex)
    &&& is_exponent(s.subrange(j, s.len() as int), hex)
}

/// The magnitude of a float without prefix: digits, an optional fraction and
/// an optional exponent.
pub open spec fn is_float_body(s: Seq<u8>, hex: bool) -> bool {
    exists|i: int, j: int| is_float_split(s, hex, i, j)
}

/// The part of a hexadecimal float after `0x`.
pub open spec fn is_hexfloat(s: Seq<u8>) -> bool {
    is_float_body(s, true)
}

/// A float: an optional sign, then `nan`, `inf`, `nan:0x` and a hexadecimal
/// number, `0x` and a hexadecimal float, or a decimal float.
pub open spec fn is_float(s: Seq<u8>) -> bool {
    let m = unsigned_part(s);
    ||| m == ascii_bytes("nan"@)
    ||| m == ascii_bytes("inf"@)
    ||| has_prefix(m, ascii_bytes("nan:0x"@)) && is_hexnum(m.skip(6))
    ||| has_hex_prefix(m) && is_hexfloat(m.skip(2))
    ||| is_float_body(m, false)
}

/// Where the digits of a float stop: `i` is the first `.` or exponent mark
/// of `s`, or its length.
pub open spec fn is_digits_stop(s: Seq<u8>, hex: bool, i: int) -> bool {
    &&& 0 <= i <= s.len()
    &&& forall|k: int| 0 <= k < i ==> s[k] != '.' as u8 && !is_exponent_mark(#[trigger] s[k], hex)
    &&& i < s.len() ==> s[i] == '.' as u8 || is_exponent_mark(s[i], hex)
}

/// Where the fraction of a float stops, given where its digits stop: at
/// `i` if no `.` stands there, else at the first exponent mark after it, or
/// at the end.
pub open spec fn is_fraction_stop(s: Seq<u8>, hex: bool, i: int, j: int) -> bool {
    if i < s.len() && s[i] == '.' as u8 {
        &&& i < j <= s.len()
        &&& forall|k: int| i < k < j ==> !is_exponent_mark(#[trigger] s[k], hex)
        &&& j < s.len() ==> is_exponent_mark(s[j], hex)
    } else {
        j == i
    }
}

/// No digit or separator is a `.` or an exponent mark.
proof fn lemma_digits_hold_no_stop(s: Seq<u8>, hex: bool, k: int)
    requires
        is_digits(s, hex),
        0 <= k < s.len(),
    ensures
        s[k] != '.' as u8,
        !is_exponent_mark(s[k], hex),
{
    assert(is_digit_or_separator(s, k, hex));
}

/// A float splits into digits, fraction and exponent in one way only: at
/// the first `.` or exponent mark, and at the first exponent mark.
pub proof fn lemma_float_split_unique(s: Seq<u8>, hex: bool, i: int, j: int, i0: int, j0: int)
    requires
        is_float_split(s, hex, i, j),
        is_digits_stop(s, hex, i0),
        is_fraction_stop(s, hex, i0, j0),
    ensures
        i == i0,
        j == j0,
{
    let d = s.subrange(0, i);
    let f = s.subrange(i, j);
    let e = s.subrange(j, s.len() as int);
    if i0 < i {
        lemma_digits_hold_no_stop(d, hex, i0);
        assert(d[i0] == s[i0]);
    }
    if i < s.len() {
        if f.len() > 0 {
            assert(f[0] == s[i]);
        } else {
            assert(e[0] == s[j]);
        }
    }
    assert(i == i0);
    if f.len() > 0 {
        assert(f[0] == s[i]);
        if j < s.len() {
            assert(e[0] == s[j]);
        }
        if j0 < j {
            // an exponent mark inside the fraction
            assert(f.len() > 1);
            lemma_digits_hold_no_stop(f.skip(1), hex, j0 - i - 1);
            assert(f.skip(1)[j0 - i - 1] == s[j0]);
        }
        assert(j == j0);
    } else {
        if i < s.len() {
            assert(e[0] == s[i]);
        }
    }
}

impl<'a> WatLexer<'a> {
    pub fn is_digit_char(ch: u8) -> (r: bool)
        ensures
            r == is_digit_byte(ch),
    {
        ch >= '0' as u8 && ch <= '9' as u8
    }

    pub fn is_hexdigit_char(ch: u8) -> (r: bool)
        ensures
            r == is_hexdigit_byte(ch),
    {
        ch >= '0' as u8 && ch <= '9' as u8 || ch >= 'A' as u8 && ch <= 'F' as u8 || ch >= 'a' as u8
            && ch <= 'f' as u8
    }

    fn is_radix_digit_char(ch: u8, hex: bool) -> (r: bool)
        ensures
            r == is_radix_digit(ch, hex),
    {
        if hex {
            Self::is_hexdigit_char(ch)
        } else {
            Self::is_digit_char(ch)
        }
    }

    fn is_exponent_mark_char(ch: u8, hex: bool) -> (r: bool)
        ensures
            r == is_exponent_mark(ch, hex),
    {
        if hex {
            ch == 'p' as u8 || ch == 'P' as u8
        } else {
            ch == 'e' as u8 || ch == 'E' as u8
        }
    }

    /// Recognizes digits of the given radix with single underscores between
    /// them.
    fn is_digit_run(str: &[u8], hex: bool) -> (r: bool)
        ensures
            r == is_digits(str@, hex),
    {
        let mut was_digit = false;
        let mut i: usize = 0;
        while i < str.len()
            invariant
                i <= str.len(),
                forall|k: int|
                    0 <= k < i ==> is_radix_digit(#[trigger] str@[k], hex) || str@[k] == '_' as u8,
                forall|k: int|
                    0 <= k < i && #[trigger] str@[k] == '_' as u8 ==> 0 < k && is_radix_digit(
                        str@[k - 1],
                        hex,
                    ),
                forall|k: int|
                    0 <= k < i - 1 && #[trigger] str@[k] == '_' as u8 ==> is_radix_digit(
                        str@[k + 1],
                        hex,
                    ),
                was_digit == (i > 0 && is_radix_digit(str@[i - 1], hex)),
            decreases str.len() - i,
        {
            let ch = str[i];
            if !Self::is_radix_digit_char(ch, hex) {
                if was_digit && ch == '_' as u8 {
                    was_digit = false;
                    i += 1;
                    continue ;
                }
                assert(!is_digit_or_separator(str@, i as int, hex));
                return false;
            }
            was_digit = true;
            i += 1;
        }
        proof {
            if was_digit {
                assert forall|k: int| 0 <= k < str@.len() implies #[trigger] is_digit_or_separator(
                    str@,
                    k,
                    hex,
                ) by {
                    if !is_radix_digit(str@[k], hex) {
                        assert(str@[k] == '_' as u8);
                    }
                }
            } else if str@.len() > 0 {
                assert(!is_digit_or_separator(str@, str@.len() - 1, hex));
            }
        }
        was_digit
    }

    /// Recognizes a decimal number.
    pub fn is_num(str: &[u8]) -> (r: bool)
        ensures
            r == is_num(str@),
    {
        Self::is_digit_run(str, false)
    }

    /// Recognizes a hexadecimal number.
    pub fn is_hexnum(str: &[u8]) -> (r: bool)
        ensures
            r == is_hexnum(str@),
    {
        Self::is_digit_run(str, true)
    }

    /// Recognizes an integer, decimal or with the prefix `0x`.
    pub fn is_number(str: &[u8]) -> (r: bool)
        ensures
            r == is_number(str@),
    {
        if str.len() > 2 && str[0] == '0' as u8 && str[1] == 'x' as u8 {
            proof {
                if is_num(str@) {
                    assert(is_digit_or_separator(str@, 1, false));
                }
            }
            return Self::is_hexnum(slice_subrange(str, 2, str.len()));
        }
        Self::is_num(str)
    }

    /// Recognizes the magnitude of a float of the given radix: digits, an
    /// optional fraction, an optional exponent.
    fn is_float_magnitude(str: &[u8], hex: bool) -> (r: bool)
        ensures
            r == is_float_body(str@, hex),
    {
        let n = str.len();
        let mut i: usize = 0;
        while i < n && str[i] != '.' as u8 && !Self::is_exponent_mark_char(str[i], hex)
            invariant
                i <= n == str@.len(),
                forall|k: int|
                    0 <= k < i ==> str@[k] != '.' as u8 && !is_exponent_mark(#[trigger] str@[k], hex),
            decreases n - i,
        {
            i += 1;
        }
        assert(is_digits_stop(str@, hex, i as int));
        let mut j: usize = i;
        if i < n && str[i] == '.' as u8 {
            j = i + 1;
            while j < n && !Self::is_exponent_mark_char(str[j], hex)
                invariant
                    i < j <= n == str@.len(),
                    forall|k: int| i < k < j ==> !is_exponent_mark(#[trigger] str@[k], hex),
                decreases n - j,
            {
                j += 1;
            }
        }
        assert(is_fraction_stop(str@, hex, i as int, j as int));
        let ghost s = str@;
        let ghost (gi, gj) = (i as int, j as int);
        proof {
            // any split of the magnitude is the one found
            assert forall|a: int, b: int| is_float_split(s, hex, a, b) implies a == gi && b == gj by {
                lemma_float_split_unique(s, hex, a, b, gi, gj);
            }
        }
        if !Self::is_digit_run(slice_subrange(str, 0, i), hex) {
            return false;
        }
        if j - i > 1 {
            assert(s.subrange(gi, gj).skip(1) =~= s.subrange(gi + 1, gj));
            if !Self::is_digit_run(slice_subrange(str, i + 1, j), hex) {
                assert(!is_fraction(s.subrange(gi, gj), hex));
                return false;
            }
        }
        assert(is_fraction(s.subrange(gi, gj), hex)) by {
            if gi < gj {
                assert(s.subrange(gi, gj)[0] == s[gi]);
            }
        }
        if j < n {
            let mut k: usize = j + 1;
            if k < n && (str[k] == '-' as u8 || str[k] == '+' as u8) {
                k += 1;
            }
            let ghost e = s.subrange(gj, s.len() as int);
            proof {
                assert(e[0] == s[gj]);
                assert(e.skip(1) =~= s.subrange(gj + 1, s.len() as int));
                if gj + 1 < s.len() {
                    assert(e.skip(1)[0] == s[gj + 1]);
                }
                assert(unsigned_part(e.skip(1)) =~= s.subrange(k as int, s.len() as int));
            }
            let r = k < n && Self::is_num(slice_subrange(str, k, n));
            proof {
                if r {
                    assert(is_float_split(s, hex, gi, gj));
                }
            }
            return r;
        }
        proof {
            assert(s.subrange(gj, s.len() as int).len() == 0);
            assert(is_float_split(s, hex, gi, gj));
        }
        true
    }

    /// Recognizes what follows `0x` in a hexadecimal float.
    pub fn is_hexfloat(str: &[u8]) -> (r: bool)
        ensures
            r == is_hexfloat(str@),
    {
        Self::is_float_magnitude(str, true)
    }

    /// Recognizes a float, with or without sign.
    pub fn is_float(str: &[u8]) -> (r: bool)
        ensures
            r == is_float(str@),
    {
        let n = str.len();
        let i: usize = if n > 0 && (str[0] == '-' as u8 || str[0] == '+' as u8) {
            1
        } else {
            0
        };
        let body = slice_subrange(str, i, n);
        assert(body@ =~= unsigned_part(str@));
        proof {
            reveal_strlit("nan");
            reveal_strlit("inf");
            reveal_strlit("nan:0x");
        }
        if bytes_are(body, "nan") || bytes_are(body, "inf") {
            return true;
        }
        if bytes_start_with(body, "nan:0x") && Self::is_hexnum(
            slice_subrange(body, 6, body.len()),
        ) {
            return true;
        }
        if body.len() > 2 && body[0] == '0' as u8 && body[1] == 'x' as u8 {
            proof {
                // the decimal grammar admits no `x`
                assert forall|a: int, b: int| !is_float_split(body@, false, a, b) by {
                    if is_float_split(body@, false, a, b) {
                        let d = body@.subrange(0, a);
                        assert(is_digit_or_separator(d, 0, false));
                        assert(d[0] == body@[0]);
                        if a > 1 {
                            assert(is_digit_or_separator(d, 1, false));
                            assert(d[1] == body@[1]);
                        } else if a < b {
                            assert(body@.subrange(a, b)[0] == body@[1]);
                        } else {
                            assert(body@.subrange(b, body@.len() as int)[0] == body@[1]);
                        }
                    }
                }
            }
            return Self::is_hexfloat(slice_subrange(body, 2, body.len()));
        }
        proof {
            if has_hex_prefix(body@) && is_hexfloat(body@.skip(2)) {
                let (a, b) = choose|a: int, b: int| is_float_split(body@.skip(2), true, a, b);
                assert(body@.skip(2).subrange(0, a).len() > 0);
            }
        }
        Self::is_float_magnitude(body, false)
    }
}

} // verus!
