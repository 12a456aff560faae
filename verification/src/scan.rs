//! What the lexer recognizes, as functions of the source bytes and an
//! offset: blanks and comments, string literals, runs of identifier bytes,
//! and the token that begins at or after an offset.

use vstd::prelude::*;
use vstd::utf8::{
    is_continuation_byte, is_leading_byte_width_2, is_leading_byte_width_3,
    is_leading_byte_width_4,
};
use crate::bytes::{is_hexdigit_byte, is_idchar_byte, is_sign_byte, is_space_byte, LF};
use crate::lexer::{WatLexerError, WatPosition, WatToken, WatTokenType};
use crate::lines::{column_at, lemma_line_bounds, lemma_same_line, line_at, no_line_feed};
use crate::numbers::{is_float, is_number};

verus! {

/// Whether the two bytes at `p` are `(;`.
pub open spec fn opens_comment(src: Seq<u8>, p: int) -> bool {
    0 <= p && p + 1 < src.len() && src[p] == '(' as u8 && src[p + 1] == ';' as u8
}

/// Whether the two bytes at `p` are `;)`.
pub open spec fn closes_comment(src: Seq<u8>, p: int) -> bool {
    0 <= p && p + 1 < src.len() && src[p] == ';' as u8 && src[p + 1] == ')' as u8
}

/// Whether the two bytes at `p` are `;;`.
pub open spec fn opens_line_comment(src: Seq<u8>, p: int) -> bool {
    0 <= p && p + 1 < src.len() && src[p] == ';' as u8 && src[p + 1] == ';' as u8
}

/// Where a block comment ends, read from offset `p` inside it at nesting
/// `depth`: every `(;` met opens a level and every `;)` closes one, and the
/// comment ends after the `;)` that closes the last open level. `None` if
/// the source ends first.
pub open spec fn block_comment_end(src: Seq<u8>, p: int, depth: nat) -> Option<int>
    decreases src.len() - p,
{
    if p < 0 || p >= src.len() {
        None
    } else if opens_comment(src, p) {
        block_comment_end(src, p + 1, depth + 1)
    } else if closes_comment(src, p) {
        if depth <= 1 {
            Some(p + 2)
        } else {
            block_comment_end(src, p + 1, (depth - 1) as nat)
        }
    } else {
        block_comment_end(src, p + 1, depth)
    }
}

/// Where a line comment read from `p` ends: after the first line feed at or
/// after `p`, or at the end of the source.
pub open spec fn line_comment_end(src: Seq<u8>, p: int) -> int
    decreases src.len() - p,
{
    if p < 0 || p >= src.len() {
        src.len() as int
    } else if src[p] == LF {
        p + 1
    } else {
        line_comment_end(src, p + 1)
    }
}

/// The first offset at or after `p` that is neither blank nor inside a
/// comment; `None` if a block comment is left open.
pub open spec fn skip_end(src: Seq<u8>, p: int) -> Option<int>
    decreases src.len() - p,
    via skip_end_decreases
{
    if p < 0 || p >= src.len() {
        Some(p)
    } else if is_space_byte(src[p]) {
        skip_end(src, p + 1)
    } else if opens_comment(src, p) {
        match block_comment_end(src, p + 2, 1) {
            Some(q) => skip_end(src, q),
            None => None,
        }
    } else if opens_line_comment(src, p) {
        skip_end(src, line_comment_end(src, p + 2))
    } else {
        Some(p)
    }
}

#[via_fn]
proof fn skip_end_decreases(src: Seq<u8>, p: int) {
    if 0 <= p < src.len() {
        lemma_block_comment_end_bounds(src, p + 2, 1);
        lemma_line_comment_end_bounds(src, p + 2);
    }
}

/// A closed block comment ends after where it was read from, within the
/// source.
pub proof fn lemma_block_comment_end_bounds(src: Seq<u8>, p: int, depth: nat)
    ensures
        block_comment_end(src, p, depth) matches Some(q) ==> p + 2 <= q <= src.len(),
    decreases src.len() - p,
{
    if 0 <= p < src.len() {
        if opens_comment(src, p) {
            lemma_block_comment_end_bounds(src, p + 1, depth + 1);
        } else if closes_comment(src, p) {
            if depth > 1 {
                lemma_block_comment_end_bounds(src, p + 1, (depth - 1) as nat);
            }
        } else {
            lemma_block_comment_end_bounds(src, p + 1, depth);
        }
    }
}

/// A line comment ends after where it was read from, within the source.
pub proof fn lemma_line_comment_end_bounds(src: Seq<u8>, p: int)
    requires
        0 <= p,
    ensures
        p <= line_comment_end(src, p) || src.len() < p,
        line_comment_end(src, p) <= src.len(),
        p < src.len() ==> p < line_comment_end(src, p),
    decreases src.len() - p,
{
    if p < src.len() && src[p] != LF {
        lemma_line_comment_end_bounds(src, p + 1);
    }
}

/// Skipping moves forward, stays within the source, and stops where there
/// is nothing more to skip.
pub proof fn lemma_skip_end(src: Seq<u8>, p: int)
    requires
        0 <= p <= src.len(),
    ensures
        skip_end(src, p) matches Some(q) ==> {
            &&& p <= q <= src.len()
            &&& skip_end(src, q) == Some(q)
            &&& q < src.len() ==> !is_space_byte(src[q]) && !opens_comment(src, q)
                && !opens_line_comment(src, q)
        },
    decreases src.len() - p,
{
    if p < src.len() {
        if is_space_byte(src[p]) {
            lemma_skip_end(src, p + 1);
        } else if opens_comment(src, p) {
            lemma_block_comment_end_bounds(src, p + 2, 1);
            match block_comment_end(src, p + 2, 1) {
                Some(q) => lemma_skip_end(src, q),
                None => {},
            }
        } else if opens_line_comment(src, p) {
            lemma_line_comment_end_bounds(src, p + 2);
            lemma_skip_end(src, line_comment_end(src, p + 2));
        }
    }
}

/// The nesting depth inside a block comment whose body begins at `from`,
/// after the bytes up to `to` have been read: one, plus the `(;` and minus
/// the `;)` that begin in `[from, to)`.
pub open spec fn comment_depth(src: Seq<u8>, from: int, to: int) -> int
    decreases to - from,
{
    if to <= from {
        1
    } else if opens_comment(src, to - 1) {
        comment_depth(src, from, to - 1) + 1
    } else if closes_comment(src, to - 1) {
        comment_depth(src, from, to - 1) - 1
    } else {
        comment_depth(src, from, to - 1)
    }
}

/// Whether `[start, end)` is a block comment with balanced nesting: it
/// begins with `(;`, ends with `;)`, and between them every `;)` closes a
/// `(;` that was opened inside, leaving none open.
pub open spec fn is_balanced_comment(src: Seq<u8>, start: int, end: int) -> bool {
    &&& opens_comment(src, start)
    &&& start + 4 <= end <= src.len()
    &&& closes_comment(src, end - 2)
    &&& comment_depth(src, start + 2, end - 2) == 1
    &&& forall|p: int| start + 2 <= p <= end - 2 ==> #[trigger] comment_depth(src, start + 2, p) >= 1
}

proof fn lemma_balanced_comment_from(src: Seq<u8>, from: int, p: int, end: int)
    requires
        0 <= from <= p <= end - 2,
        end <= src.len(),
        closes_comment(src, end - 2),
        comment_depth(src, from, end - 2) == 1,
        forall|q: int| from <= q <= end - 2 ==> #[trigger] comment_depth(src, from, q) >= 1,
    ensures
        block_comment_end(src, p, comment_depth(src, from, p) as nat) == Some(end),
    decreases end - p,
{
    assert(comment_depth(src, from, p) >= 1);
    if p < end - 2 {
        assert(comment_depth(src, from, p + 1) >= 1);
        lemma_balanced_comment_from(src, from, p + 1, end);
    }
}

/// A block comment with balanced nesting is skipped whole: reading on from
/// behind its opening `(;` ends just after its last `;)`, and skipping from
/// its first byte goes on from there.
pub proof fn lemma_balanced_comment_is_skipped(src: Seq<u8>, start: int, end: int)
    requires
        is_balanced_comment(src, start, end),
    ensures
        block_comment_end(src, start + 2, 1) == Some(end),
        skip_end(src, start) == skip_end(src, end),
{
    lemma_balanced_comment_from(src, start + 2, start + 2, end);
}

/// Where the hexadecimal number that begins with the digit at `p` ends:
/// after the last digit of the longest run of digits and single
/// underscores between digits.
pub open spec fn hexnum_run_end(src: Seq<u8>, p: int) -> int
    decreases src.len() - p,
{
    if p < 0 || p + 1 >= src.len() {
        p + 1
    } else if is_hexdigit_byte(src[p + 1]) {
        hexnum_run_end(src, p + 1)
    } else if src[p + 1] == '_' as u8 && p + 2 < src.len() && is_hexdigit_byte(src[p + 2]) {
        hexnum_run_end(src, p + 2)
    } else {
        p + 1
    }
}

/// A hexadecimal run is not empty, stays within the source and holds only
/// digits and underscores.
pub proof fn lemma_hexnum_run_end(src: Seq<u8>, p: int)
    requires
        0 <= p < src.len(),
        is_hexdigit_byte(src[p]),
    ensures
        p < hexnum_run_end(src, p) <= src.len(),
        forall|k: int|
            p <= k < hexnum_run_end(src, p) ==> is_hexdigit_byte(#[trigger] src[k]) || src[k]
                == '_' as u8,
    decreases src.len() - p,
{
    if p + 1 < src.len() {
        if is_hexdigit_byte(src[p + 1]) {
            lemma_hexnum_run_end(src, p + 1);
        } else if src[p + 1] == '_' as u8 && p + 2 < src.len() && is_hexdigit_byte(src[p + 2]) {
            lemma_hexnum_run_end(src, p + 2);
        }
    }
}

/// One of the escapes of a single letter: `\t`, `\n`, `\r`, `\"`, `\'`,
/// `\\`.
pub open spec fn is_simple_escape(b: u8) -> bool {
    ||| b == 't' as u8
    ||| b == 'n' as u8
    ||| b == 'r' as u8
    ||| b == '"' as u8
    ||| b == '\'' as u8
    ||| b == '\\' as u8
}

/// Where the escape that begins with the backslash at `p` ends, or the
/// offset at which it goes wrong.
pub open spec fn escape_end(src: Seq<u8>, p: int) -> Result<int, int> {
    let n = src.len() as int;
    if p + 1 >= n {
        Err(n)
    } else if src[p + 1] == 'u' as u8 {
        if p + 2 >= n {
            Err(n)
        } else if src[p + 2] != '{' as u8 {
            Err(p + 2)
        } else if p + 3 >= n {
            Err(n)
        } else if !is_hexdigit_byte(src[p + 3]) {
            Err(p + 3)
        } else {
            let e = hexnum_run_end(src, p + 3);
            if e >= n {
                Err(n)
            } else if src[e] != '}' as u8 {
                Err(e)
            } else {
                Ok(e + 1)
            }
        }
    } else if is_simple_escape(src[p + 1]) {
        Ok(p + 2)
    } else if !is_hexdigit_byte(src[p + 1]) {
        Err(p + 1)
    } else if p + 2 >= n {
        Err(n)
    } else if !is_hexdigit_byte(src[p + 2]) {
        Err(p + 2)
    } else {
        Ok(p + 3)
    }
}

/// Where `count` continuation bytes read from `p` end, or the offset at
/// which one is missing.
pub open spec fn continuation_end(src: Seq<u8>, p: int, count: nat) -> Result<int, int>
    decreases count,
{
    if count == 0 {
        Ok(p)
    } else if p >= src.len() {
        Err(src.len() as int)
    } else if !is_continuation_byte(src[p]) {
        Err(p)
    } else {
        continuation_end(src, p + 1, (count - 1) as nat)
    }
}

/// Where the multi-byte sequence that begins with the byte at `p` ends, or
/// the offset at which it goes wrong: a lead byte announces one, two or
/// three continuation bytes.
pub open spec fn utf8_sequence_end(src: Seq<u8>, p: int) -> Result<int, int> {
    if is_leading_byte_width_2(src[p]) {
        continuation_end(src, p + 1, 1)
    } else if is_leading_byte_width_3(src[p]) {
        continuation_end(src, p + 1, 2)
    } else if is_leading_byte_width_4(src[p]) {
        continuation_end(src, p + 1, 3)
    } else {
        Err(p)
    }
}

/// Where the element of a string literal at `p` ends, or the offset at
/// which it goes wrong. An element is an escape, a multi-byte sequence, or
/// one byte that is no control byte.
pub open spec fn string_item_end(src: Seq<u8>, p: int) -> Result<int, int> {
    if src[p] == '\\' as u8 {
        escape_end(src, p)
    } else if src[p] >= 0x80 {
        utf8_sequence_end(src, p)
    } else if src[p] < 0x20 || src[p] == 0x7f {
        Err(p)
    } else {
        Ok(p + 1)
    }
}

/// Where the string literal read from offset `p` inside it ends, after
/// its closing quote, or the offset at which it goes wrong.
pub open spec fn string_end(src: Seq<u8>, p: int) -> Result<int, int>
    decreases src.len() - p,
    via string_end_decreases
{
    if p < 0 || p >= src.len() {
        Err(src.len() as int)
    } else if src[p] == '"' as u8 {
        Ok(p + 1)
    } else {
        match string_item_end(src, p) {
            Ok(q) => string_end(src, q),
            Err(at) => Err(at),
        }
    }
}

#[via_fn]
proof fn string_end_decreases(src: Seq<u8>, p: int) {
    if 0 <= p < src.len() {
        lemma_string_item_end(src, p);
    }
}

pub proof fn lemma_continuation_end(src: Seq<u8>, p: int, count: nat)
    requires
        0 <= p <= src.len(),
    ensures
        match continuation_end(src, p, count) {
            Ok(q) => q == p + count && q <= src.len() && forall|k: int|
                p <= k < q ==> #[trigger] src[k] >= 0x80,
            Err(at) => p <= at <= src.len(),
        },
    decreases count,
{
    if count > 0 && p < src.len() && is_continuation_byte(src[p]) {
        lemma_continuation_end(src, p + 1, (count - 1) as nat);
    }
}

/// An element of a string literal is not empty, stays within the source
/// and holds no line feed; where it goes wrong is within the source too.
pub proof fn lemma_string_item_end(src: Seq<u8>, p: int)
    requires
        0 <= p < src.len(),
    ensures
        match string_item_end(src, p) {
            Ok(q) => p < q <= src.len() && no_line_feed(src, p, q),
            Err(at) => p <= at <= src.len(),
        },
{
    if src[p] == '\\' as u8 {
        if p + 3 < src.len() && is_hexdigit_byte(src[p + 3]) {
            lemma_hexnum_run_end(src, p + 3);
        }
    } else if src[p] >= 0x80 {
        lemma_continuation_end(src, p + 1, 1);
        lemma_continuation_end(src, p + 1, 2);
        lemma_continuation_end(src, p + 1, 3);
    }
}

/// A string literal ends within the source and holds no line feed; where
/// it goes wrong is within the source too.
pub proof fn lemma_string_end(src: Seq<u8>, p: int)
    requires
        0 <= p <= src.len(),
    ensures
        match string_end(src, p) {
            Ok(q) => p < q <= src.len() && no_line_feed(src, p, q),
            Err(at) => p <= at <= src.len(),
        },
    decreases src.len() - p,
{
    if p < src.len() && src[p] != '"' as u8 {
        lemma_string_item_end(src, p);
        match string_item_end(src, p) {
            Ok(q) => lemma_string_end(src, q),
            Err(at) => {},
        }
    }
}

/// Where the run of identifier bytes read from `p` ends: at the first byte
/// at or after `p` that is none, or at the end of the source.
pub open spec fn idchar_run_end(src: Seq<u8>, p: int) -> int
    decreases src.len() - p,
{
    if 0 <= p < src.len() && is_idchar_byte(src[p]) {
        idchar_run_end(src, p + 1)
    } else {
        p
    }
}

/// The run of identifier bytes is the longest there is: all bytes in it are
/// identifier bytes, and it stops exactly at the first byte that is none.
pub proof fn lemma_idchar_run_is_maximal(src: Seq<u8>, p: int)
    requires
        0 <= p <= src.len(),
    ensures
        p <= idchar_run_end(src, p) <= src.len(),
        forall|k: int| p <= k < idchar_run_end(src, p) ==> is_idchar_byte(#[trigger] src[k]),
        idchar_run_end(src, p) < src.len() ==> !is_idchar_byte(src[idchar_run_end(src, p)]),
    decreases src.len() - p,
{
    if p < src.len() && is_idchar_byte(src[p]) {
        lemma_idchar_run_is_maximal(src, p + 1);
    }
}

/// The kind of the token that a run of identifier bytes makes.
pub open spec fn classify(run: Seq<u8>) -> WatTokenType {
    if run[0] == '$' as u8 {
        WatTokenType::ID
    } else if is_sign_byte(run[0]) && is_number(run.skip(1)) {
        WatTokenType::Signed
    } else if is_number(run) {
        WatTokenType::Unsigned
    } else if is_float(run) {
        WatTokenType::Float
    } else if 'a' as u8 <= run[0] <= 'z' as u8 {
        WatTokenType::Keyword
    } else {
        WatTokenType::Reserved
    }
}

/// Line, column and offset of the byte offset `p`.
pub open spec fn position_at(src: Seq<u8>, p: int) -> WatPosition {
    WatPosition {
        line: line_at(src, p) as usize,
        column: column_at(src, p) as usize,
        position: p as usize,
    }
}

/// The token of kind `ty` that spans `[start, end)`.
pub open spec fn token_at(src: Seq<u8>, ty: WatTokenType, start: int, end: int) -> WatToken {
    WatToken { ty, start: position_at(src, start), end: position_at(src, end) }
}

/// The error with the given message at byte offset `p`.
pub open spec fn lexer_error_at(src: Seq<u8>, message: &'static str, p: int) -> WatLexerError {
    WatLexerError { message, line: line_at(src, p) as usize, column: column_at(src, p) as usize }
}

/// The error for a string literal that goes wrong at offset `at`: the
/// source ended, or the byte there cannot stand in the string.
pub open spec fn string_error_at(src: Seq<u8>, at: int) -> WatLexerError {
    if at >= src.len() {
        lexer_error_at(src, "Unexpected eos", at)
    } else {
        lexer_error_at(src, "Unexpected character", at)
    }
}

/// The token that begins at the first offset at or after `p` that is
/// neither blank nor inside a comment, or the error that scanning from `p`
/// runs into.
#[verifier::opaque]
pub open spec fn next_token(src: Seq<u8>, p: int) -> Result<WatToken, WatLexerError> {
    match skip_end(src, p) {
        None => Err(lexer_error_at(src, "Incomplete block comment", src.len() as int)),
        Some(q) => {
            if q >= src.len() {
                Ok(token_at(src, WatTokenType::End, q, q))
            } else if src[q] == '"' as u8 {
                match string_end(src, q + 1) {
                    Ok(e) => Ok(token_at(src, WatTokenType::String, q, e)),
                    Err(at) => Err(string_error_at(src, at)),
                }
            } else if src[q] == '(' as u8 {
                Ok(token_at(src, WatTokenType::OpenParen, q, q + 1))
            } else if src[q] == ')' as u8 {
                Ok(token_at(src, WatTokenType::CloseParen, q, q + 1))
            } else if is_idchar_byte(src[q]) {
                let e = idchar_run_end(src, q);
                Ok(token_at(src, classify(src.subrange(q, e)), q, e))
            } else {
                Err(lexer_error_at(src, "Unexpected character", q))
            }
        },
    }
}

/// Whether `t` is the token that the source holds at `t`'s own start.
pub open spec fn is_token_of(src: Seq<u8>, t: WatToken) -> bool {
    next_token(src, t.start.position as int) == Ok::<WatToken, WatLexerError>(t)
}

/// What holds of every token that scanning from `p` yields: it begins at or
/// after `p` and lies within the source; it is empty only if it is the end
/// token; its positions are those of its offsets; no line feed lies in it;
/// and it is the token found at its own start.
pub proof fn lemma_next_token(src: Seq<u8>, p: int)
    requires
        0 <= p <= src.len() < usize::MAX,
    ensures
        next_token(src, p) matches Ok(t) ==> {
            &&& p <= t.start.position <= t.end.position <= src.len()
            &&& (t.start.position == t.end.position <==> t.ty == WatTokenType::End)
            &&& t.ty == WatTokenType::End ==> t.end.position == src.len()
            &&& t.start == position_at(src, t.start.position as int)
            &&& t.end == position_at(src, t.end.position as int)
            &&& no_line_feed(src, t.start.position as int, t.end.position as int)
            &&& t.end.line == t.start.line
            &&& is_token_of(src, t)
        },
{
    reveal(next_token);
    lemma_skip_end(src, p);
    match skip_end(src, p) {
        None => {},
        Some(q) => {
            if q < src.len() {
                if src[q] == '"' as u8 {
                    lemma_string_end(src, q + 1);
                } else if is_idchar_byte(src[q]) {
                    lemma_idchar_run_is_maximal(src, q);
                    lemma_classify_not_end(src.subrange(q, idchar_run_end(src, q)));
                }
            }
            match next_token(src, p) {
                Ok(t) => {
                    let (s, e) = (t.start.position as int, t.end.position as int);
                    assert(s == q);
                    lemma_same_line(src, s, e);
                    lemma_line_bounds(src, s);
                    lemma_line_bounds(src, e);
                },
                Err(_) => {},
            }
        },
    }
}

/// Whether tokens of kind `ty` are runs of identifier bytes: all but
/// strings, parentheses and the end token.
pub open spec fn is_run_kind(ty: WatTokenType) -> bool {
    ||| ty == WatTokenType::Keyword
    ||| ty == WatTokenType::Unsigned
    ||| ty == WatTokenType::Signed
    ||| ty == WatTokenType::Float
    ||| ty == WatTokenType::ID
    ||| ty == WatTokenType::Reserved
}

/// A token made of identifier bytes is the longest run of them: it is not
/// empty, holds identifier bytes only, and stops exactly at the first byte
/// behind its start that is none, or at the end of the source. Its kind is
/// that of the run.
pub proof fn lemma_run_token_is_maximal(src: Seq<u8>, p: int)
    requires
        0 <= p <= src.len() < usize::MAX,
    ensures
        next_token(src, p) matches Ok(t) ==> is_run_kind(t.ty) ==> {
            &&& t.start.position < t.end.position <= src.len()
            &&& forall|k: int|
                t.start.position <= k < t.end.position ==> is_idchar_byte(#[trigger] src[k])
            &&& t.end.position < src.len() ==> !is_idchar_byte(src[t.end.position as int])
            &&& t.end.position == idchar_run_end(src, t.start.position as int)
            &&& t.ty == classify(src.subrange(t.start.position as int, t.end.position as int))
        },
{
    reveal(next_token);
    lemma_skip_end(src, p);
    lemma_next_token(src, p);
    if let Some(q) = skip_end(src, p) {
        if q < src.len() && is_idchar_byte(src[q]) {
            lemma_idchar_run_is_maximal(src, q);
        }
    }
}

proof fn lemma_classify_not_end(run: Seq<u8>)
    ensures
        classify(run) != WatTokenType::End,
        classify(run) != WatTokenType::String,
        classify(run) != WatTokenType::OpenParen,
        classify(run) != WatTokenType::CloseParen,
{
}

} // verus!
