//! The lexer: a cursor over the source bytes that hands out one classified
//! token at a time and can step back by one token.

use vstd::prelude::*;
use vstd::slice::slice_subrange;
use crate::bytes::{is_hexdigit_byte, is_idchar_byte, LF};
use crate::lines::{lemma_line_bounds, line_at, line_start_at};
use crate::scan::{
    block_comment_end, classify, continuation_end, escape_end, hexnum_run_end, idchar_run_end,
    is_token_of, lemma_block_comment_end_bounds, lemma_hexnum_run_end,
    lemma_line_comment_end_bounds, lemma_next_token, lemma_skip_end, lemma_string_item_end,
    lexer_error_at, line_comment_end, next_token, opens_comment, opens_line_comment, position_at,
    skip_end, string_end, string_error_at, token_at, utf8_sequence_end,
};

verus! {

/// What went wrong while scanning, and where.
#[derive(Debug, Copy, Clone)]
pub struct WatLexerError {
    pub message: &'static str,
    pub line: usize,
    pub column: usize,
}

/// A place in the source: 1-based line, column in bytes since the start of
/// that line, and byte offset.
#[derive(Debug, Clone, Copy)]
pub struct WatPosition {
    pub line: usize,
    pub column: usize,
    pub position: usize,
}

/// The kinds of token.
#[derive(Debug, Clone, Copy, PartialEq, Eq)]
pub enum WatTokenType {
    End,
    Keyword,
    Unsigned,
    Signed,
    Float,
    String,
    ID,
    OpenParen,
    CloseParen,
    Reserved,
}

/// A token: its kind and the half-open span `[start, end)` of source bytes
/// it covers. The end token is the only empty one; it stands at the end of
/// the source.
#[derive(Debug, Clone, Copy)]
pub struct WatToken {
    pub ty: WatTokenType,
    pub start: WatPosition,
    pub end: WatPosition,
}

/// The lexer over a borrowed source.
pub struct WatLexer<'a> {
    source: &'a [u8],
    token: Option<WatToken>,
    past_token: Option<WatToken>,
    position: usize,
    line: usize,
    line_start: usize,
}

/// The state of a lexer: the source, the token it last produced, the one
/// before it while a step back is possible, and the offset it reads on from.
pub struct LexerView {
    pub source: Seq<u8>,
    pub token: Option<WatToken>,
    pub past_token: Option<WatToken>,
    pub position: int,
}

impl LexerView {
    /// The state of a lexer that has produced no token yet.
    pub open spec fn initial(source: Seq<u8>) -> LexerView {
        LexerView { source, token: None, past_token: None, position: 0 }
    }

    /// Whether `t` lies in the source and is the token found at its start.
    pub open spec fn holds_token(self, t: WatToken) -> bool {
        t.start.position <= self.source.len() && is_token_of(self.source, t)
    }

    /// The states a lexer can be in. The current token is one of the
    /// source, and reading on yields the token that follows it. While a
    /// step back is possible, the past token is the one before the current
    /// token, and reading goes on from the end of the current one.
    pub open spec fn wf(self) -> bool {
        &&& self.source.len() < usize::MAX
        &&& 0 <= self.position <= self.source.len()
        &&& match self.token {
            None => self.past_token is None && self.position == 0,
            Some(t) => {
                &&& self.holds_token(t)
                &&& next_token(self.source, self.position) == next_token(
                    self.source,
                    t.end.position as int,
                )
            },
        }
        &&& match self.past_token {
            None => true,
            Some(p) => {
                &&& self.holds_token(p)
                &&& self.token matches Some(t)
                &&& next_token(self.source, p.end.position as int) == Ok::<WatToken, WatLexerError>(t)
                &&& self.position == t.end.position
            },
        }
    }

    /// The state after reading the next token, or the error that reading
    /// it runs into.
    pub open spec fn next(self) -> Result<LexerView, WatLexerError> {
        match next_token(self.source, self.position) {
            Ok(t) => Ok(
                LexerView {
                    source: self.source,
                    token: Some(t),
                    past_token: self.token,
                    position: t.end.position as int,
                },
            ),
            Err(e) => Err(e),
        }
    }

    /// Whether a step back is possible: two tokens were read, and no step
    /// back was made since the last one.
    pub open spec fn can_rewind(self) -> bool {
        self.past_token is Some
    }

    /// The state after a step back: the past token is current again, and
    /// reading goes on from the start of the token that was current.
    pub open spec fn rewind(self) -> LexerView {
        LexerView {
            source: self.source,
            token: self.past_token,
            past_token: None,
            position: self.token.unwrap().start.position as int,
        }
    }
}

impl<'a> View for WatLexer<'a> {
    type V = LexerView;

    closed spec fn view(&self) -> LexerView {
        LexerView {
            source: self.source@,
            token: self.token,
            past_token: self.past_token,
            position: self.position as int,
        }
    }
}

impl<'a> WatLexer<'a> {
    /// Line and line start are those of the offset the lexer stands at.
    pub closed spec fn cursor_ok(&self) -> bool {
        &&& self.source@.len() < usize::MAX
        &&& self.position <= self.source@.len()
        &&& self.line == line_at(self.source@, self.position as int)
        &&& self.line_start == line_start_at(self.source@, self.position as int)
    }

    /// The invariant of the lexer.
    pub open spec fn wf(&self) -> bool {
        self.cursor_ok() && self@.wf()
    }

    /// Source and tokens are those of `other`.
    spec fn same_tokens(&self, other: &Self) -> bool {
        &&& self.source@ == other.source@
        &&& self.token == other.token
        &&& self.past_token == other.past_token
    }

    /// A lexer at the start of `source`, with no current token. The source
    /// must be shorter than `usize::MAX` bytes, so that line numbers fit.
    pub fn new(source: &'a [u8]) -> (lexer: WatLexer<'a>)
        requires
            source@.len() < usize::MAX,
        ensures
            lexer.wf(),
            lexer@ == LexerView::initial(source@),
    {
        WatLexer { source, token: None, past_token: None, position: 0, line: 1, line_start: 0 }
    }

    fn current_char(&self) -> (ch: u8)
        requires
            self.position < self.source@.len(),
        ensures
            ch == self.source@[self.position as int],
    {
        self.source[self.position]
    }

    fn current_position(&self) -> (p: WatPosition)
        requires
            self.cursor_ok(),
        ensures
            p == position_at(self.source@, self.position as int),
    {
        proof {
            lemma_line_bounds(self.source@, self.position as int);
        }
        WatPosition {
            line: self.line,
            column: self.position - self.line_start,
            position: self.position,
        }
    }

    /// Moves over one byte and says whether another one follows.
    fn next_char(&mut self) -> (more: bool)
        requires
            old(self).position < old(self).source@.len(),
        ensures
            final(self).same_tokens(old(self)),
            final(self).position == old(self).position + 1,
            final(self).line == old(self).line,
            final(self).line_start == old(self).line_start,
            more == (final(self).position < final(self).source@.len()),
            old(self).cursor_ok() && old(self).source@[old(self).position as int] != LF
                ==> final(self).cursor_ok(),
    {
        let len = self.source.len();
        self.position += 1;
        self.position < len
    }

    fn eos(&self) -> (r: bool)
        ensures
            r == (self.position >= self.source@.len()),
    {
        self.position >= self.source.len()
    }

    fn is_idchar(&self) -> (r: bool)
        requires
            self.position < self.source@.len(),
        ensures
            r == is_idchar_byte(self.source@[self.position as int]),
    {
        let ch = self.current_char();
        ch >= '0' as u8 && ch <= '9' as u8 || ch >= 'A' as u8 && ch <= 'Z' as u8 || ch >= 'a' as u8
            && ch <= 'z' as u8 || ch == '!' as u8 || ch == '#' as u8 || ch == '$' as u8 || ch
            == '%' as u8 || ch == '&' as u8 || ch == '\'' as u8 || ch == '*' as u8 || ch
            == '+' as u8 || ch == '-' as u8 || ch == '.' as u8 || ch == '/' as u8 || ch
            == ':' as u8 || ch == '<' as u8 || ch == '=' as u8 || ch == '>' as u8 || ch
            == '?' as u8 || ch == '@' as u8 || ch == '\\' as u8 || ch == '^' as u8 || ch
            == '_' as u8 || ch == '`' as u8 || ch == '~' as u8
    }

    fn is_hexdigit(&self) -> (r: bool)
        requires
            self.position < self.source@.len(),
        ensures
            r == is_hexdigit_byte(self.source@[self.position as int]),
    {
        let ch = self.current_char();
        ch >= '0' as u8 && ch <= '9' as u8 || ch >= 'A' as u8 && ch <= 'F' as u8 || ch >= 'a' as u8
            && ch <= 'f' as u8
    }

    /// Moves back over one byte.
    fn unwind(&mut self)
        requires
            old(self).position > 0,
        ensures
            final(self).same_tokens(old(self)),
            final(self).position == old(self).position - 1,
            final(self).line == old(self).line,
            final(self).line_start == old(self).line_start,
    {
        self.position -= 1;
    }

    /// Moves from the first digit of a hexadecimal number to the byte after
    /// its last digit.
    fn skip_hexnum(&mut self)
        requires
            old(self).cursor_ok(),
            old(self).position < old(self).source@.len(),
            is_hexdigit_byte(old(self).source@[old(self).position as int]),
        ensures
            final(self).same_tokens(old(self)),
            final(self).cursor_ok(),
            final(self).position == hexnum_run_end(old(self).source@, old(self).position as int),
    {
        let ghost start = *self;
        let ghost src = self.source@;
        loop
            invariant_except_break
                self.position < src.len(),
                is_hexdigit_byte(src[self.position as int]),
                hexnum_run_end(src, start.position as int) == hexnum_run_end(
                    src,
                    self.position as int,
                ),
            invariant
                src == start.source@,
                start == *old(self),
                self.same_tokens(&start),
                self.cursor_ok(),
            ensures
                self.position == hexnum_run_end(src, start.position as int),
            decreases src.len() - self.position,
        {
            if !self.next_char() {
                break ;
            }
            if self.is_hexdigit() {
                continue ;
            }
            if self.current_char() != '_' as u8 {
                break ;
            }
            if !self.next_char() {
                self.unwind();
                break ;
            }
            if !self.is_hexdigit() {
                self.unwind();
                break ;
            }
        }
    }

    fn unexpected_char(&self) -> (e: WatLexerError)
        requires
            self.cursor_ok(),
        ensures
            e == lexer_error_at(self.source@, "Unexpected character", self.position as int),
    {
        self.create_error("Unexpected character")
    }

    fn unexpected_eos(&self) -> (e: WatLexerError)
        requires
            self.cursor_ok(),
        ensures
            e == lexer_error_at(self.source@, "Unexpected eos", self.position as int),
    {
        self.create_error("Unexpected eos")
    }

    /// Scans the escape that begins with the backslash the lexer stands at.
    fn scan_escape(&mut self) -> (r: Result<(), WatLexerError>)
        requires
            old(self).cursor_ok(),
            old(self).position < old(self).source@.len(),
            old(self).source@[old(self).position as int] == '\\' as u8,
        ensures
            final(self).same_tokens(old(self)),
            match escape_end(old(self).source@, old(self).position as int) {
                Ok(e) => r is Ok && final(self).position == e && final(self).cursor_ok(),
                Err(at) => r == Err::<(), WatLexerError>(string_error_at(old(self).source@, at)),
            },
    {
        if !self.next_char() {
            return Err(self.unexpected_eos());
        }
        let ch = self.current_char();
        if ch == 'u' as u8 {
            if !self.next_char() {
                return Err(self.unexpected_eos());
            }
            if self.current_char() != '{' as u8 {
                return Err(self.unexpected_char());
            }
            if !self.next_char() {
                return Err(self.unexpected_eos());
            }
            if !self.is_hexdigit() {
                return Err(self.unexpected_char());
            }
            proof {
                lemma_hexnum_run_end(self.source@, self.position as int);
            }
            self.skip_hexnum();
            if self.eos() {
                return Err(self.unexpected_eos());
            }
            if self.current_char() != '}' as u8 {
                return Err(self.unexpected_char());
            }
            self.next_char();
        } else if ch == 't' as u8 || ch == 'n' as u8 || ch == 'r' as u8 || ch == '"' as u8 || ch
            == '\'' as u8 || ch == '\\' as u8 {
            self.next_char();
        } else {
            if !self.is_hexdigit() {
                return Err(self.unexpected_char());
            }
            if !self.next_char() {
                return Err(self.unexpected_eos());
            }
            if !self.is_hexdigit() {
                return Err(self.unexpected_char());
            }
            self.next_char();
        }
        Ok(())
    }

    /// Scans `count` continuation bytes.
    #[verifier::loop_isolation(false)]
    fn scan_continuation(&mut self, count: u8) -> (r: Result<(), WatLexerError>)
        requires
            old(self).cursor_ok(),
        ensures
            final(self).same_tokens(old(self)),
            match continuation_end(old(self).source@, old(self).position as int, count as nat) {
                Ok(e) => r is Ok && final(self).position == e && final(self).cursor_ok(),
                Err(at) => r == Err::<(), WatLexerError>(string_error_at(old(self).source@, at)),
            },
    {
        let ghost start = *self;
        let ghost src = self.source@;
        let mut left = count;
        while left > 0
            invariant
                src == start.source@,
                self.same_tokens(&start),
                self.cursor_ok(),
                continuation_end(src, start.position as int, count as nat) == continuation_end(
                    src,
                    self.position as int,
                    left as nat,
                ),
            decreases left,
        {
            if self.eos() {
                return Err(self.unexpected_eos());
            }
            let ch = self.current_char();
            if ch < 0x80 || ch > 0xbf {
                return Err(self.unexpected_char());
            }
            self.next_char();
            left -= 1;
        }
        Ok(())
    }

    /// Scans the multi-byte sequence whose first byte the lexer stands at.
    fn scan_utf8_sequence(&mut self) -> (r: Result<(), WatLexerError>)
        requires
            old(self).cursor_ok(),
            old(self).position < old(self).source@.len(),
            old(self).source@[old(self).position as int] >= 0x80,
        ensures
            final(self).same_tokens(old(self)),
            match utf8_sequence_end(old(self).source@, old(self).position as int) {
                Ok(e) => r is Ok && final(self).position == e && final(self).cursor_ok(),
                Err(at) => r == Err::<(), WatLexerError>(string_error_at(old(self).source@, at)),
            },
    {
        let ch = self.current_char();
        if ch < 0xc0 || ch >= 0xf8 {
            return Err(self.unexpected_char());
        }
        self.next_char();
        if ch < 0xe0 {
            self.scan_continuation(1)
        } else if ch < 0xf0 {
            self.scan_continuation(2)
        } else {
            self.scan_continuation(3)
        }
    }

    /// Scans the string literal whose opening quote the lexer stands at.
    #[verifier::loop_isolation(false)]
    fn scan_string(&mut self) -> (r: Result<WatToken, WatLexerError>)
        requires
            old(self).cursor_ok(),
            old(self).position < old(self).source@.len(),
            old(self).source@[old(self).position as int] == '"' as u8,
        ensures
            final(self).same_tokens(old(self)),
            match string_end(old(self).source@, old(self).position + 1) {
                Ok(e) => {
                    &&& r == Ok::<WatToken, WatLexerError>(
                        token_at(
                            old(self).source@,
                            WatTokenType::String,
                            old(self).position as int,
                            e,
                        ),
                    )
                    &&& final(self).position == e
                    &&& final(self).cursor_ok()
                },
                Err(at) => r == Err::<WatToken, WatLexerError>(
                    string_error_at(old(self).source@, at),
                ),
            },
    {
        let ghost first = *self;
        let ghost src = self.source@;
        let start = self.current_position();
        self.next_char();
        loop
            invariant
                src == first.source@,
                self.same_tokens(&first),
                self.cursor_ok(),
                first.position < self.position,
                start == position_at(src, first.position as int),
                string_end(src, first.position + 1) == string_end(src, self.position as int),
            decreases src.len() - self.position,
        {
            if self.eos() {
                return Err(self.unexpected_eos());
            }
            let ch = self.current_char();
            if ch == '"' as u8 {
                self.next_char();
                return Ok(
                    WatToken { ty: WatTokenType::String, start, end: self.current_position() },
                );
            }
            proof {
                lemma_string_item_end(src, self.position as int);
            }
            if ch == '\\' as u8 {
                match self.scan_escape() {
                    Ok(_) => {},
                    Err(e) => {
                        return Err(e);
                    },
                }
            } else if ch >= 0x80 {
                match self.scan_utf8_sequence() {
                    Ok(_) => {},
                    Err(e) => {
                        return Err(e);
                    },
                }
            } else if ch < 0x20 || ch == 0x7f {
                return Err(self.unexpected_char());
            } else {
                self.next_char();
            }
        }
    }

    /// Scans the run of identifier bytes the lexer stands at, and
    /// classifies it.
    #[verifier::loop_isolation(false)]
    fn scan_reserved(&mut self) -> (r: WatToken)
        requires
            old(self).cursor_ok(),
            old(self).position < old(self).source@.len(),
            is_idchar_byte(old(self).source@[old(self).position as int]),
        ensures
            final(self).same_tokens(old(self)),
            final(self).cursor_ok(),
            final(self).position == idchar_run_end(old(self).source@, old(self).position as int),
            r == token_at(
                old(self).source@,
                classify(
                    old(self).source@.subrange(
                        old(self).position as int,
                        final(self).position as int,
                    ),
                ),
                old(self).position as int,
                final(self).position as int,
            ),
    {
        let ghost first = *self;
        let ghost src = self.source@;
        let start = self.current_position();
        let start_position = start.position;
        let mut more = self.next_char();
        while more && self.is_idchar()
            invariant
                src == first.source@,
                self.same_tokens(&first),
                self.cursor_ok(),
                first.position < self.position,
                more == (self.position < src.len()),
                idchar_run_end(src, first.position as int) == idchar_run_end(
                    src,
                    self.position as int,
                ),
            decreases src.len() - self.position,
        {
            more = self.next_char();
        }
        let end = self.current_position();
        let end_position = end.position;
        let ghost run = src.subrange(start_position as int, end_position as int);
        assert(run[0] == src[start_position as int]);
        let first_char = self.source[start_position];
        if first_char == '$' as u8 {
            return WatToken { ty: WatTokenType::ID, start, end };
        }
        assert(run.skip(1) =~= src.subrange(start_position + 1, end_position as int));
        if (first_char == '+' as u8 || first_char == '-' as u8) && Self::is_number(
            slice_subrange(self.source, start_position + 1, end_position),
        ) {
            return WatToken { ty: WatTokenType::Signed, start, end };
        }
        if Self::is_number(slice_subrange(self.source, start_position, end_position)) {
            return WatToken { ty: WatTokenType::Unsigned, start, end };
        }
        if Self::is_float(slice_subrange(self.source, start_position, end_position)) {
            return WatToken { ty: WatTokenType::Float, start, end };
        }
        if first_char >= 'a' as u8 && first_char <= 'z' as u8 {
            return WatToken { ty: WatTokenType::Keyword, start, end };
        }
        WatToken { ty: WatTokenType::Reserved, start, end }
    }

    fn create_error(&self, message: &'static str) -> (e: WatLexerError)
        requires
            self.cursor_ok(),
        ensures
            e == lexer_error_at(self.source@, message, self.position as int),
    {
        proof {
            lemma_line_bounds(self.source@, self.position as int);
        }
        WatLexerError { message, line: self.line, column: self.position - self.line_start }
    }

    /// Moves over the block comment whose `(;` the lexer stands at.
    #[verifier::loop_isolation(false)]
    fn skip_block_comment(&mut self) -> (r: Result<(), WatLexerError>)
        requires
            old(self).cursor_ok(),
            opens_comment(old(self).source@, old(self).position as int),
        ensures
            final(self).same_tokens(old(self)),
            match block_comment_end(old(self).source@, old(self).position + 2, 1) {
                Some(e) => r is Ok && final(self).position == e && final(self).cursor_ok(),
                None => r == Err::<(), WatLexerError>(
                    lexer_error_at(
                        old(self).source@,
                        "Incomplete block comment",
                        old(self).source@.len() as int,
                    ),
                ),
            },
    {
        let ghost first = *self;
        let ghost src = self.source@;
        self.next_char();
        let mut depth: usize = 1;
        let mut more = self.next_char();
        while more
            invariant
                src == first.source@,
                self.same_tokens(&first),
                self.cursor_ok(),
                more == (self.position < src.len()),
                1 <= depth <= self.position,
                block_comment_end(src, first.position + 2, 1) == block_comment_end(
                    src,
                    self.position as int,
                    depth as nat,
                ),
            decreases src.len() - self.position,
        {
            let ch = self.current_char();
            if ch == '(' as u8 && self.has_next_char(';' as u8) {
                depth += 1;
            } else if ch == ';' as u8 && self.has_next_char(')' as u8) {
                depth -= 1;
                if depth == 0 {
                    self.next_char();
                    self.next_char();
                    return Ok(());
                }
            } else if ch == LF {
                proof {
                    lemma_line_bounds(src, self.position as int);
                }
                self.line += 1;
                self.line_start = self.position + 1;
            }
            more = self.next_char();
        }
        Err(self.create_error("Incomplete block comment"))
    }

    /// Moves over the line comment whose `;;` the lexer stands at.
    #[verifier::loop_isolation(false)]
    fn skip_line_comment(&mut self)
        requires
            old(self).cursor_ok(),
            opens_line_comment(old(self).source@, old(self).position as int),
        ensures
            final(self).same_tokens(old(self)),
            final(self).cursor_ok(),
            final(self).position == line_comment_end(old(self).source@, old(self).position + 2),
    {
        let ghost first = *self;
        let ghost src = self.source@;
        let mut more = self.next_char();
        while more && self.current_char() != LF
            invariant
                src == first.source@,
                self.same_tokens(&first),
                self.cursor_ok(),
                first.position < self.position,
                more == (self.position < src.len()),
                line_comment_end(src, first.position + 1) == line_comment_end(
                    src,
                    self.position as int,
                ),
            decreases src.len() - self.position,
        {
            more = self.next_char();
        }
        if !self.eos() && self.current_char() == LF {
            proof {
                lemma_line_bounds(src, self.position as int);
            }
            self.next_char();
            self.line += 1;
            self.line_start = self.position;
        }
    }

    fn has_next_char(&self, ch: u8) -> (r: bool)
        requires
            self.position < self.source@.len(),
        ensures
            r == (self.position + 1 < self.source@.len() && self.source@[self.position + 1] == ch),
    {
        let len = self.source.len();
        self.position + 1 < len && self.source[self.position + 1] == ch
    }

    /// Moves over blanks and comments.
    #[verifier::loop_isolation(false)]
    fn skip_spaces(&mut self) -> (r: Result<(), WatLexerError>)
        requires
            old(self).cursor_ok(),
        ensures
            final(self).same_tokens(old(self)),
            match skip_end(old(self).source@, old(self).position as int) {
                Some(e) => r is Ok && final(self).position == e && final(self).cursor_ok(),
                None => r == Err::<(), WatLexerError>(
                    lexer_error_at(
                        old(self).source@,
                        "Incomplete block comment",
                        old(self).source@.len() as int,
                    ),
                ),
            },
    {
        let ghost first = *self;
        let ghost src = self.source@;
        loop
            invariant
                src == first.source@,
                self.same_tokens(&first),
                self.cursor_ok(),
                skip_end(src, first.position as int) == skip_end(src, self.position as int),
            decreases src.len() - self.position,
        {
            if self.eos() {
                return Ok(());
            }
            let ch = self.current_char();
            if ch == ' ' as u8 || ch == 0x09 || ch == 0x0d {
                self.next_char();
            } else if ch == LF {
                proof {
                    lemma_line_bounds(src, self.position as int);
                }
                self.next_char();
                self.line += 1;
                self.line_start = self.position;
            } else if ch == '(' as u8 && self.has_next_char(';' as u8) {
                proof {
                    lemma_block_comment_end_bounds(src, self.position + 2, 1);
                }
                match self.skip_block_comment() {
                    Ok(_) => {},
                    Err(e) => {
                        return Err(e);
                    },
                }
            } else if ch == ';' as u8 && self.has_next_char(';' as u8) {
                proof {
                    lemma_line_comment_end_bounds(src, self.position + 2);
                }
                self.skip_line_comment();
            } else {
                return Ok(());
            }
        }
    }

    /// Scans the next token from where the lexer stands.
    fn scan_next_token(&mut self) -> (r: Result<WatToken, WatLexerError>)
        requires
            old(self).cursor_ok(),
        ensures
            final(self).same_tokens(old(self)),
            r == next_token(old(self).source@, old(self).position as int),
            r matches Ok(t) ==> final(self).position == t.end.position && final(self).cursor_ok(),
    {
        proof {
            reveal(next_token);
            lemma_skip_end(self.source@, self.position as int);
            lemma_next_token(self.source@, self.position as int);
        }
        match self.skip_spaces() {
            Ok(_) => {},
            Err(e) => {
                return Err(e);
            },
        }
        if self.eos() {
            return Ok(
                WatToken {
                    ty: WatTokenType::End,
                    start: self.current_position(),
                    end: self.current_position(),
                },
            );
        }
        let ch = self.current_char();
        if ch == '"' as u8 {
            self.scan_string()
        } else if ch == '(' as u8 {
            let start = self.current_position();
            self.next_char();
            Ok(WatToken { ty: WatTokenType::OpenParen, start, end: self.current_position() })
        } else if ch == ')' as u8 {
            let start = self.current_position();
            self.next_char();
            Ok(WatToken { ty: WatTokenType::CloseParen, start, end: self.current_position() })
        } else if self.is_idchar() {
            Ok(self.scan_reserved())
        } else {
            Err(self.unexpected_char())
        }
    }

    /// Reads the next token and makes it the current one. On an error the
    /// lexer stays as it was.
    pub fn next(&mut self) -> (r: Result<&WatToken, WatLexerError>)
        requires
            old(self).wf(),
        ensures
            final(self).wf(),
            match old(self)@.next() {
                Ok(v) => {
                    &&& final(self)@ == v
                    &&& r matches Ok(t)
                    &&& Some(*t) == v.token
                },
                Err(e) => {
                    &&& final(self)@ == old(self)@
                    &&& r matches Err(f)
                    &&& f == e
                },
            },
    {
        let position = self.position;
        let line = self.line;
        let line_start = self.line_start;
        proof {
            lemma_next_token(self.source@, self.position as int);
        }
        match self.scan_next_token() {
            Ok(token) => {
                self.past_token = self.token;
                self.token = Some(token);
                Ok(self.current_token())
            },
            Err(e) => {
                self.position = position;
                self.line = line;
                self.line_start = line_start;
                Err(e)
            },
        }
    }

    /// The current token. There is none before the first token is read.
    pub fn current_token(&self) -> (t: &WatToken)
        requires
            self@.token is Some,
        ensures
            Some(*t) == self@.token,
    {
        self.token.as_ref().unwrap()
    }

    /// The source bytes that the current token spans.
    pub fn current_token_content(&self) -> (content: &[u8])
        requires
            self.wf(),
            self@.token is Some,
        ensures
            content@ == self@.source.subrange(
                self@.token.unwrap().start.position as int,
                self@.token.unwrap().end.position as int,
            ),
    {
        let token = self.token.as_ref().unwrap();
        proof {
            lemma_next_token(self.source@, token.start.position as int);
        }
        slice_subrange(self.source, token.start.position, token.end.position)
    }

    /// Steps back by one token: the token before the current one is current
    /// again, and the next token read is the one that was current. Only one
    /// step back can be made at a time, and none before two tokens are read.
    pub fn rewind(&mut self)
        requires
            old(self).wf(),
            old(self)@.can_rewind(),
        ensures
            final(self).wf(),
            final(self)@ == old(self)@.rewind(),
    {
        let last_position = self.token.as_ref().unwrap().start;
        proof {
            lemma_next_token(self.source@, last_position.position as int);
            lemma_line_bounds(self.source@, last_position.position as int);
        }
        self.position = last_position.position;
        self.line = last_position.line;
        self.line_start = last_position.position - last_position.column;
        self.token = self.past_token;
        self.past_token = None;
    }
}

/// Consecutive tokens do not overlap and come in source order, and the line
/// and column of a token's start and end are those of its byte offsets.
pub proof fn lemma_tokens_in_order(lexer: LexerView)
    requires
        lexer.wf(),
        lexer.next() is Ok,
    ensures
        lexer.next().unwrap().wf(),
        ({
            let t2 = lexer.next().unwrap().token.unwrap();
            &&& lexer.token matches Some(t1) ==> t1.end.position <= t2.start.position
            &&& t2.start.position <= t2.end.position <= lexer.source.len()
            &&& t2.start == position_at(lexer.source, t2.start.position as int)
            &&& t2.end == position_at(lexer.source, t2.end.position as int)
        }),
{
    lemma_next_token(lexer.source, lexer.position);
    if let Some(t1) = lexer.token {
        lemma_next_token(lexer.source, t1.start.position as int);
        lemma_next_token(lexer.source, t1.end.position as int);
    }
}

/// Stepping back and reading again yields the token that was current
/// before the step back, with the same kind and span.
pub proof fn lemma_rewind_then_next(lexer: LexerView)
    requires
        lexer.wf(),
        lexer.can_rewind(),
    ensures
        lexer.rewind().wf(),
        lexer.rewind().next() == Ok::<LexerView, WatLexerError>(
            LexerView { position: lexer.position, ..lexer },
        ),
{
    let t = lexer.token.unwrap();
    lemma_next_token(lexer.source, t.start.position as int);
}

} // verus!
