use wat_parser::lexer::{WatLexer, WatLexerError, WatToken, WatTokenType};

/// The tokens of `source`, up to and including the end token.
fn tokens(source: &[u8]) -> Vec<(WatTokenType, usize, usize)> {
    let mut lexer = WatLexer::new(source);
    let mut out = Vec::new();
    loop {
        let token = *lexer.next().unwrap();
        out.push((token.ty, token.start.position, token.end.position));
        if token.ty == WatTokenType::End {
            return out;
        }
    }
}

/// The first token of `source`.
fn first(source: &[u8]) -> (WatTokenType, usize, usize) {
    let mut lexer = WatLexer::new(source);
    let token = lexer.next().unwrap();
    (token.ty, token.start.position, token.end.position)
}

/// The kind of the single token that `source` is.
fn kind(source: &[u8]) -> WatTokenType {
    let all = tokens(source);
    assert_eq!(all.len(), 2, "{:?}", all);
    assert_eq!((all[0].1, all[0].2), (0, source.len()));
    all[0].0
}

/// The first error that lexing `source` runs into.
fn first_error(source: &[u8]) -> WatLexerError {
    let mut lexer = WatLexer::new(source);
    loop {
        match lexer.next() {
            Ok(token) => assert!(token.ty != WatTokenType::End, "no error"),
            Err(e) => return e,
        }
    }
}

fn same(a: &WatToken, b: &WatToken) -> bool {
    a.ty == b.ty
        && (a.start.line, a.start.column, a.start.position)
            == (b.start.line, b.start.column, b.start.position)
        && (a.end.line, a.end.column, a.end.position) == (b.end.line, b.end.column, b.end.position)
}

#[test]
fn lexes_parens_and_keyword() {
    assert_eq!(
        tokens(b"(module)"),
        vec![
            (WatTokenType::OpenParen, 0, 1),
            (WatTokenType::Keyword, 1, 7),
            (WatTokenType::CloseParen, 7, 8),
            (WatTokenType::End, 8, 8),
        ]
    );
}

#[test]
fn empty_source_is_the_end_token() {
    assert_eq!(tokens(b""), vec![(WatTokenType::End, 0, 0)]);
    let mut lexer = WatLexer::new(b"  ");
    let first = *lexer.next().unwrap();
    assert_eq!(first.ty, WatTokenType::End);
    assert_eq!((first.start.position, first.end.position), (2, 2));
    let again = *lexer.next().unwrap();
    assert!(same(&first, &again));
}

#[test]
fn unterminated_string_is_unexpected_eos() {
    let err = first_error(b"\"abc");
    assert_eq!(err.message, "Unexpected eos");
    assert_eq!(err.line, 1);
    assert_eq!(err.column, 4);
}

#[test]
fn open_nested_comment_is_incomplete() {
    let err = first_error(b"(; nested (; still ;) open");
    assert_eq!(err.message, "Incomplete block comment");
    assert_eq!((err.line, err.column), (1, 26));
}

#[test]
fn incomplete_comment_reports_last_line() {
    let err = first_error(b"a\n(; x\ny");
    assert_eq!(err.message, "Incomplete block comment");
    assert_eq!((err.line, err.column), (3, 1));
}

#[test]
fn unexpected_character() {
    let err = first_error(b"ab\n  [");
    assert_eq!(err.message, "Unexpected character");
    assert_eq!((err.line, err.column), (2, 2));
    assert_eq!(first_error(b"{").message, "Unexpected character");
    assert_eq!(first_error(b",").message, "Unexpected character");
    assert_eq!(first_error(b"|").message, "Unexpected character");
    assert_eq!(first_error(b";").message, "Unexpected character");
}

#[test]
fn lexer_is_unchanged_by_an_error() {
    let mut lexer = WatLexer::new(b"a \"x");
    let a = *lexer.next().unwrap();
    let e1 = lexer.next().unwrap_err();
    assert!(same(lexer.current_token(), &a));
    let e2 = lexer.next().unwrap_err();
    assert_eq!((e1.message, e1.line, e1.column), (e2.message, e2.line, e2.column));
    assert_eq!(lexer.current_token_content(), b"a");
}

#[test]
fn positions_follow_lines() {
    let source = b"(a\n  bb ;; note\n\t(; x\ny ;) $c)";
    let mut lexer = WatLexer::new(source);
    let mut seen = Vec::new();
    loop {
        let t = *lexer.next().unwrap();
        seen.push((
            t.ty,
            (t.start.line, t.start.column, t.start.position),
            (t.end.line, t.end.column, t.end.position),
        ));
        if t.ty == WatTokenType::End {
            break;
        }
    }
    assert_eq!(
        seen,
        vec![
            (WatTokenType::OpenParen, (1, 0, 0), (1, 1, 1)),
            (WatTokenType::Keyword, (1, 1, 1), (1, 2, 2)),
            (WatTokenType::Keyword, (2, 2, 5), (2, 4, 7)),
            (WatTokenType::ID, (4, 5, 27), (4, 7, 29)),
            (WatTokenType::CloseParen, (4, 7, 29), (4, 8, 30)),
            (WatTokenType::End, (4, 8, 30), (4, 8, 30)),
        ]
    );
}

#[test]
fn consecutive_tokens_do_not_overlap() {
    let source = b"(func $f (param i32) (; c ;) \"s\" 0x1p3 ;; end\n)";
    let all = tokens(source);
    for pair in all.windows(2) {
        assert!(pair[0].2 <= pair[1].1);
        assert!(pair[0].1 < pair[0].2);
    }
    for &(_, start, end) in &all {
        let line = 1 + source[..start].iter().filter(|&&b| b == b'\n').count();
        assert_eq!(line, 1 + source[..end].iter().filter(|&&b| b == b'\n').count());
    }
}

#[test]
fn rewind_then_next_gives_the_same_token() {
    let mut lexer = WatLexer::new(b"(module  $m\n ;; c\n 12)");
    lexer.next().unwrap();
    loop {
        let a = *lexer.next().unwrap();
        lexer.rewind();
        let b = *lexer.next().unwrap();
        assert!(same(&a, &b));
        if a.ty == WatTokenType::End {
            break;
        }
    }
}

#[test]
fn rewind_makes_the_past_token_current() {
    let mut lexer = WatLexer::new(b"( module )");
    let open = *lexer.next().unwrap();
    let module = *lexer.next().unwrap();
    lexer.rewind();
    assert!(same(lexer.current_token(), &open));
    assert_eq!(lexer.current_token_content(), b"(");
    assert!(same(lexer.next().unwrap(), &module));
    assert_eq!(lexer.current_token_content(), b"module");
    assert_eq!(lexer.next().unwrap().ty, WatTokenType::CloseParen);
    lexer.rewind();
    assert!(same(lexer.current_token(), &module));
}

#[test]
fn reserved_scan_stops_at_first_other_byte() {
    assert_eq!(
        tokens(b"abc(def"),
        vec![
            (WatTokenType::Keyword, 0, 3),
            (WatTokenType::OpenParen, 3, 4),
            (WatTokenType::Keyword, 4, 7),
            (WatTokenType::End, 7, 7),
        ]
    );
    assert_eq!(first(b"a.b/c:d\"s\""), (WatTokenType::Keyword, 0, 7));
    assert_eq!(first(b"x;y"), (WatTokenType::Keyword, 0, 1));
    assert_eq!(first(b"x["), (WatTokenType::Keyword, 0, 1));
    assert_eq!(first(b"x y"), (WatTokenType::Keyword, 0, 1));
}

#[test]
fn every_idchar_symbol_stands_in_a_token() {
    assert_eq!(kind(b"a!#$%&'*+-./:<=>?@\\^_`~z09AZ"), WatTokenType::Keyword);
}

#[test]
fn balanced_comments_are_skipped_whole() {
    assert_eq!(first(b"(; a (; b ;) c ;) x"), (WatTokenType::Keyword, 18, 19));
    assert_eq!(first(b"(;;)x"), (WatTokenType::Keyword, 4, 5));
    assert_eq!(first(b"(;(;(;;););)x"), (WatTokenType::Keyword, 12, 13));
    assert_eq!(first(b"(; ( ; ) ;)x"), (WatTokenType::Keyword, 11, 12));
    assert_eq!(first(b"(; a ;)(; b ;)\n(;;) x"), (WatTokenType::Keyword, 20, 21));
}

#[test]
fn comment_delimiters_may_share_a_semicolon() {
    // inside a comment `(;)` opens a level and closes it again
    assert_eq!(first(b"(; (;) ;)x"), (WatTokenType::Keyword, 9, 10));
    // the semicolon of the outermost `(;` closes nothing
    assert_eq!(first_error(b"(;)").message, "Incomplete block comment");
}

#[test]
fn line_comments_end_with_the_line() {
    assert_eq!(tokens(b";; c\n x")[0], (WatTokenType::Keyword, 6, 7));
    assert_eq!(tokens(b";; c"), vec![(WatTokenType::End, 4, 4)]);
    assert_eq!(tokens(b"a;;b\nc")[1], (WatTokenType::Keyword, 5, 6));
    assert_eq!(tokens(b";;\n;;\r\n\tz")[0], (WatTokenType::Keyword, 8, 9));
}

#[test]
fn classifies_identifiers_and_keywords() {
    assert_eq!(kind(b"$id"), WatTokenType::ID);
    assert_eq!(kind(b"$"), WatTokenType::ID);
    assert_eq!(kind(b"$1"), WatTokenType::ID);
    assert_eq!(kind(b"i32.add"), WatTokenType::Keyword);
    assert_eq!(kind(b"offset=4"), WatTokenType::Keyword);
    assert_eq!(kind(b"Abc"), WatTokenType::Reserved);
    assert_eq!(kind(b"_x"), WatTokenType::Reserved);
    assert_eq!(kind(b"+"), WatTokenType::Reserved);
}

#[test]
fn classifies_integers() {
    assert_eq!(kind(b"0"), WatTokenType::Unsigned);
    assert_eq!(kind(b"123"), WatTokenType::Unsigned);
    assert_eq!(kind(b"1_000"), WatTokenType::Unsigned);
    assert_eq!(kind(b"0x1F"), WatTokenType::Unsigned);
    assert_eq!(kind(b"0xdead_beef"), WatTokenType::Unsigned);
    assert_eq!(kind(b"+5"), WatTokenType::Signed);
    assert_eq!(kind(b"-0x10"), WatTokenType::Signed);
    assert_eq!(kind(b"1__0"), WatTokenType::Reserved);
    assert_eq!(kind(b"1_"), WatTokenType::Reserved);
    assert_eq!(kind(b"0x"), WatTokenType::Reserved);
    assert_eq!(kind(b"0xG"), WatTokenType::Reserved);
    assert_eq!(kind(b"0x_1"), WatTokenType::Reserved);
    assert_eq!(kind(b"+-1"), WatTokenType::Reserved);
    assert_eq!(kind(b"12a"), WatTokenType::Reserved);
}

#[test]
fn classifies_floats() {
    for source in [
        &b"1.5"[..],
        b"1.",
        b"1e5",
        b"1E+5",
        b"1.5e-10",
        b"1_0.2_5e1_0",
        b"-1.5",
        b"+2.e3",
        b"0x1.8p3",
        b"0x1p-2",
        b"0xAb.cDP+1_0",
        b"-0x1.p1",
        b"0x1.",
        b"nan",
        b"inf",
        b"-nan",
        b"+inf",
        b"nan:0x7f",
        b"-nan:0x1_0",
    ] {
        assert_eq!(kind(source), WatTokenType::Float, "{:?}", source);
    }
    for source in [
        &b"1e"[..],
        b"1.5e",
        b"1e+",
        b"1.e_1",
        b"0x1p",
        b"0x1.p",
        b"0x1pA",
        b"0x.8",
        b"1..2",
        b"1.2.3",
        b"1e5e5",
        b"1p5",
        b"0x1G.0",
        b"nan:0x",
        b"nan:7f",
        b"nan:0xG",
    ] {
        assert!(kind(source) != WatTokenType::Float, "{:?}", source);
    }
    assert_eq!(kind(b".5"), WatTokenType::Reserved);
    assert_eq!(kind(b"infinity"), WatTokenType::Keyword);
    assert_eq!(kind(b"nano"), WatTokenType::Keyword);
    assert_eq!(kind(b"e5"), WatTokenType::Keyword);
}

#[test]
fn number_recognizers() {
    assert!(WatLexer::is_num(b"0"));
    assert!(WatLexer::is_num(b"1_2_3"));
    assert!(!WatLexer::is_num(b""));
    assert!(!WatLexer::is_num(b"_1"));
    assert!(!WatLexer::is_num(b"1_"));
    assert!(!WatLexer::is_num(b"1__2"));
    assert!(!WatLexer::is_num(b"1a"));
    assert!(WatLexer::is_hexnum(b"aF_09"));
    assert!(!WatLexer::is_hexnum(b"g"));
    assert!(!WatLexer::is_hexnum(b"Z"));
    assert!(!WatLexer::is_hexnum(b""));
    assert!(WatLexer::is_number(b"0x0"));
    assert!(WatLexer::is_number(b"42"));
    assert!(!WatLexer::is_number(b"0x"));
    assert!(!WatLexer::is_number(b"x1"));
    assert!(WatLexer::is_hexfloat(b"1"));
    assert!(WatLexer::is_hexfloat(b"1.8p3"));
    assert!(WatLexer::is_hexfloat(b"a.P-1"));
    assert!(!WatLexer::is_hexfloat(b"1.8p"));
    assert!(!WatLexer::is_hexfloat(b""));
    assert!(!WatLexer::is_hexfloat(b".8"));
    assert!(WatLexer::is_float(b"12"));
    assert!(WatLexer::is_float(b"-inf"));
    assert!(!WatLexer::is_float(b""));
    assert!(!WatLexer::is_float(b"-"));
    assert!(!WatLexer::is_float(b"--1"));
    assert!(WatLexer::is_digit_char(b'7'));
    assert!(!WatLexer::is_digit_char(b'a'));
    assert!(WatLexer::is_hexdigit_char(b'f'));
    assert!(WatLexer::is_hexdigit_char(b'A'));
    assert!(!WatLexer::is_hexdigit_char(b'G'));
    assert!(!WatLexer::is_hexdigit_char(b'z'));
}

#[test]
fn strings_with_escapes() {
    let source = b"\"a\\t\\n\\r\\\"\\'\\\\\\u{1F600}\\41\\0a \"x";
    let all = tokens(source);
    assert_eq!(all[0], (WatTokenType::String, 0, source.len() - 1));
    assert_eq!(all[1], (WatTokenType::Keyword, source.len() - 1, source.len()));
    assert_eq!(kind(b"\"\""), WatTokenType::String);
    assert_eq!(kind(b"\"\\u{0}\""), WatTokenType::String);
    assert_eq!(kind(b"\"\\u{1_f}\""), WatTokenType::String);
    assert_eq!(kind(b"\"(; ;; ;)\""), WatTokenType::String);
}

#[test]
fn string_content_is_the_span() {
    let mut lexer = WatLexer::new(b" \"a\\\"b\" ");
    assert_eq!(lexer.next().unwrap().ty, WatTokenType::String);
    assert_eq!(lexer.current_token_content(), b"\"a\\\"b\"");
}

#[test]
fn malformed_escapes() {
    let cases: [(&[u8], &str, usize); 14] = [
        (b"\"\\q\"", "Unexpected character", 2),
        (b"\"\\", "Unexpected eos", 2),
        (b"\"\\u", "Unexpected eos", 3),
        (b"\"\\u1\"", "Unexpected character", 3),
        (b"\"\\u{", "Unexpected eos", 4),
        (b"\"\\u{}\"", "Unexpected character", 4),
        (b"\"\\u{12", "Unexpected eos", 6),
        (b"\"\\u{12\"", "Unexpected character", 6),
        (b"\"\\u{1_}\"", "Unexpected character", 5),
        (b"\"\\u{1__2}\"", "Unexpected character", 5),
        (b"\"\\u{1_", "Unexpected character", 5),
        (b"\"\\4\"", "Unexpected character", 3),
        (b"\"\\4", "Unexpected eos", 3),
        (b"\"\\G1\"", "Unexpected character", 2),
    ];
    for (source, message, column) in cases {
        let err = first_error(source);
        assert_eq!((err.message, err.line, err.column), (message, 1, column), "{:?}", source);
    }
}

#[test]
fn control_bytes_in_strings() {
    assert_eq!(first_error(b"\"a\nb\"").message, "Unexpected character");
    assert_eq!(first_error(b"\"a\nb\"").column, 2);
    assert_eq!(first_error(b"\"\x1f\"").message, "Unexpected character");
    assert_eq!(first_error(b"\"\x7f\"").message, "Unexpected character");
    assert_eq!(first_error(b"\"\x00\"").message, "Unexpected character");
    assert_eq!(kind(b"\"\x20\x7e\""), WatTokenType::String);
}

#[test]
fn multi_byte_sequences_in_strings() {
    assert_eq!(kind("\"é\"".as_bytes()), WatTokenType::String);
    assert_eq!(kind("\"€\"".as_bytes()), WatTokenType::String);
    assert_eq!(kind("\"😀\"".as_bytes()), WatTokenType::String);
    assert_eq!(kind(b"\"\xc0\x80\""), WatTokenType::String);
    let cases: [(&[u8], &str, usize); 9] = [
        (b"\"\x80\"", "Unexpected character", 1),
        (b"\"\xbf\"", "Unexpected character", 1),
        (b"\"\xf8\x80\x80\x80\"", "Unexpected character", 1),
        (b"\"\xff\"", "Unexpected character", 1),
        (b"\"\xc3\"", "Unexpected character", 2),
        (b"\"\xc3", "Unexpected eos", 2),
        (b"\"\xe2\x82\"", "Unexpected character", 3),
        (b"\"\xf0\x9f\x98\"", "Unexpected character", 4),
        (b"\"\xf0\x9f\x98", "Unexpected eos", 4),
    ];
    for (source, message, column) in cases {
        let err = first_error(source);
        assert_eq!((err.message, err.line, err.column), (message, 1, column), "{:?}", source);
    }
}
