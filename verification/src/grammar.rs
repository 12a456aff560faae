//! The grammar that the parser follows, as functions of the source and the
//! current token. Each function says what one piece of syntax yields
//! and which token is current after it, or the error it runs into.

use vstd::prelude::*;
use crate::bytes::{ascii_bytes, has_prefix};
use crate::lexer::{WatLexerError, WatToken, WatTokenType};
use crate::literals::{float_value, number_data, number_u32, sign_of, string_text};
use crate::scan::{is_token_of, lemma_next_token, next_token};
use crate::wat::{
    ArgView, ImportView, ParamView, StateView, TypeuseView, WatLimits, WatMemoryType,
    WatParserError, WatValType,
};

verus! {

pub const OPEN_PAREN_EXPECTED: &'static str = "( is expected";

pub const CLOSE_PAREN_EXPECTED: &'static str = ") is expected";

pub const EXACT_KEYWORD_EXPECTED: &'static str = "?? keyword is expected";

pub const KEYWORD_EXPECTED: &'static str = "a keyword is expected";

pub const ID_EXPECTED: &'static str = "id is expected";

pub const TYPEUSE_ID_EXPECTED: &'static str = "id is expected for typeuse";

pub const U32_EXPECTED: &'static str = "unable to read u32";

pub const NAME_EXPECTED: &'static str = "a name is expected";

pub const BAD_NAME: &'static str = "unable to read name";

pub const BAD_SIGNED: &'static str = "Unable to parse signed";

pub const BAD_UNSIGNED: &'static str = "Unable to parse unsigned";

pub const BAD_FLOAT: &'static str = "Unable to parse float";

pub const UNEXPECTED_ARGUMENT: &'static str = "unexpected token in the instruction";

pub const UNKNOWN_VALTYPE: &'static str = "unknown value type";

pub const UNKNOWN_IMPORT: &'static str = "unknown import kind";

pub const UNKNOWN_FIELD: &'static str = "unknown module field";

pub const TOO_DEEP: &'static str = "instructions are nested too deeply";

pub const CONTENT_AFTER_MODULE: &'static str = "unexpected content after the module";

/// A value read, and the token that is current after it.
pub type Parsed<T> = Result<(T, WatToken), WatParserError>;

/// What a run of parenthesized groups of one kind yields. After each group
/// the parser looks for another `(`. If `open` holds, it found one,
/// `paren`, went past it, and `token`, the first token inside, does not
/// begin a group of the kind: the `(` belongs to what follows.
pub struct Groups<T> {
    pub items: T,
    pub open: bool,
    pub paren: WatToken,
    pub token: WatToken,
}

/// The outcome of one step of the parser: the event, the token that is
/// current after it, and the nesting depth inside a function body.
pub struct Step {
    pub state: StateView,
    pub token: WatToken,
    pub func_depth: Option<u32>,
}

/// Whether `tok` is a token of the source.
pub open spec fn token_in(src: Seq<u8>, tok: WatToken) -> bool {
    &&& src.len() < usize::MAX
    &&& tok.start.position <= src.len()
    &&& is_token_of(src, tok)
}

/// The source bytes that `tok` spans.
pub open spec fn content(src: Seq<u8>, tok: WatToken) -> Seq<u8> {
    src.subrange(tok.start.position as int, tok.end.position as int)
}

/// The error with the given message at the start of `tok`.
pub open spec fn error_at(tok: WatToken, message: &'static str) -> WatParserError {
    WatParserError { message, line: tok.start.line, column: tok.start.column }
}

/// The lexer's error as an error of the parser: same message, same place.
pub open spec fn lexer_error(e: WatLexerError) -> WatParserError {
    WatParserError { message: e.message, line: e.line, column: e.column }
}

/// The token after `tok`.
pub open spec fn advance(src: Seq<u8>, tok: WatToken) -> Result<WatToken, WatParserError> {
    match next_token(src, tok.end.position as int) {
        Ok(t) => Ok(t),
        Err(e) => Err(lexer_error(e)),
    }
}

/// Whether `tok` is the keyword `text`.
pub open spec fn is_keyword(src: Seq<u8>, tok: WatToken, text: Seq<char>) -> bool {
    tok.ty == WatTokenType::Keyword && content(src, tok) == ascii_bytes(text)
}

/// Goes past `tok` if `wanted` holds, and says whether it did.
pub open spec fn skip_if(src: Seq<u8>, tok: WatToken, wanted: bool) -> Parsed<bool> {
    if wanted {
        match advance(src, tok) {
            Ok(t) => Ok((true, t)),
            Err(e) => Err(e),
        }
    } else {
        Ok((false, tok))
    }
}

/// Goes past `tok` if `wanted` holds; else fails with `message` at `tok`.
pub open spec fn expect(src: Seq<u8>, tok: WatToken, wanted: bool, message: &'static str) -> Result<
    WatToken,
    WatParserError,
> {
    if wanted {
        advance(src, tok)
    } else {
        Err(error_at(tok, message))
    }
}

pub open spec fn maybe_open_paren(src: Seq<u8>, tok: WatToken) -> Parsed<bool> {
    skip_if(src, tok, tok.ty == WatTokenType::OpenParen)
}

pub open spec fn expect_open_paren(src: Seq<u8>, tok: WatToken) -> Result<WatToken, WatParserError> {
    expect(src, tok, tok.ty == WatTokenType::OpenParen, OPEN_PAREN_EXPECTED)
}

pub open spec fn maybe_close_paren(src: Seq<u8>, tok: WatToken) -> Parsed<bool> {
    skip_if(src, tok, tok.ty == WatTokenType::CloseParen)
}

pub open spec fn expect_close_paren(src: Seq<u8>, tok: WatToken) -> Result<
    WatToken,
    WatParserError,
> {
    expect(src, tok, tok.ty == WatTokenType::CloseParen, CLOSE_PAREN_EXPECTED)
}

pub open spec fn maybe_exact_keyword(src: Seq<u8>, tok: WatToken, text: Seq<char>) -> Parsed<bool> {
    skip_if(src, tok, is_keyword(src, tok, text))
}

pub open spec fn expect_exact_keyword(src: Seq<u8>, tok: WatToken, text: Seq<char>) -> Result<
    WatToken,
    WatParserError,
> {
    expect(src, tok, is_keyword(src, tok, text), EXACT_KEYWORD_EXPECTED)
}

/// The bytes of the keyword `tok`.
pub open spec fn get_keyword(src: Seq<u8>, tok: WatToken) -> Result<Seq<u8>, WatParserError> {
    if tok.ty == WatTokenType::Keyword {
        Ok(content(src, tok))
    } else {
        Err(error_at(tok, KEYWORD_EXPECTED))
    }
}

/// Whether a keyword is a flag of a memory instruction: `offset=` or
/// `flags=` with something behind it.
pub open spec fn is_memarg_flag(keyword: Seq<u8>) -> bool {
    ||| keyword.len() > 7 && has_prefix(keyword, ascii_bytes("offset="@))
    ||| keyword.len() > 6 && has_prefix(keyword, ascii_bytes("flags="@))
}

/// What stands behind the `=` of a flag of a memory instruction.
pub open spec fn memarg_value(keyword: Seq<u8>) -> Seq<u8> {
    if has_prefix(keyword, ascii_bytes("offset="@)) {
        keyword.skip(7)
    } else {
        keyword.skip(6)
    }
}

/// An identifier, if one is there.
pub open spec fn maybe_id(src: Seq<u8>, tok: WatToken) -> Parsed<Option<Seq<u8>>> {
    if tok.ty == WatTokenType::ID {
        match advance(src, tok) {
            Ok(t) => Ok((Some(content(src, tok)), t)),
            Err(e) => Err(e),
        }
    } else {
        Ok((None, tok))
    }
}

/// An identifier.
pub open spec fn read_id(src: Seq<u8>, tok: WatToken) -> Parsed<Seq<u8>> {
    match maybe_id(src, tok) {
        Ok((Some(id), t)) => Ok((id, t)),
        Ok((None, t)) => Err(error_at(t, ID_EXPECTED)),
        Err(e) => Err(e),
    }
}

/// An unsigned integer of 32 bits.
pub open spec fn read_u32(src: Seq<u8>, tok: WatToken) -> Parsed<u32> {
    if tok.ty == WatTokenType::Unsigned {
        match number_u32(content(src, tok)) {
            Some(n) => match advance(src, tok) {
                Ok(t) => Ok((n, t)),
                Err(e) => Err(e),
            },
            None => Err(error_at(tok, U32_EXPECTED)),
        }
    } else {
        Err(error_at(tok, U32_EXPECTED))
    }
}

/// A name: the text of a string literal.
pub open spec fn read_name(src: Seq<u8>, tok: WatToken) -> Parsed<Seq<char>> {
    if tok.ty == WatTokenType::String {
        match string_text(content(src, tok)) {
            Some(name) => match advance(src, tok) {
                Ok(t) => Ok((name, t)),
                Err(e) => Err(e),
            },
            None => Err(error_at(tok, BAD_NAME)),
        }
    } else {
        Err(error_at(tok, NAME_EXPECTED))
    }
}

/// A keyword, whichever it is.
pub open spec fn read_keyword(src: Seq<u8>, tok: WatToken) -> Parsed<Seq<u8>> {
    if tok.ty == WatTokenType::Keyword {
        match advance(src, tok) {
            Ok(t) => Ok((content(src, tok), t)),
            Err(e) => Err(e),
        }
    } else {
        Err(error_at(tok, KEYWORD_EXPECTED))
    }
}

/// Limits: a minimum and, if another unsigned integer follows, a maximum.
pub open spec fn read_limits(src: Seq<u8>, tok: WatToken) -> Parsed<WatLimits> {
    match read_u32(src, tok) {
        Ok((min, t1)) => if t1.ty == WatTokenType::Unsigned {
            match read_u32(src, t1) {
                Ok((max, t2)) => Ok((WatLimits { min, max: Some(max) }, t2)),
                Err(e) => Err(e),
            }
        } else {
            Ok((WatLimits { min, max: None }, t1))
        },
        Err(e) => Err(e),
    }
}

/// A memory type: limits, or `(shared` limits `)`.
pub open spec fn read_memtype(src: Seq<u8>, tok: WatToken) -> Parsed<WatMemoryType> {
    if tok.ty == WatTokenType::OpenParen {
        match advance(src, tok) {
            Ok(t1) => match expect_exact_keyword(src, t1, "shared"@) {
                Ok(t2) => match read_limits(src, t2) {
                    Ok((limits, t3)) => match expect_close_paren(src, t3) {
                        Ok(t4) => Ok((WatMemoryType { limits, shared: true }, t4)),
                        Err(e) => Err(e),
                    },
                    Err(e) => Err(e),
                },
                Err(e) => Err(e),
            },
            Err(e) => Err(e),
        }
    } else {
        match read_limits(src, tok) {
            Ok((limits, t1)) => Ok((WatMemoryType { limits, shared: false }, t1)),
            Err(e) => Err(e),
        }
    }
}

/// The value type that a keyword names.
pub open spec fn valtype_of(keyword: Seq<u8>) -> Option<WatValType> {
    if keyword == ascii_bytes("i32"@) {
        Some(WatValType::I32)
    } else if keyword == ascii_bytes("i64"@) {
        Some(WatValType::I64)
    } else if keyword == ascii_bytes("f32"@) {
        Some(WatValType::F32)
    } else if keyword == ascii_bytes("f64"@) {
        Some(WatValType::F64)
    } else {
        None
    }
}

/// A value type.
pub open spec fn read_valtype(src: Seq<u8>, tok: WatToken) -> Parsed<WatValType> {
    match get_keyword(src, tok) {
        Ok(keyword) => match valtype_of(keyword) {
            Some(valtype) => match advance(src, tok) {
                Ok(t) => Ok((valtype, t)),
                Err(e) => Err(e),
            },
            None => Err(error_at(tok, UNKNOWN_VALTYPE)),
        },
        Err(e) => Err(e),
    }
}

/// The start of the module: `(module` and an optional identifier.
pub open spec fn read_start_module(src: Seq<u8>) -> Result<Step, WatParserError> {
    match next_token(src, 0) {
        Ok(t0) => match expect_open_paren(src, t0) {
            Ok(t1) => match expect_exact_keyword(src, t1, "module"@) {
                Ok(t2) => match maybe_id(src, t2) {
                    Ok((id, t3)) => Ok(
                        Step { state: StateView::StartModule { id }, token: t3, func_depth: None },
                    ),
                    Err(e) => Err(e),
                },
                Err(e) => Err(e),
            },
            Err(e) => Err(e),
        },
        Err(e) => Err(lexer_error(e)),
    }
}

/// What follows `memory` in an import: an optional identifier and a memory
/// type. `tok` is the keyword.
pub open spec fn read_memory_import(src: Seq<u8>, tok: WatToken) -> Parsed<ImportView> {
    match advance(src, tok) {
        Ok(t1) => match maybe_id(src, t1) {
            Ok((id, t2)) => match read_memtype(src, t2) {
                Ok((memtype, t3)) => Ok((ImportView::Memory { id, memtype }, t3)),
                Err(e) => Err(e),
            },
            Err(e) => Err(e),
        },
        Err(e) => Err(e),
    }
}

/// The description of what is imported; `tok` is its keyword. Only
/// memories can be described.
pub open spec fn read_import_description(src: Seq<u8>, tok: WatToken) -> Parsed<ImportView> {
    match get_keyword(src, tok) {
        Ok(keyword) => if keyword == ascii_bytes("memory"@) {
            read_memory_import(src, tok)
        } else {
            Err(error_at(tok, UNKNOWN_IMPORT))
        },
        Err(e) => Err(e),
    }
}

/// An import: two names, the parenthesized description, and the `)` of
/// the import. `tok` is the keyword `import`.
pub open spec fn read_import(src: Seq<u8>, tok: WatToken) -> Result<Step, WatParserError> {
    match advance(src, tok) {
        Ok(t1) => match read_name(src, t1) {
            Ok((modname, t2)) => match read_name(src, t2) {
                Ok((fieldname, t3)) => match expect_open_paren(src, t3) {
                    Ok(t4) => match read_import_description(src, t4) {
                        Ok((import, t5)) => match expect_close_paren(src, t5) {
                            Ok(t6) => match expect_close_paren(src, t6) {
                                Ok(t7) => Ok(
                                    Step {
                                        state: StateView::Import { modname, fieldname, import },
                                        token: t7,
                                        func_depth: None,
                                    },
                                ),
                                Err(e) => Err(e),
                            },
                            Err(e) => Err(e),
                        },
                        Err(e) => Err(e),
                    },
                    Err(e) => Err(e),
                },
                Err(e) => Err(e),
            },
            Err(e) => Err(e),
        },
        Err(e) => Err(e),
    }
}

/// The parameter or local without identifier of type `valtype`.
pub open spec fn anonymous(valtype: WatValType) -> ParamView {
    ParamView { id: None, valtype }
}

/// Further value types of a group without identifier: as many as there are
/// keywords.
pub open spec fn more_params(src: Seq<u8>, tok: WatToken, acc: Seq<ParamView>) -> Parsed<
    Seq<ParamView>,
>
    decreases src.len() - tok.start.position,
    when token_in(src, tok)
    via more_params_decreases
{
    if tok.ty == WatTokenType::Keyword {
        match read_valtype(src, tok) {
            Ok((valtype, t)) => more_params(src, t, acc.push(anonymous(valtype))),
            Err(e) => Err(e),
        }
    } else {
        Ok((acc, tok))
    }
}

#[via_fn]
proof fn more_params_decreases(src: Seq<u8>, tok: WatToken, acc: Seq<ParamView>) {
    lemma_advance(src, tok);
}

/// Further value types of a group of results.
pub open spec fn more_results(src: Seq<u8>, tok: WatToken, acc: Seq<WatValType>) -> Parsed<
    Seq<WatValType>,
>
    decreases src.len() - tok.start.position,
    when token_in(src, tok)
    via more_results_decreases
{
    if tok.ty == WatTokenType::Keyword {
        match read_valtype(src, tok) {
            Ok((valtype, t)) => more_results(src, t, acc.push(valtype)),
            Err(e) => Err(e),
        }
    } else {
        Ok((acc, tok))
    }
}

#[via_fn]
proof fn more_results_decreases(src: Seq<u8>, tok: WatToken, acc: Seq<WatValType>) {
    lemma_advance(src, tok);
}

/// The inside of a group of parameters or locals, behind its keyword, and
/// its `)`: an identifier and one value type, or one or more value types.
pub open spec fn param_group(src: Seq<u8>, tok: WatToken, acc: Seq<ParamView>) -> Parsed<
    Seq<ParamView>,
> {
    match maybe_id(src, tok) {
        Ok((id, t1)) => match read_valtype(src, t1) {
            Ok((valtype, t2)) => {
                let first = acc.push(ParamView { id, valtype });
                let more = if id is None {
                    more_params(src, t2, first)
                } else {
                    Ok((first, t2))
                };
                match more {
                    Ok((items, t3)) => match expect_close_paren(src, t3) {
                        Ok(t4) => Ok((items, t4)),
                        Err(e) => Err(e),
                    },
                    Err(e) => Err(e),
                }
            },
            Err(e) => Err(e),
        },
        Err(e) => Err(e),
    }
}

/// The inside of a group of results, behind its keyword, and its `)`: one
/// or more value types.
pub open spec fn result_group(src: Seq<u8>, tok: WatToken, acc: Seq<WatValType>) -> Parsed<
    Seq<WatValType>,
> {
    match read_valtype(src, tok) {
        Ok((valtype, t1)) => match more_results(src, t1, acc.push(valtype)) {
            Ok((items, t2)) => match expect_close_paren(src, t2) {
                Ok(t3) => Ok((items, t3)),
                Err(e) => Err(e),
            },
            Err(e) => Err(e),
        },
        Err(e) => Err(e),
    }
}

/// The groups `(param ..)`, or `(local ..)`, that follow one another.
/// `keyword` is `param` or `local`; `tok` is the first token behind the `(`
/// that `paren` is.
pub open spec fn param_groups(
    src: Seq<u8>,
    keyword: Seq<char>,
    paren: WatToken,
    tok: WatToken,
    acc: Seq<ParamView>,
) -> Result<Groups<Seq<ParamView>>, WatParserError>
    decreases src.len() - tok.start.position,
    when token_in(src, tok)
    via param_groups_decreases
{
    if is_keyword(src, tok, keyword) {
        match advance(src, tok) {
            Ok(t1) => match param_group(src, t1, acc) {
                Ok((items, t2)) => match maybe_open_paren(src, t2) {
                    Ok((open, t3)) => if open {
                        param_groups(src, keyword, t2, t3, items)
                    } else {
                        Ok(Groups { items, open: false, paren, token: t3 })
                    },
                    Err(e) => Err(e),
                },
                Err(e) => Err(e),
            },
            Err(e) => Err(e),
        }
    } else {
        Ok(Groups { items: acc, open: true, paren, token: tok })
    }
}

#[via_fn]
proof fn param_groups_decreases(
    src: Seq<u8>,
    keyword: Seq<char>,
    paren: WatToken,
    tok: WatToken,
    acc: Seq<ParamView>,
) {
    lemma_advance(src, tok);
    if let Ok(t1) = advance(src, tok) {
        lemma_param_group(src, t1, acc);
        if let Ok((_, t2)) = param_group(src, t1, acc) {
            lemma_advance(src, t2);
        }
    }
}

/// The groups `(result ..)` that follow one another.
pub open spec fn result_groups(
    src: Seq<u8>,
    paren: WatToken,
    tok: WatToken,
    acc: Seq<WatValType>,
) -> Result<Groups<Seq<WatValType>>, WatParserError>
    decreases src.len() - tok.start.position,
    when token_in(src, tok)
    via result_groups_decreases
{
    if is_keyword(src, tok, "result"@) {
        match advance(src, tok) {
            Ok(t1) => match result_group(src, t1, acc) {
                Ok((items, t2)) => match maybe_open_paren(src, t2) {
                    Ok((open, t3)) => if open {
                        result_groups(src, t2, t3, items)
                    } else {
                        Ok(Groups { items, open: false, paren, token: t3 })
                    },
                    Err(e) => Err(e),
                },
                Err(e) => Err(e),
            },
            Err(e) => Err(e),
        }
    } else {
        Ok(Groups { items: acc, open: true, paren, token: tok })
    }
}

#[via_fn]
proof fn result_groups_decreases(
    src: Seq<u8>,
    paren: WatToken,
    tok: WatToken,
    acc: Seq<WatValType>,
) {
    lemma_advance(src, tok);
    if let Ok(t1) = advance(src, tok) {
        lemma_result_group(src, t1, acc);
        if let Ok((_, t2)) = result_group(src, t1, acc) {
            lemma_advance(src, t2);
        }
    }
}

/// The group `(type id)`, if `tok` begins one, and the `(` behind it, if
/// there is one.
pub open spec fn type_group(src: Seq<u8>, paren: WatToken, tok: WatToken) -> Result<
    Groups<Option<Seq<u8>>>,
    WatParserError,
> {
    if is_keyword(src, tok, "type"@) {
        match advance(src, tok) {
            Ok(t1) => match maybe_id(src, t1) {
                Ok((None, t2)) => Err(error_at(t2, TYPEUSE_ID_EXPECTED)),
                Ok((Some(id), t2)) => match expect_close_paren(src, t2) {
                    Ok(t3) => match maybe_open_paren(src, t3) {
                        Ok((open, t4)) => Ok(Groups { items: Some(id), open, paren: t3, token: t4 }),
                        Err(e) => Err(e),
                    },
                    Err(e) => Err(e),
                },
                Err(e) => Err(e),
            },
            Err(e) => Err(e),
        }
    } else {
        Ok(Groups { items: None, open: true, paren, token: tok })
    }
}

/// A signature, read from behind its first `(`, which `paren` is: an
/// optional `(type id)`, then groups of parameters, then groups of results.
pub open spec fn typeuse_after_open_paren(src: Seq<u8>, paren: WatToken, tok: WatToken) -> Result<
    Groups<TypeuseView>,
    WatParserError,
> {
    match type_group(src, paren, tok) {
        Ok(t) => if !t.open {
            Ok(
                Groups {
                    items: TypeuseView { id: t.items, params: Seq::empty(), results: Seq::empty() },
                    open: false,
                    paren: t.paren,
                    token: t.token,
                },
            )
        } else {
            match param_groups(src, "param"@, t.paren, t.token, Seq::empty()) {
                Ok(p) => if !p.open {
                    Ok(
                        Groups {
                            items: TypeuseView {
                                id: t.items,
                                params: p.items,
                                results: Seq::empty(),
                            },
                            open: false,
                            paren: p.paren,
                            token: p.token,
                        },
                    )
                } else {
                    match result_groups(src, p.paren, p.token, Seq::empty()) {
                        Ok(r) => Ok(
                            Groups {
                                items: TypeuseView {
                                    id: t.items,
                                    params: p.items,
                                    results: r.items,
                                },
                                open: r.open,
                                paren: r.paren,
                                token: r.token,
                            },
                        ),
                        Err(e) => Err(e),
                    }
                },
                Err(e) => Err(e),
            }
        },
        Err(e) => Err(e),
    }
}

/// The token that is current after a run of groups: the token behind the
/// groups, or the `(` that was found not to begin another group.
pub open spec fn resume_token<T>(groups: Groups<T>) -> WatToken {
    if groups.open {
        groups.paren
    } else {
        groups.token
    }
}

/// A signature, if `tok` is a `(`; the empty signature if not.
pub open spec fn read_typeuse(src: Seq<u8>, tok: WatToken) -> Parsed<TypeuseView> {
    if tok.ty == WatTokenType::OpenParen {
        match advance(src, tok) {
            Ok(t1) => match typeuse_after_open_paren(src, tok, t1) {
                Ok(t) => Ok((t.items, resume_token(t))),
                Err(e) => Err(e),
            },
            Err(e) => Err(e),
        }
    } else {
        Ok((TypeuseView::empty(), tok))
    }
}

/// The groups of locals, read from behind a `(`, which `paren` is.
pub open spec fn locals_after_open_paren(src: Seq<u8>, paren: WatToken, tok: WatToken) -> Result<
    Groups<Seq<ParamView>>,
    WatParserError,
> {
    param_groups(src, "local"@, paren, tok, Seq::empty())
}

/// The event that begins a function body.
pub open spec fn start_func(
    id: Option<Seq<u8>>,
    export_name: Option<Seq<char>>,
    typeuse: TypeuseView,
    locals: Seq<ParamView>,
    token: WatToken,
) -> Step {
    Step {
        state: StateView::StartFunc { id, export_name, typeuse, locals },
        token,
        func_depth: Some(0),
    }
}

/// The rest of a function that is imported inline; `tok` is behind
/// `(import`. Two names and `)`, a signature, and the `)` of the function.
pub open spec fn read_func_import(src: Seq<u8>, id: Option<Seq<u8>>, tok: WatToken) -> Result<
    Step,
    WatParserError,
> {
    match read_name(src, tok) {
        Ok((modname, t1)) => match read_name(src, t1) {
            Ok((fieldname, t2)) => match expect_close_paren(src, t2) {
                Ok(t3) => match read_typeuse(src, t3) {
                    Ok((typeuse, t4)) => match expect_close_paren(src, t4) {
                        Ok(t5) => Ok(
                            Step {
                                state: StateView::Import {
                                    modname,
                                    fieldname,
                                    import: ImportView::Func { id, typeuse },
                                },
                                token: t5,
                                func_depth: None,
                            },
                        ),
                        Err(e) => Err(e),
                    },
                    Err(e) => Err(e),
                },
                Err(e) => Err(e),
            },
            Err(e) => Err(e),
        },
        Err(e) => Err(e),
    }
}

/// The signature and the locals of a function, read from behind a `(`,
/// which `paren` is.
pub open spec fn read_func_header(
    src: Seq<u8>,
    id: Option<Seq<u8>>,
    export_name: Option<Seq<char>>,
    paren: WatToken,
    tok: WatToken,
) -> Result<Step, WatParserError> {
    match typeuse_after_open_paren(src, paren, tok) {
        Ok(t) => if t.open {
            match locals_after_open_paren(src, t.paren, t.token) {
                Ok(l) => Ok(start_func(id, export_name, t.items, l.items, resume_token(l))),
                Err(e) => Err(e),
            }
        } else {
            Ok(start_func(id, export_name, t.items, Seq::empty(), t.token))
        },
        Err(e) => Err(e),
    }
}

/// The rest of a function that is exported inline; `tok` is behind
/// `(export`. A name and `)`, then signature and locals if a `(` follows.
pub open spec fn read_func_export(src: Seq<u8>, id: Option<Seq<u8>>, tok: WatToken) -> Result<
    Step,
    WatParserError,
> {
    match read_name(src, tok) {
        Ok((name, t1)) => match expect_close_paren(src, t1) {
            Ok(t2) => match maybe_open_paren(src, t2) {
                Ok((open, t3)) => if open {
                    read_func_header(src, id, Some(name), t2, t3)
                } else {
                    Ok(start_func(id, Some(name), TypeuseView::empty(), Seq::empty(), t3))
                },
                Err(e) => Err(e),
            },
            Err(e) => Err(e),
        },
        Err(e) => Err(e),
    }
}

/// A function up to its body, or an inline import of one. `tok` is the
/// keyword `func`.
pub open spec fn read_func(src: Seq<u8>, tok: WatToken) -> Result<Step, WatParserError> {
    match advance(src, tok) {
        Ok(t0) => match maybe_id(src, t0) {
            Ok((id, t1)) => match maybe_open_paren(src, t1) {
                Ok((open, t2)) => if !open {
                    Ok(start_func(id, None, TypeuseView::empty(), Seq::empty(), t2))
                } else if is_keyword(src, t2, "import"@) {
                    match advance(src, t2) {
                        Ok(t3) => read_func_import(src, id, t3),
                        Err(e) => Err(e),
                    }
                } else if is_keyword(src, t2, "export"@) {
                    match advance(src, t2) {
                        Ok(t3) => read_func_export(src, id, t3),
                        Err(e) => Err(e),
                    }
                } else {
                    read_func_header(src, id, None, t1, t2)
                },
                Err(e) => Err(e),
            },
            Err(e) => Err(e),
        },
        Err(e) => Err(e),
    }
}

/// A flag of a memory instruction with its value.
pub open spec fn read_memarg_flag(src: Seq<u8>, tok: WatToken) -> Parsed<ArgView> {
    match number_u32(memarg_value(content(src, tok))) {
        Some(value) => match advance(src, tok) {
            Ok(t) => Ok((ArgView::Flags(content(src, tok), value), t)),
            Err(e) => Err(e),
        },
        None => Err(error_at(tok, U32_EXPECTED)),
    }
}

/// A signed integer as an argument.
pub open spec fn read_arg_signed(src: Seq<u8>, tok: WatToken) -> Parsed<ArgView> {
    match number_data(content(src, tok).skip(1)) {
        Some(data) => match advance(src, tok) {
            Ok(t) => Ok((ArgView::Signed(sign_of(content(src, tok)), data), t)),
            Err(e) => Err(e),
        },
        None => Err(error_at(tok, BAD_SIGNED)),
    }
}

/// An unsigned integer as an argument.
pub open spec fn read_arg_unsigned(src: Seq<u8>, tok: WatToken) -> Parsed<ArgView> {
    match number_data(content(src, tok)) {
        Some(data) => match advance(src, tok) {
            Ok(t) => Ok((ArgView::Unsigned(data), t)),
            Err(e) => Err(e),
        },
        None => Err(error_at(tok, BAD_UNSIGNED)),
    }
}

/// A float as an argument.
pub open spec fn read_arg_float(src: Seq<u8>, tok: WatToken) -> Parsed<ArgView> {
    match float_value(content(src, tok)) {
        Some(float) => match advance(src, tok) {
            Ok(t) => Ok((ArgView::Float(float), t)),
            Err(e) => Err(e),
        },
        None => Err(error_at(tok, BAD_FLOAT)),
    }
}

/// An identifier as an argument.
pub open spec fn read_arg_id(src: Seq<u8>, tok: WatToken) -> Parsed<ArgView> {
    match read_id(src, tok) {
        Ok((id, t)) => Ok((ArgView::ID(id), t)),
        Err(e) => Err(e),
    }
}

/// Whether the arguments of an instruction end before `tok`: at a
/// parenthesis, at the end of the source, and at a keyword that is no flag.
pub open spec fn ends_arguments(src: Seq<u8>, tok: WatToken) -> bool {
    ||| tok.ty == WatTokenType::End
    ||| tok.ty == WatTokenType::OpenParen
    ||| tok.ty == WatTokenType::CloseParen
    ||| tok.ty == WatTokenType::Keyword && !is_memarg_flag(content(src, tok))
}

/// One argument of an instruction.
pub open spec fn read_arg(src: Seq<u8>, tok: WatToken) -> Parsed<ArgView> {
    match tok.ty {
        WatTokenType::Keyword => read_memarg_flag(src, tok),
        WatTokenType::ID => read_arg_id(src, tok),
        WatTokenType::Signed => read_arg_signed(src, tok),
        WatTokenType::Unsigned => read_arg_unsigned(src, tok),
        WatTokenType::Float => read_arg_float(src, tok),
        _ => Err(error_at(tok, UNEXPECTED_ARGUMENT)),
    }
}

/// The arguments of an instruction.
pub open spec fn read_args(src: Seq<u8>, tok: WatToken, acc: Seq<ArgView>) -> Parsed<Seq<ArgView>>
    decreases src.len() - tok.start.position,
    when token_in(src, tok)
    via read_args_decreases
{
    if ends_arguments(src, tok) {
        Ok((acc, tok))
    } else {
        match read_arg(src, tok) {
            Ok((arg, t)) => read_args(src, t, acc.push(arg)),
            Err(e) => Err(e),
        }
    }
}

#[via_fn]
proof fn read_args_decreases(src: Seq<u8>, tok: WatToken, acc: Seq<ArgView>) {
    lemma_advance(src, tok);
}

/// An instruction: its keyword, with a `(` before it if it is folded, and
/// its arguments. A folded instruction opens a level of nesting.
pub open spec fn read_instruction(src: Seq<u8>, tok: WatToken, depth: u32) -> Result<
    Step,
    WatParserError,
> {
    match maybe_open_paren(src, tok) {
        Ok((group, t1)) => match read_keyword(src, t1) {
            Ok((instruction, t2)) => match read_args(src, t2, Seq::empty()) {
                Ok((args, t3)) => if group && depth == u32::MAX {
                    Err(error_at(t3, TOO_DEEP))
                } else {
                    Ok(
                        Step {
                            state: StateView::CodeOperator {
                                instruction,
                                args,
                                group,
                                position: t1.start,
                            },
                            token: t3,
                            func_depth: Some(
                                if group {
                                    (depth + 1) as u32
                                } else {
                                    depth
                                },
                            ),
                        },
                    )
                },
                Err(e) => Err(e),
            },
            Err(e) => Err(e),
        },
        Err(e) => Err(e),
    }
}

/// The next element of a function body at nesting `depth`: a `)` ends a
/// folded instruction, or the function if none is open; anything else
/// must be an instruction.
pub open spec fn read_func_body(src: Seq<u8>, tok: WatToken, depth: u32) -> Result<
    Step,
    WatParserError,
> {
    if tok.ty == WatTokenType::CloseParen {
        match advance(src, tok) {
            Ok(t) => if depth == 0 {
                Ok(Step { state: StateView::EndFunc, token: t, func_depth: None })
            } else {
                Ok(
                    Step {
                        state: StateView::CodeOperatorEnd,
                        token: t,
                        func_depth: Some((depth - 1) as u32),
                    },
                )
            },
            Err(e) => Err(e),
        }
    } else {
        read_instruction(src, tok, depth)
    }
}

/// The next field of the module, or its end: `)` ends the module; else a
/// `(` and the keyword of a field must follow.
pub open spec fn read_module_field(src: Seq<u8>, tok: WatToken) -> Result<Step, WatParserError> {
    if tok.ty == WatTokenType::CloseParen {
        match advance(src, tok) {
            Ok(t) => Ok(Step { state: StateView::EndModule, token: t, func_depth: None }),
            Err(e) => Err(e),
        }
    } else {
        match expect_open_paren(src, tok) {
            Ok(t1) => match get_keyword(src, t1) {
                Ok(keyword) => if keyword == ascii_bytes("import"@) {
                    read_import(src, t1)
                } else if keyword == ascii_bytes("func"@) {
                    read_func(src, t1)
                } else {
                    Err(error_at(t1, UNKNOWN_FIELD))
                },
                Err(e) => Err(e),
            },
            Err(e) => Err(e),
        }
    }
}

/// The end of the source, which must follow the module.
pub open spec fn find_end(tok: WatToken) -> Result<Step, WatParserError> {
    if tok.ty == WatTokenType::End {
        Ok(Step { state: StateView::End, token: tok, func_depth: None })
    } else {
        Err(error_at(tok, CONTENT_AFTER_MODULE))
    }
}

/// The token after a token of the source is one of the source, and begins
/// where that one ends or later.
pub proof fn lemma_advance(src: Seq<u8>, tok: WatToken)
    requires
        token_in(src, tok),
    ensures
        tok.start.position <= tok.end.position <= src.len(),
        tok.ty != WatTokenType::End ==> tok.start.position < tok.end.position,
        advance(src, tok) matches Ok(t) ==> token_in(src, t) && tok.end.position
            <= t.start.position,
{
    lemma_next_token(src, tok.start.position as int);
    lemma_next_token(src, tok.end.position as int);
}

/// Further value types leave a token of the source current, at or behind
/// the one they began at.
pub proof fn lemma_more_params(src: Seq<u8>, tok: WatToken, acc: Seq<ParamView>)
    requires
        token_in(src, tok),
    ensures
        more_params(src, tok, acc) matches Ok((_, t)) ==> token_in(src, t) && tok.start.position
            <= t.start.position,
    decreases src.len() - tok.start.position,
{
    lemma_advance(src, tok);
    if tok.ty == WatTokenType::Keyword {
        if let Ok((valtype, t)) = read_valtype(src, tok) {
            lemma_more_params(src, t, acc.push(anonymous(valtype)));
        }
    }
}

pub proof fn lemma_more_results(src: Seq<u8>, tok: WatToken, acc: Seq<WatValType>)
    requires
        token_in(src, tok),
    ensures
        more_results(src, tok, acc) matches Ok((_, t)) ==> token_in(src, t) && tok.start.position
            <= t.start.position,
    decreases src.len() - tok.start.position,
{
    lemma_advance(src, tok);
    if tok.ty == WatTokenType::Keyword {
        if let Ok((valtype, t)) = read_valtype(src, tok) {
            lemma_more_results(src, t, acc.push(valtype));
        }
    }
}

pub proof fn lemma_param_group(src: Seq<u8>, tok: WatToken, acc: Seq<ParamView>)
    requires
        token_in(src, tok),
    ensures
        param_group(src, tok, acc) matches Ok((_, t)) ==> token_in(src, t) && tok.start.position
            <= t.start.position,
{
    lemma_advance(src, tok);
    if let Ok((id, t1)) = maybe_id(src, tok) {
        lemma_advance(src, t1);
        if let Ok((valtype, t2)) = read_valtype(src, t1) {
            let first = acc.push(ParamView { id, valtype });
            lemma_more_params(src, t2, first);
            lemma_advance(src, t2);
            if id is None {
                if let Ok((_, t3)) = more_params(src, t2, first) {
                    lemma_advance(src, t3);
                }
            }
        }
    }
}

pub proof fn lemma_result_group(src: Seq<u8>, tok: WatToken, acc: Seq<WatValType>)
    requires
        token_in(src, tok),
    ensures
        result_group(src, tok, acc) matches Ok((_, t)) ==> token_in(src, t) && tok.start.position
            <= t.start.position,
{
    lemma_advance(src, tok);
    if let Ok((valtype, t1)) = read_valtype(src, tok) {
        lemma_more_results(src, t1, acc.push(valtype));
        if let Ok((_, t2)) = more_results(src, t1, acc.push(valtype)) {
            lemma_advance(src, t2);
        }
    }
}

proof fn lemma_read_limits(src: Seq<u8>, tok: WatToken)
    requires
        token_in(src, tok),
    ensures
        read_limits(src, tok) matches Ok((_, t)) ==> token_in(src, t),
{
    lemma_advance(src, tok);
    if let Ok((_, t1)) = read_u32(src, tok) {
        lemma_advance(src, t1);
    }
}

proof fn lemma_read_memtype(src: Seq<u8>, tok: WatToken)
    requires
        token_in(src, tok),
    ensures
        read_memtype(src, tok) matches Ok((_, t)) ==> token_in(src, t),
{
    lemma_advance(src, tok);
    lemma_read_limits(src, tok);
    if let Ok(t1) = advance(src, tok) {
        lemma_advance(src, t1);
        if let Ok(t2) = expect_exact_keyword(src, t1, "shared"@) {
            lemma_read_limits(src, t2);
            if let Ok((_, t3)) = read_limits(src, t2) {
                lemma_advance(src, t3);
            }
        }
    }
}

proof fn lemma_read_import(src: Seq<u8>, tok: WatToken)
    requires
        token_in(src, tok),
    ensures
        read_import(src, tok) matches Ok(step) ==> token_in(src, step.token),
{
    lemma_advance(src, tok);
    if let Ok(t1) = advance(src, tok) {
        lemma_advance(src, t1);
        if let Ok((_, t2)) = read_name(src, t1) {
            lemma_advance(src, t2);
            if let Ok((_, t3)) = read_name(src, t2) {
                lemma_advance(src, t3);
                if let Ok(t4) = expect_open_paren(src, t3) {
                    lemma_advance(src, t4);
                    if let Ok(t41) = advance(src, t4) {
                        lemma_advance(src, t41);
                        if let Ok((_, t42)) = maybe_id(src, t41) {
                            lemma_read_memtype(src, t42);
                        }
                    }
                    if let Ok((_, t5)) = read_import_description(src, t4) {
                        lemma_advance(src, t5);
                        if let Ok(t6) = expect_close_paren(src, t5) {
                            lemma_advance(src, t6);
                        }
                    }
                }
            }
        }
    }
}

proof fn lemma_param_groups(
    src: Seq<u8>,
    keyword: Seq<char>,
    paren: WatToken,
    tok: WatToken,
    acc: Seq<ParamView>,
)
    requires
        token_in(src, paren),
        token_in(src, tok),
    ensures
        param_groups(src, keyword, paren, tok, acc) matches Ok(g) ==> token_in(src, g.paren)
            && token_in(src, g.token),
    decreases src.len() - tok.start.position,
{
    lemma_advance(src, tok);
    if is_keyword(src, tok, keyword) {
        if let Ok(t1) = advance(src, tok) {
            lemma_param_group(src, t1, acc);
            if let Ok((items, t2)) = param_group(src, t1, acc) {
                lemma_advance(src, t2);
                if let Ok((open, t3)) = maybe_open_paren(src, t2) {
                    if open {
                        lemma_param_groups(src, keyword, t2, t3, items);
                    }
                }
            }
        }
    }
}

proof fn lemma_result_groups(src: Seq<u8>, paren: WatToken, tok: WatToken, acc: Seq<WatValType>)
    requires
        token_in(src, paren),
        token_in(src, tok),
    ensures
        result_groups(src, paren, tok, acc) matches Ok(g) ==> token_in(src, g.paren) && token_in(
            src,
            g.token,
        ),
    decreases src.len() - tok.start.position,
{
    lemma_advance(src, tok);
    if is_keyword(src, tok, "result"@) {
        if let Ok(t1) = advance(src, tok) {
            lemma_result_group(src, t1, acc);
            if let Ok((items, t2)) = result_group(src, t1, acc) {
                lemma_advance(src, t2);
                if let Ok((open, t3)) = maybe_open_paren(src, t2) {
                    if open {
                        lemma_result_groups(src, t2, t3, items);
                    }
                }
            }
        }
    }
}

proof fn lemma_typeuse_after_open_paren(src: Seq<u8>, paren: WatToken, tok: WatToken)
    requires
        token_in(src, paren),
        token_in(src, tok),
    ensures
        typeuse_after_open_paren(src, paren, tok) matches Ok(g) ==> token_in(src, g.paren)
            && token_in(src, g.token),
{
    lemma_advance(src, tok);
    if let Ok(t1) = advance(src, tok) {
        lemma_advance(src, t1);
        if let Ok((_, t2)) = maybe_id(src, t1) {
            lemma_advance(src, t2);
            if let Ok(t3) = expect_close_paren(src, t2) {
                lemma_advance(src, t3);
            }
        }
    }
    if let Ok(t) = type_group(src, paren, tok) {
        if t.open {
            lemma_param_groups(src, "param"@, t.paren, t.token, Seq::empty());
            if let Ok(p) = param_groups(src, "param"@, t.paren, t.token, Seq::empty()) {
                if p.open {
                    lemma_result_groups(src, p.paren, p.token, Seq::empty());
                }
            }
        }
    }
}

proof fn lemma_read_typeuse(src: Seq<u8>, tok: WatToken)
    requires
        token_in(src, tok),
    ensures
        read_typeuse(src, tok) matches Ok((_, t)) ==> token_in(src, t),
{
    lemma_advance(src, tok);
    if let Ok(t1) = advance(src, tok) {
        lemma_typeuse_after_open_paren(src, tok, t1);
    }
}

proof fn lemma_read_func_header(
    src: Seq<u8>,
    id: Option<Seq<u8>>,
    export_name: Option<Seq<char>>,
    paren: WatToken,
    tok: WatToken,
)
    requires
        token_in(src, paren),
        token_in(src, tok),
    ensures
        read_func_header(src, id, export_name, paren, tok) matches Ok(step) ==> token_in(
            src,
            step.token,
        ),
{
    lemma_typeuse_after_open_paren(src, paren, tok);
    if let Ok(t) = typeuse_after_open_paren(src, paren, tok) {
        if t.open {
            lemma_param_groups(src, "local"@, t.paren, t.token, Seq::empty());
        }
    }
}

proof fn lemma_read_func(src: Seq<u8>, tok: WatToken)
    requires
        token_in(src, tok),
    ensures
        read_func(src, tok) matches Ok(step) ==> token_in(src, step.token),
{
    lemma_advance(src, tok);
    if let Ok(t0) = advance(src, tok) {
        lemma_advance(src, t0);
        if let Ok((id, t1)) = maybe_id(src, t0) {
            lemma_advance(src, t1);
            if let Ok((open, t2)) = maybe_open_paren(src, t1) {
                lemma_advance(src, t2);
                lemma_read_func_header(src, id, None, t1, t2);
                if let Ok(t3) = advance(src, t2) {
                    lemma_advance(src, t3);
                    if let Ok((name, t4)) = read_name(src, t3) {
                        lemma_advance(src, t4);
                        // behind `(export` and a name
                        if let Ok(t5) = expect_close_paren(src, t4) {
                            lemma_advance(src, t5);
                            if let Ok((_, t6)) = maybe_open_paren(src, t5) {
                                lemma_read_func_header(src, id, Some(name), t5, t6);
                            }
                        }
                        // behind `(import` and two names
                        if let Ok((_, t5)) = read_name(src, t4) {
                            lemma_advance(src, t5);
                            if let Ok(t6) = expect_close_paren(src, t5) {
                                lemma_read_typeuse(src, t6);
                                if let Ok((_, t7)) = read_typeuse(src, t6) {
                                    lemma_advance(src, t7);
                                }
                            }
                        }
                    }
                }
            }
        }
    }
}

proof fn lemma_read_args(src: Seq<u8>, tok: WatToken, acc: Seq<ArgView>)
    requires
        token_in(src, tok),
    ensures
        read_args(src, tok, acc) matches Ok((_, t)) ==> token_in(src, t),
    decreases src.len() - tok.start.position,
{
    lemma_advance(src, tok);
    if !ends_arguments(src, tok) {
        if let Ok((arg, t)) = read_arg(src, tok) {
            lemma_read_args(src, t, acc.push(arg));
        }
    }
}

proof fn lemma_read_func_body(src: Seq<u8>, tok: WatToken, depth: u32)
    requires
        token_in(src, tok),
    ensures
        read_func_body(src, tok, depth) matches Ok(step) ==> token_in(src, step.token),
{
    lemma_advance(src, tok);
    if let Ok((_, t1)) = maybe_open_paren(src, tok) {
        lemma_advance(src, t1);
        if let Ok((_, t2)) = read_keyword(src, t1) {
            lemma_read_args(src, t2, Seq::empty());
        }
    }
}

/// A step from a state that a parser can be in leads to a state that a
/// parser can be in: a token of the source is current after every event
/// but an error, and the nesting depth is defined exactly inside a function
/// body.
pub proof fn lemma_step_keeps_wf(parser: ParserView)
    requires
        parser.wf(),
        !parser.is_terminal(),
    ensures
        parser.step().wf(),
{
    let src = parser.source;
    match parser.state {
        StateView::Initial => {
            lemma_next_token(src, 0);
            if let Ok(t0) = next_token(src, 0) {
                lemma_advance(src, t0);
                if let Ok(t1) = expect_open_paren(src, t0) {
                    lemma_advance(src, t1);
                    if let Ok(t2) = expect_exact_keyword(src, t1, "module"@) {
                        lemma_advance(src, t2);
                    }
                }
            }
        },
        StateView::StartModule { .. } | StateView::EndFunc | StateView::Import { .. } => {
            let tok = parser.token.unwrap();
            lemma_advance(src, tok);
            if let Ok(t1) = expect_open_paren(src, tok) {
                lemma_read_import(src, t1);
                lemma_read_func(src, t1);
            }
        },
        StateView::StartFunc { .. } | StateView::CodeOperator { .. } | StateView::CodeOperatorEnd => {
            lemma_read_func_body(src, parser.token.unwrap(), parser.func_depth.unwrap());
        },
        _ => {},
    }
}

/// The state of a parser: the source, the event that the last step
/// reported, the current token, and the nesting depth inside a function
/// body. No token is current before the first step and after an error.
pub struct ParserView {
    pub source: Seq<u8>,
    pub state: StateView,
    pub token: Option<WatToken>,
    pub func_depth: Option<u32>,
}

impl ParserView {
    /// The state of a parser that has not made a step.
    pub open spec fn initial(source: Seq<u8>) -> ParserView {
        ParserView { source, state: StateView::Initial, token: None, func_depth: None }
    }

    /// Whether the parse is over: the end was reached, or an error.
    pub open spec fn is_terminal(self) -> bool {
        self.state is End || self.state is Error
    }

    /// Whether the last event lies in a function body.
    pub open spec fn in_func_body(self) -> bool {
        self.state is StartFunc || self.state is CodeOperator || self.state is CodeOperatorEnd
    }

    /// The states a parser can be in. A token of the source is current
    /// but before the first step and after an error, and the nesting depth
    /// is defined exactly inside a function body.
    pub open spec fn wf(self) -> bool {
        &&& self.source.len() < usize::MAX
        &&& self.token is None <==> self.state is Initial || self.state is Error
        &&& self.token matches Some(tok) ==> token_in(self.source, tok)
        &&& self.func_depth is Some <==> self.in_func_body()
    }

    /// What the step from this state does, by the event last reported.
    pub open spec fn step_outcome(self) -> Result<Step, WatParserError> {
        match self.state {
            StateView::Initial => read_start_module(self.source),
            StateView::StartModule { .. } | StateView::EndFunc | StateView::Import { .. } => {
                read_module_field(self.source, self.token.unwrap())
            },
            StateView::StartFunc { .. }
            | StateView::CodeOperator { .. }
            | StateView::CodeOperatorEnd => read_func_body(
                self.source,
                self.token.unwrap(),
                self.func_depth.unwrap(),
            ),
            _ => find_end(self.token.unwrap()),
        }
    }

    /// The state after one step. An error is a state of its own, which
    /// keeps neither token nor depth.
    pub open spec fn step(self) -> ParserView {
        match self.step_outcome() {
            Ok(s) => ParserView {
                source: self.source,
                state: s.state,
                token: Some(s.token),
                func_depth: s.func_depth,
            },
            Err(e) => ParserView {
                source: self.source,
                state: StateView::Error(e),
                token: None,
                func_depth: None,
            },
        }
    }
}

} // verus!
