//! The parser: a state machine over the lexer that reports one event per
//! step, and the data that the events carry.

use vstd::prelude::*;
use vstd::string::is_ascii;
use crate::bytes::{bytes_are, bytes_start_with, bytes_to_vec};
use crate::grammar;
use crate::grammar::{ParserView, Step};
use crate::lexer::{LexerView, WatLexer, WatPosition, WatToken, WatTokenType};
use crate::literals::{parse_float, parse_num, parse_sign, parse_string, parse_u32};
use vstd::slice::slice_subrange;

verus! {

/// What went wrong while parsing, and where.
#[derive(Debug, Copy, Clone)]
pub struct WatParserError {
    pub message: &'static str,
    pub line: usize,
    pub column: usize,
}

pub type Keyword = Vec<u8>;

pub type Data = Vec<u8>;

pub type ID = Vec<u8>;

pub type OptionalID = Option<ID>;

pub type Name = String;

/// The size limits of a memory: a minimum and an optional maximum.
#[derive(Debug)]
pub struct WatLimits {
    pub min: u32,
    pub max: Option<u32>,
}

#[derive(Debug)]
pub struct WatMemoryType {
    pub limits: WatLimits,
    pub shared: bool,
}

/// The type of a table. Its shape is not defined yet.
#[derive(Debug)]
pub enum WatTableType {
    Reserved,
}

#[derive(Debug)]
pub enum WatValType {
    I32,
    I64,
    F32,
    F64,
}

#[derive(Debug)]
pub struct WatParam {
    pub id: OptionalID,
    pub valtype: WatValType,
}

#[derive(Debug)]
pub struct WatResult {
    pub valtype: WatValType,
}

#[derive(Debug)]
pub struct WatLocal {
    pub id: OptionalID,
    pub valtype: WatValType,
}

#[derive(Debug, Clone, Copy)]
pub enum WatSign {
    Positive,
    Negative,
}

/// A float literal. Of an ordinary number only the sign is decoded: its
/// mantissa is left empty and its exponent zero.
#[derive(Debug, Clone)]
pub enum WatFloat {
    Number(WatSign, Data, i32),
    NaN(WatSign, Option<Data>),
    Inf(WatSign),
}

/// An argument of an instruction. Numbers are held as little-endian bytes,
/// identifiers and flags as they are written.
#[derive(Debug)]
pub enum WatInstructionArg {
    ID(ID),
    Unsigned(Data),
    Signed(WatSign, Data),
    Float(WatFloat),
    Flags(Keyword, u32),
}

#[derive(Debug)]
pub struct WatTypeuse {
    pub id: OptionalID,
    pub params: Vec<WatParam>,
    pub results: Vec<WatResult>,
}

/// The type of a global. Its shape is not defined yet.
#[derive(Debug)]
pub enum WatGlobalType {
    Reserved,
}

#[derive(Debug)]
pub enum WatImport {
    Func { id: OptionalID, typeuse: WatTypeuse },
    Table { id: OptionalID, tabletype: WatTableType },
    Memory { id: OptionalID, memtype: WatMemoryType },
    Global { id: OptionalID, globaltype: WatGlobalType },
}

/// The state of the parser, which is also the event that the last step
/// reported.
#[derive(Debug)]
pub enum WatParserState {
    Initial,
    End,
    Error(WatParserError),
    StartModule { id: OptionalID },
    EndModule,
    Import { modname: Name, fieldname: Name, import: WatImport },
    StartFunc { id: OptionalID, export_name: Option<Name>, typeuse: WatTypeuse, locals: Vec<WatLocal> },
    EndFunc,
    CodeOperator { instruction: Keyword, args: Vec<WatInstructionArg>, group: bool, position: WatPosition },
    CodeOperatorEnd,
}

/// A parameter or a local, as a value: its identifier, if it has one, and
/// its type.
pub struct ParamView {
    pub id: Option<Seq<u8>>,
    pub valtype: WatValType,
}

/// A function signature as a value.
pub struct TypeuseView {
    pub id: Option<Seq<u8>>,
    pub params: Seq<ParamView>,
    pub results: Seq<WatValType>,
}

/// A float literal as a value.
pub enum FloatView {
    Number(WatSign, Seq<u8>, i32),
    NaN(WatSign, Option<Seq<u8>>),
    Inf(WatSign),
}

/// An instruction argument as a value.
pub enum ArgView {
    ID(Seq<u8>),
    Unsigned(Seq<u8>),
    Signed(WatSign, Seq<u8>),
    Float(FloatView),
    Flags(Seq<u8>, u32),
}

/// An import as a value.
pub enum ImportView {
    Func { id: Option<Seq<u8>>, typeuse: TypeuseView },
    Table { id: Option<Seq<u8>>, tabletype: WatTableType },
    Memory { id: Option<Seq<u8>>, memtype: WatMemoryType },
    Global { id: Option<Seq<u8>>, globaltype: WatGlobalType },
}

/// A parser state as a value.
pub enum StateView {
    Initial,
    End,
    Error(WatParserError),
    StartModule { id: Option<Seq<u8>> },
    EndModule,
    Import { modname: Seq<char>, fieldname: Seq<char>, import: ImportView },
    StartFunc {
        id: Option<Seq<u8>>,
        export_name: Option<Seq<char>>,
        typeuse: TypeuseView,
        locals: Seq<ParamView>,
    },
    EndFunc,
    CodeOperator { instruction: Seq<u8>, args: Seq<ArgView>, group: bool, position: WatPosition },
    CodeOperatorEnd,
}

/// The bytes of an optional identifier.
pub open spec fn id_view(id: OptionalID) -> Option<Seq<u8>> {
    match id {
        Some(bytes) => Some(bytes@),
        None => None,
    }
}

/// The bytes of optional data.
pub open spec fn data_view(data: Option<Data>) -> Option<Seq<u8>> {
    id_view(data)
}

/// The characters of an optional name.
pub open spec fn name_view(name: Option<Name>) -> Option<Seq<char>> {
    match name {
        Some(text) => Some(text@),
        None => None,
    }
}

impl View for WatParam {
    type V = ParamView;

    open spec fn view(&self) -> ParamView {
        ParamView { id: id_view(self.id), valtype: self.valtype }
    }
}

impl View for WatLocal {
    type V = ParamView;

    open spec fn view(&self) -> ParamView {
        ParamView { id: id_view(self.id), valtype: self.valtype }
    }
}

impl View for WatResult {
    type V = WatValType;

    open spec fn view(&self) -> WatValType {
        self.valtype
    }
}

/// The parameters of a list, as values.
pub open spec fn params_view(params: Seq<WatParam>) -> Seq<ParamView> {
    params.map_values(|p: WatParam| p@)
}

/// The locals of a list, as values.
pub open spec fn locals_view(locals: Seq<WatLocal>) -> Seq<ParamView> {
    locals.map_values(|l: WatLocal| l@)
}

/// The results of a list, as values.
pub open spec fn results_view(results: Seq<WatResult>) -> Seq<WatValType> {
    results.map_values(|r: WatResult| r@)
}

impl View for WatTypeuse {
    type V = TypeuseView;

    open spec fn view(&self) -> TypeuseView {
        TypeuseView {
            id: id_view(self.id),
            params: params_view(self.params@),
            results: results_view(self.results@),
        }
    }
}

impl TypeuseView {
    /// The signature with no type identifier, no parameter and no result.
    pub open spec fn empty() -> TypeuseView {
        TypeuseView { id: None, params: Seq::empty(), results: Seq::empty() }
    }
}

impl WatTypeuse {
    pub fn empty() -> (typeuse: WatTypeuse)
        ensures
            typeuse@ == TypeuseView::empty(),
    {
        let typeuse = WatTypeuse { id: None, params: Vec::new(), results: Vec::new() };
        assert(params_view(typeuse.params@) =~= Seq::empty());
        assert(results_view(typeuse.results@) =~= Seq::empty());
        typeuse
    }
}

impl View for WatFloat {
    type V = FloatView;

    open spec fn view(&self) -> FloatView {
        match *self {
            WatFloat::Number(sign, mantissa, exponent) => FloatView::Number(
                sign,
                mantissa@,
                exponent,
            ),
            WatFloat::NaN(sign, payload) => FloatView::NaN(sign, data_view(payload)),
            WatFloat::Inf(sign) => FloatView::Inf(sign),
        }
    }
}

impl View for WatInstructionArg {
    type V = ArgView;

    open spec fn view(&self) -> ArgView {
        match *self {
            WatInstructionArg::ID(id) => ArgView::ID(id@),
            WatInstructionArg::Unsigned(data) => ArgView::Unsigned(data@),
            WatInstructionArg::Signed(sign, data) => ArgView::Signed(sign, data@),
            WatInstructionArg::Float(float) => ArgView::Float(float@),
            WatInstructionArg::Flags(keyword, value) => ArgView::Flags(keyword@, value),
        }
    }
}

/// The arguments of a list, as values.
pub open spec fn args_view(args: Seq<WatInstructionArg>) -> Seq<ArgView> {
    args.map_values(|a: WatInstructionArg| a@)
}

impl View for WatImport {
    type V = ImportView;

    open spec fn view(&self) -> ImportView {
        match *self {
            WatImport::Func { id, typeuse } => ImportView::Func { id: id_view(id), typeuse: typeuse@ },
            WatImport::Table { id, tabletype } => ImportView::Table { id: id_view(id), tabletype },
            WatImport::Memory { id, memtype } => ImportView::Memory { id: id_view(id), memtype },
            WatImport::Global { id, globaltype } => ImportView::Global {
                id: id_view(id),
                globaltype,
            },
        }
    }
}

impl View for WatParserState {
    type V = StateView;

    open spec fn view(&self) -> StateView {
        match *self {
            WatParserState::Initial => StateView::Initial,
            WatParserState::End => StateView::End,
            WatParserState::Error(e) => StateView::Error(e),
            WatParserState::StartModule { id } => StateView::StartModule { id: id_view(id) },
            WatParserState::EndModule => StateView::EndModule,
            WatParserState::Import { modname, fieldname, import } => StateView::Import {
                modname: modname@,
                fieldname: fieldname@,
                import: import@,
            },
            WatParserState::StartFunc { id, export_name, typeuse, locals } => StateView::StartFunc {
                id: id_view(id),
                export_name: name_view(export_name),
                typeuse: typeuse@,
                locals: locals_view(locals@),
            },
            WatParserState::EndFunc => StateView::EndFunc,
            WatParserState::CodeOperator { instruction, args, group, position } => {
                StateView::CodeOperator {
                    instruction: instruction@,
                    args: args_view(args@),
                    group,
                    position,
                }
            },
            WatParserState::CodeOperatorEnd => StateView::CodeOperatorEnd,
        }
    }
}

/// The parser over a borrowed source.
pub struct WatParser<'a> {
    lexer: WatLexer<'a>,
    state: WatParserState,
    func_depth: Option<u32>,
}

impl<'a> View for WatParser<'a> {
    type V = ParserView;

    closed spec fn view(&self) -> ParserView {
        ParserView {
            source: self.lexer@.source,
            state: self.state@,
            token: if self.state is Initial || self.state is Error {
                None
            } else {
                self.lexer@.token
            },
            func_depth: self.func_depth,
        }
    }
}

impl<'a> WatParser<'a> {
    /// But after an error, the lexer is in order. It has produced no token
    /// before the first step, and has a current token after any event.
    pub closed spec fn lexer_ok(&self) -> bool {
        &&& !(self.state is Error) ==> self.lexer.wf()
        &&& self.state is Initial ==> self.lexer@ == LexerView::initial(self.lexer@.source)
        &&& !(self.state is Initial || self.state is Error) ==> self.lexer@.token is Some
    }

    /// The invariant of the parser.
    pub open spec fn wf(&self) -> bool {
        self.lexer_ok() && self@.wf()
    }

    /// The source.
    spec fn src(&self) -> Seq<u8> {
        self.lexer@.source
    }

    /// The lexer is in order and has a current token.
    spec fn ready(&self) -> bool {
        self.lexer.wf() && self.lexer@.token is Some
    }

    /// The current token.
    spec fn tok(&self) -> WatToken {
        self.lexer@.token.unwrap()
    }

    /// The token before the current one.
    spec fn past(&self) -> WatToken {
        self.lexer@.past_token.unwrap()
    }

    /// The lexer is in order and `t` is the current token.
    spec fn at(&self, t: WatToken) -> bool {
        self.ready() && self.tok() == t
    }

    /// A step back would make `paren` the current token.
    spec fn behind(&self, paren: WatToken) -> bool {
        self.lexer@.past_token == Some(paren)
    }

    /// Source, state and depth are those of `other`.
    spec fn kept(&self, other: &Self) -> bool {
        &&& self.src() == other.src()
        &&& self.state == other.state
        &&& self.func_depth == other.func_depth
    }

    /// A parser that has not made a step. The source must be shorter than
    /// `usize::MAX` bytes.
    pub fn new(source: &'a [u8]) -> (parser: WatParser<'a>)
        requires
            source@.len() < usize::MAX,
        ensures
            parser.wf(),
            parser@ == ParserView::initial(source@),
    {
        WatParser { lexer: WatLexer::new(source), state: WatParserState::Initial, func_depth: None }
    }

    fn current_token(&self) -> (t: &WatToken)
        requires
            self.ready(),
        ensures
            *t == self.tok(),
    {
        self.lexer.current_token()
    }

    fn current_token_type(&self) -> (ty: &WatTokenType)
        requires
            self.ready(),
        ensures
            *ty == self.tok().ty,
    {
        &self.lexer.current_token().ty
    }

    fn current_token_content(&self) -> (content: &[u8])
        requires
            self.ready(),
        ensures
            content@ == grammar::content(self.src(), self.tok()),
    {
        self.lexer.current_token_content()
    }

    fn create_error(&self, message: &'static str) -> (e: WatParserError)
        requires
            self.ready(),
        ensures
            e == grammar::error_at(self.tok(), message),
    {
        let position = &self.current_token().start;
        WatParserError { message, line: position.line, column: position.column }
    }

    /// Makes the next token the current one.
    fn advance(&mut self) -> (r: Result<(), WatParserError>)
        requires
            old(self).lexer.wf(),
        ensures
            final(self).kept(old(self)),
            match old(self).lexer@.next() {
                Ok(v) => r is Ok && final(self).lexer.wf() && final(self).lexer@ == v,
                Err(e) => r == Err::<(), WatParserError>(grammar::lexer_error(e)),
            },
            old(self).lexer@.token matches Some(tok) ==> match grammar::advance(
                old(self).src(),
                tok,
            ) {
                Ok(t) => r is Ok && final(self).at(t) && final(self).behind(tok),
                Err(e) => r == Err::<(), WatParserError>(e),
            },
    {
        match self.lexer.next() {
            Ok(_) => Ok(()),
            Err(err) => Err(
                WatParserError { message: err.message, line: err.line, column: err.column },
            ),
        }
    }

    /// Steps back by one token.
    fn rewind_token(&mut self)
        requires
            old(self).lexer.wf(),
            old(self).lexer@.can_rewind(),
        ensures
            final(self).kept(old(self)),
            final(self).at(old(self).past()),
    {
        self.lexer.rewind();
    }

    fn maybe_open_paren(&mut self) -> (r: Result<bool, WatParserError>)
        requires
            old(self).ready(),
        ensures
            final(self).kept(old(self)),
            match grammar::maybe_open_paren(old(self).src(), old(self).tok()) {
                Ok((found, t)) => r == Ok::<bool, WatParserError>(found) && final(self).at(t) && (
                if found {
                    final(self).behind(old(self).tok())
                } else {
                    final(self).lexer@ == old(self).lexer@
                }),
                Err(e) => r == Err::<bool, WatParserError>(e),
            },
    {
        if let WatTokenType::OpenParen = *self.current_token_type() {
            self.advance()?;
            return Ok(true);
        }
        Ok(false)
    }

    fn expect_open_paren(&mut self) -> (r: Result<(), WatParserError>)
        requires
            old(self).ready(),
        ensures
            final(self).kept(old(self)),
            match grammar::expect_open_paren(old(self).src(), old(self).tok()) {
                Ok(t) => r is Ok && final(self).at(t),
                Err(e) => r == Err::<(), WatParserError>(e),
            },
    {
        if self.maybe_open_paren()? {
            return Ok(());
        }
        Err(self.create_error(grammar::OPEN_PAREN_EXPECTED))
    }

    fn maybe_close_paren(&mut self) -> (r: Result<bool, WatParserError>)
        requires
            old(self).ready(),
        ensures
            final(self).kept(old(self)),
            match grammar::maybe_close_paren(old(self).src(), old(self).tok()) {
                Ok((found, t)) => r == Ok::<bool, WatParserError>(found) && final(self).at(t),
                Err(e) => r == Err::<bool, WatParserError>(e),
            },
    {
        if let WatTokenType::CloseParen = *self.current_token_type() {
            self.advance()?;
            return Ok(true);
        }
        Ok(false)
    }

    fn expect_close_paren(&mut self) -> (r: Result<(), WatParserError>)
        requires
            old(self).ready(),
        ensures
            final(self).kept(old(self)),
            match grammar::expect_close_paren(old(self).src(), old(self).tok()) {
                Ok(t) => r is Ok && final(self).at(t),
                Err(e) => r == Err::<(), WatParserError>(e),
            },
    {
        if self.maybe_close_paren()? {
            return Ok(());
        }
        Err(self.create_error(grammar::CLOSE_PAREN_EXPECTED))
    }

    fn maybe_exact_keyword(&mut self, keyword: &str) -> (r: Result<bool, WatParserError>)
        requires
            old(self).ready(),
            is_ascii(keyword),
        ensures
            final(self).kept(old(self)),
            match grammar::maybe_exact_keyword(old(self).src(), old(self).tok(), keyword@) {
                Ok((found, t)) => r == Ok::<bool, WatParserError>(found) && final(self).at(t) && (
                !found ==> final(self).lexer@ == old(self).lexer@),
                Err(e) => r == Err::<bool, WatParserError>(e),
            },
    {
        if let WatTokenType::Keyword = *self.current_token_type() {
            if bytes_are(self.current_token_content(), keyword) {
                self.advance()?;
                return Ok(true);
            }
        }
        Ok(false)
    }

    fn expect_exact_keyword(&mut self, keyword: &str) -> (r: Result<(), WatParserError>)
        requires
            old(self).ready(),
            is_ascii(keyword),
        ensures
            final(self).kept(old(self)),
            match grammar::expect_exact_keyword(old(self).src(), old(self).tok(), keyword@) {
                Ok(t) => r is Ok && final(self).at(t),
                Err(e) => r == Err::<(), WatParserError>(e),
            },
    {
        if self.maybe_exact_keyword(keyword)? {
            return Ok(());
        }
        Err(self.create_error(grammar::EXACT_KEYWORD_EXPECTED))
    }

    fn is_keyword(&self) -> (r: bool)
        requires
            self.ready(),
        ensures
            r == (self.tok().ty == WatTokenType::Keyword),
    {
        if let WatTokenType::Keyword = *self.current_token_type() {
            true
        } else {
            false
        }
    }

    fn get_keyword(&self) -> (r: Result<&[u8], WatParserError>)
        requires
            self.ready(),
        ensures
            match grammar::get_keyword(self.src(), self.tok()) {
                Ok(keyword) => r matches Ok(k) && k@ == keyword,
                Err(e) => r matches Err(f) && f == e,
            },
    {
        if self.is_keyword() {
            return Ok(self.current_token_content());
        }
        Err(self.create_error(grammar::KEYWORD_EXPECTED))
    }

    fn is_memarg_flag(&self) -> (r: Result<bool, WatParserError>)
        requires
            self.ready(),
        ensures
            match grammar::get_keyword(self.src(), self.tok()) {
                Ok(keyword) => r == Ok::<bool, WatParserError>(grammar::is_memarg_flag(keyword)),
                Err(e) => r == Err::<bool, WatParserError>(e),
            },
    {
        let content = self.get_keyword()?;
        proof {
            reveal_strlit("offset=");
            reveal_strlit("flags=");
        }
        Ok(
            content.len() > 7 && bytes_start_with(content, "offset=") || content.len() > 6
                && bytes_start_with(content, "flags="),
        )
    }

    fn maybe_id(&mut self) -> (r: Result<OptionalID, WatParserError>)
        requires
            old(self).ready(),
        ensures
            final(self).kept(old(self)),
            match grammar::maybe_id(old(self).src(), old(self).tok()) {
                Ok((id, t)) => r matches Ok(found) && id_view(found) == id && final(self).at(t) && (
                id is None ==> final(self).lexer@ == old(self).lexer@),
                Err(e) => r matches Err(f) && f == e,
            },
    {
        if let WatTokenType::ID = *self.current_token_type() {
            let id = bytes_to_vec(self.current_token_content());
            self.advance()?;
            return Ok(Some(id));
        }
        Ok(None)
    }

    fn read_id(&mut self) -> (r: Result<ID, WatParserError>)
        requires
            old(self).ready(),
        ensures
            final(self).kept(old(self)),
            match grammar::read_id(old(self).src(), old(self).tok()) {
                Ok((id, t)) => r matches Ok(found) && found@ == id && final(self).at(t),
                Err(e) => r matches Err(f) && f == e,
            },
    {
        let id = self.maybe_id()?;
        match id {
            Some(id) => Ok(id),
            None => Err(self.create_error(grammar::ID_EXPECTED)),
        }
    }

    fn read_u32(&mut self) -> (r: Result<u32, WatParserError>)
        requires
            old(self).ready(),
        ensures
            final(self).kept(old(self)),
            match grammar::read_u32(old(self).src(), old(self).tok()) {
                Ok((n, t)) => r == Ok::<u32, WatParserError>(n) && final(self).at(t),
                Err(e) => r == Err::<u32, WatParserError>(e),
            },
    {
        if let WatTokenType::Unsigned = *self.current_token_type() {
            let result = match parse_u32(self.current_token_content()) {
                Some(result) => result,
                None => {
                    return Err(self.create_error(grammar::U32_EXPECTED));
                },
            };
            self.advance()?;
            return Ok(result);
        }
        Err(self.create_error(grammar::U32_EXPECTED))
    }

    fn read_name(&mut self) -> (r: Result<Name, WatParserError>)
        requires
            old(self).ready(),
        ensures
            final(self).kept(old(self)),
            match grammar::read_name(old(self).src(), old(self).tok()) {
                Ok((name, t)) => r matches Ok(found) && found@ == name && final(self).at(t),
                Err(e) => r matches Err(f) && f == e,
            },
    {
        if let WatTokenType::String = *self.current_token_type() {
            let name = match parse_string(self.current_token_content()) {
                Some(name) => name,
                None => {
                    return Err(self.create_error(grammar::BAD_NAME));
                },
            };
            self.advance()?;
            return Ok(name);
        }
        Err(self.create_error(grammar::NAME_EXPECTED))
    }

    fn read_keyword(&mut self) -> (r: Result<Keyword, WatParserError>)
        requires
            old(self).ready(),
        ensures
            final(self).kept(old(self)),
            match grammar::read_keyword(old(self).src(), old(self).tok()) {
                Ok((keyword, t)) => r matches Ok(found) && found@ == keyword && final(self).at(t),
                Err(e) => r matches Err(f) && f == e,
            },
    {
        if let WatTokenType::Keyword = *self.current_token_type() {
            let keyword = bytes_to_vec(self.current_token_content());
            self.advance()?;
            return Ok(keyword);
        }
        Err(self.create_error(grammar::KEYWORD_EXPECTED))
    }

    fn read_limits(&mut self) -> (r: Result<WatLimits, WatParserError>)
        requires
            old(self).ready(),
        ensures
            final(self).kept(old(self)),
            match grammar::read_limits(old(self).src(), old(self).tok()) {
                Ok((limits, t)) => r matches Ok(found) && found == limits && final(self).at(t),
                Err(e) => r matches Err(f) && f == e,
            },
    {
        let min = self.read_u32()?;
        let max = if let WatTokenType::Unsigned = *self.current_token_type() {
            Some(self.read_u32()?)
        } else {
            None
        };
        Ok(WatLimits { min, max })
    }

    fn read_memtype(&mut self) -> (r: Result<WatMemoryType, WatParserError>)
        requires
            old(self).ready(),
        ensures
            final(self).kept(old(self)),
            match grammar::read_memtype(old(self).src(), old(self).tok()) {
                Ok((memtype, t)) => r matches Ok(found) && found == memtype && final(self).at(t),
                Err(e) => r matches Err(f) && f == e,
            },
    {
        if self.maybe_open_paren()? {
            proof {
                reveal_strlit("shared");
            }
            self.expect_exact_keyword("shared")?;
            let limits = self.read_limits()?;
            self.expect_close_paren()?;
            return Ok(WatMemoryType { limits, shared: true });
        }
        let limits = self.read_limits()?;
        Ok(WatMemoryType { limits, shared: false })
    }

    /// Whether what was reached is what the grammar yields. On an error no
    /// more is said than that it is the grammar's.
    spec fn reached(
        &self,
        old: &Self,
        r: Result<(), WatParserError>,
        outcome: Result<Step, WatParserError>,
    ) -> bool {
        &&& self.src() == old.src()
        &&& match outcome {
            Ok(step) => {
                &&& r is Ok
                &&& self.state@ == step.state
                &&& self.at(step.token)
                &&& self.func_depth == step.func_depth
            },
            Err(e) => r == Err::<(), WatParserError>(e),
        }
    }

    fn read_start_module(&mut self) -> (r: Result<(), WatParserError>)
        requires
            old(self).lexer.wf(),
            old(self).lexer@ == LexerView::initial(old(self).src()),
            old(self).func_depth is None,
        ensures
            final(self).reached(old(self), r, grammar::read_start_module(old(self).src())),
    {
        self.advance()?;
        self.expect_open_paren()?;
        proof {
            reveal_strlit("module");
        }
        self.expect_exact_keyword("module")?;
        let id = self.maybe_id()?;
        self.state = WatParserState::StartModule { id };
        Ok(())
    }

    fn read_memory_import(&mut self) -> (r: Result<WatImport, WatParserError>)
        requires
            old(self).ready(),
        ensures
            final(self).kept(old(self)),
            match grammar::read_memory_import(old(self).src(), old(self).tok()) {
                Ok((import, t)) => r matches Ok(found) && found@ == import && final(self).at(t),
                Err(e) => r matches Err(f) && f == e,
            },
    {
        self.advance()?;
        let id = self.maybe_id()?;
        let memtype = self.read_memtype()?;
        Ok(WatImport::Memory { id, memtype })
    }

    /// Reads the description of what is imported.
    fn read_import_description(&mut self) -> (r: Result<WatImport, WatParserError>)
        requires
            old(self).ready(),
        ensures
            final(self).kept(old(self)),
            match grammar::read_import_description(old(self).src(), old(self).tok()) {
                Ok((import, t)) => r matches Ok(found) && found@ == import && final(self).at(t),
                Err(e) => r matches Err(f) && f == e,
            },
    {
        proof {
            reveal_strlit("memory");
        }
        let is_memory = bytes_are(self.get_keyword()?, "memory");
        if !is_memory {
            return Err(self.create_error(grammar::UNKNOWN_IMPORT));
        }
        self.read_memory_import()
    }

    fn read_import(&mut self) -> (r: Result<(), WatParserError>)
        requires
            old(self).ready(),
            old(self).func_depth is None,
        ensures
            final(self).reached(old(self), r, grammar::read_import(old(self).src(), old(self).tok())),
    {
        self.advance()?;
        let modname = self.read_name()?;
        let fieldname = self.read_name()?;
        self.expect_open_paren()?;
        let import = self.read_import_description()?;
        self.expect_close_paren()?;
        self.expect_close_paren()?;
        self.state = WatParserState::Import { modname, fieldname, import };
        Ok(())
    }

    fn read_valtype(&mut self) -> (r: Result<WatValType, WatParserError>)
        requires
            old(self).ready(),
        ensures
            final(self).kept(old(self)),
            match grammar::read_valtype(old(self).src(), old(self).tok()) {
                Ok((valtype, t)) => r matches Ok(found) && found == valtype && final(self).at(t),
                Err(e) => r matches Err(f) && f == e,
            },
    {
        proof {
            reveal_strlit("i32");
            reveal_strlit("i64");
            reveal_strlit("f32");
            reveal_strlit("f64");
        }
        let keyword = self.get_keyword()?;
        let valtype = if bytes_are(keyword, "i32") {
            WatValType::I32
        } else if bytes_are(keyword, "i64") {
            WatValType::I64
        } else if bytes_are(keyword, "f32") {
            WatValType::F32
        } else if bytes_are(keyword, "f64") {
            WatValType::F64
        } else {
            return Err(self.create_error(grammar::UNKNOWN_VALTYPE));
        };
        self.advance()?;
        Ok(valtype)
    }

    /// Reads the inside of a group of parameters, behind its keyword, and
    /// the `)` of the group.
    #[verifier::loop_isolation(false)]
    fn read_param_group(&mut self, params: &mut Vec<WatParam>) -> (r: Result<(), WatParserError>)
        requires
            old(self).ready(),
        ensures
            final(self).kept(old(self)),
            match grammar::param_group(
                old(self).src(),
                old(self).tok(),
                params_view(old(params)@),
            ) {
                Ok((items, t)) => r is Ok && params_view(final(params)@) == items && final(self).at(
                    t,
                ),
                Err(e) => r == Err::<(), WatParserError>(e),
            },
    {
        let ghost src = self.src();
        let param_id = self.maybe_id()?;
        let no_id = param_id.is_none();
        let valtype = self.read_valtype()?;
        let ghost first = params_view(params@).push(
            ParamView { id: id_view(param_id), valtype },
        );
        let ghost t2 = self.tok();
        params.push(WatParam { id: param_id, valtype });
        assert(params_view(params@) =~= first);
        while no_id && self.is_keyword()
            invariant
                self.kept(old(self)),
                self.ready(),
                grammar::more_params(src, t2, first) == grammar::more_params(
                    src,
                    self.tok(),
                    params_view(params@),
                ),
                !no_id ==> self.tok() == t2 && params_view(params@) == first,
            decreases src.len() - self.tok().start.position,
        {
            proof {
                grammar::lemma_advance(src, self.tok());
            }
            let ghost before = params_view(params@);
            let valtype = self.read_valtype()?;
            params.push(WatParam { id: None, valtype });
            assert(params_view(params@) =~= before.push(grammar::anonymous(valtype)));
        }
        self.expect_close_paren()?;
        Ok(())
    }

    /// Reads the inside of a group of locals, behind its keyword, and the
    /// `)` of the group.
    #[verifier::loop_isolation(false)]
    fn read_local_group(&mut self, locals: &mut Vec<WatLocal>) -> (r: Result<(), WatParserError>)
        requires
            old(self).ready(),
        ensures
            final(self).kept(old(self)),
            match grammar::param_group(
                old(self).src(),
                old(self).tok(),
                locals_view(old(locals)@),
            ) {
                Ok((items, t)) => r is Ok && locals_view(final(locals)@) == items && final(self).at(
                    t,
                ),
                Err(e) => r == Err::<(), WatParserError>(e),
            },
    {
        let ghost src = self.src();
        let id = self.maybe_id()?;
        let no_id = id.is_none();
        let valtype = self.read_valtype()?;
        let ghost first = locals_view(locals@).push(ParamView { id: id_view(id), valtype });
        let ghost t2 = self.tok();
        locals.push(WatLocal { id, valtype });
        assert(locals_view(locals@) =~= first);
        while no_id && self.is_keyword()
            invariant
                self.kept(old(self)),
                self.ready(),
                grammar::more_params(src, t2, first) == grammar::more_params(
                    src,
                    self.tok(),
                    locals_view(locals@),
                ),
                !no_id ==> self.tok() == t2 && locals_view(locals@) == first,
            decreases src.len() - self.tok().start.position,
        {
            proof {
                grammar::lemma_advance(src, self.tok());
            }
            let ghost before = locals_view(locals@);
            let valtype = self.read_valtype()?;
            locals.push(WatLocal { id: None, valtype });
            assert(locals_view(locals@) =~= before.push(grammar::anonymous(valtype)));
        }
        self.expect_close_paren()?;
        Ok(())
    }

    /// Reads the inside of a group of results, behind its keyword, and the
    /// `)` of the group.
    #[verifier::loop_isolation(false)]
    fn read_result_group(&mut self, results: &mut Vec<WatResult>) -> (r: Result<
        (),
        WatParserError,
    >)
        requires
            old(self).ready(),
        ensures
            final(self).kept(old(self)),
            match grammar::result_group(
                old(self).src(),
                old(self).tok(),
                results_view(old(results)@),
            ) {
                Ok((items, t)) => {
                    &&& r is Ok
                    &&& results_view(final(results)@) == items
                    &&& final(self).at(t)
                },
                Err(e) => r == Err::<(), WatParserError>(e),
            },
    {
        let ghost src = self.src();
        let valtype = self.read_valtype()?;
        let ghost first = results_view(results@).push(valtype);
        let ghost t1 = self.tok();
        results.push(WatResult { valtype });
        assert(results_view(results@) =~= first);
        while self.is_keyword()
            invariant
                self.kept(old(self)),
                self.ready(),
                grammar::more_results(src, t1, first) == grammar::more_results(
                    src,
                    self.tok(),
                    results_view(results@),
                ),
            decreases src.len() - self.tok().start.position,
        {
            proof {
                grammar::lemma_advance(src, self.tok());
            }
            let ghost before = results_view(results@);
            let valtype = self.read_valtype()?;
            results.push(WatResult { valtype });
            assert(results_view(results@) =~= before.push(valtype));
        }
        self.expect_close_paren()?;
        Ok(())
    }

    /// Reads a signature from behind its first `(`. The flag returned says
    /// whether reading stopped behind a `(` that does not belong to the
    /// signature; a step back then returns it.
    #[verifier::loop_isolation(false)]
    fn read_typeuse_after_open_paren(&mut self) -> (r: Result<(WatTypeuse, bool), WatParserError>)
        requires
            old(self).ready(),
            old(self).lexer@.past_token is Some,
        ensures
            final(self).kept(old(self)),
            match grammar::typeuse_after_open_paren(
                old(self).src(),
                old(self).past(),
                old(self).tok(),
            ) {
                Ok(g) => {
                    &&& r matches Ok((typeuse, keyword_expected))
                    &&& typeuse@ == g.items
                    &&& keyword_expected == g.open
                    &&& final(self).at(g.token)
                    &&& g.open ==> final(self).behind(g.paren)
                },
                Err(e) => r matches Err(f) && f == e,
            },
    {
        let ghost src = self.src();
        let ghost mut paren = self.past();
        proof {
            reveal_strlit("type");
            reveal_strlit("param");
            reveal_strlit("result");
        }
        let mut id = None;
        if self.maybe_exact_keyword("type")? {
            id = self.maybe_id()?;
            if id.is_none() {
                return Err(self.create_error(grammar::TYPEUSE_ID_EXPECTED));
            }
            self.expect_close_paren()?;
            proof {
                paren = self.tok();
            }
            if !self.maybe_open_paren()? {
                let typeuse = WatTypeuse { id, params: Vec::new(), results: Vec::new() };
                assert(params_view(typeuse.params@) =~= Seq::empty());
                assert(results_view(typeuse.results@) =~= Seq::empty());
                return Ok((typeuse, false));
            }
        }
        let ghost first_paren = paren;
        let ghost first = self.tok();
        let mut params: Vec<WatParam> = Vec::new();
        assert(params_view(params@) =~= Seq::empty());
        let mut in_params = true;
        while in_params
            invariant
                self.kept(old(self)),
                self.ready(),
                self.behind(paren),
                grammar::param_groups(src, "param"@, first_paren, first, Seq::empty())
                    == grammar::param_groups(
                    src,
                    "param"@,
                    paren,
                    self.tok(),
                    params_view(params@),
                ),
                !in_params ==> !grammar::is_keyword(src, self.tok(), "param"@),
            decreases
                    src.len() - self.tok().start.position,
                    if in_params {
                        1int
                    } else {
                        0int
                    },
        {
            let ghost tok = self.tok();
            if self.maybe_exact_keyword("param")? {
                proof {
                    grammar::lemma_advance(src, tok);
                    grammar::lemma_param_group(src, self.tok(), params_view(params@));
                }
                self.read_param_group(&mut params)?;
                proof {
                    paren = self.tok();
                    grammar::lemma_advance(src, paren);
                }
                if !self.maybe_open_paren()? {
                    let typeuse = WatTypeuse { id, params, results: Vec::new() };
                    assert(results_view(typeuse.results@) =~= Seq::empty());
                    return Ok((typeuse, false));
                }
            } else {
                in_params = false;
            }
        }
        let ghost first_paren = paren;
        let ghost first = self.tok();
        let mut results: Vec<WatResult> = Vec::new();
        assert(results_view(results@) =~= Seq::empty());
        let mut in_results = true;
        while in_results
            invariant
                self.kept(old(self)),
                self.ready(),
                self.behind(paren),
                grammar::result_groups(src, first_paren, first, Seq::empty())
                    == grammar::result_groups(src, paren, self.tok(), results_view(results@)),
                !in_results ==> !grammar::is_keyword(src, self.tok(), "result"@),
            decreases
                    src.len() - self.tok().start.position,
                    if in_results {
                        1int
                    } else {
                        0int
                    },
        {
            let ghost tok = self.tok();
            if self.maybe_exact_keyword("result")? {
                proof {
                    grammar::lemma_advance(src, tok);
                    grammar::lemma_result_group(src, self.tok(), results_view(results@));
                }
                self.read_result_group(&mut results)?;
                proof {
                    paren = self.tok();
                    grammar::lemma_advance(src, paren);
                }
                if !self.maybe_open_paren()? {
                    return Ok((WatTypeuse { id, params, results }, false));
                }
            } else {
                in_results = false;
            }
        }
        Ok((WatTypeuse { id, params, results }, true))
    }

    /// Reads a signature, if one is there.
    fn read_typeuse(&mut self) -> (r: Result<WatTypeuse, WatParserError>)
        requires
            old(self).ready(),
        ensures
            final(self).kept(old(self)),
            match grammar::read_typeuse(old(self).src(), old(self).tok()) {
                Ok((typeuse, t)) => r matches Ok(found) && found@ == typeuse && final(self).at(t),
                Err(e) => r matches Err(f) && f == e,
            },
    {
        if self.maybe_open_paren()? {
            let (typeuse, keyword_expected) = self.read_typeuse_after_open_paren()?;
            if keyword_expected {
                self.rewind_token();
            }
            return Ok(typeuse);
        }
        Ok(WatTypeuse::empty())
    }

    /// Reads the groups of locals from behind a `(`. The flag returned
    /// says whether reading stopped behind a `(` that begins no group of
    /// locals.
    #[verifier::loop_isolation(false)]
    fn read_locals_after_open_paren(&mut self) -> (r: Result<(Vec<WatLocal>, bool), WatParserError>)
        requires
            old(self).ready(),
            old(self).lexer@.past_token is Some,
        ensures
            final(self).kept(old(self)),
            match grammar::locals_after_open_paren(
                old(self).src(),
                old(self).past(),
                old(self).tok(),
            ) {
                Ok(g) => {
                    &&& r matches Ok((locals, keyword_expected))
                    &&& locals_view(locals@) == g.items
                    &&& keyword_expected == g.open
                    &&& final(self).at(g.token)
                    &&& g.open ==> final(self).behind(g.paren)
                },
                Err(e) => r matches Err(f) && f == e,
            },
    {
        let ghost src = self.src();
        let ghost mut paren = self.past();
        proof {
            reveal_strlit("local");
        }
        let mut locals: Vec<WatLocal> = Vec::new();
        assert(locals_view(locals@) =~= Seq::empty());
        let mut in_locals = true;
        while in_locals
            invariant
                self.kept(old(self)),
                self.ready(),
                self.behind(paren),
                grammar::param_groups(
                    src,
                    "local"@,
                    old(self).past(),
                    old(self).tok(),
                    Seq::empty(),
                ) == grammar::param_groups(src, "local"@, paren, self.tok(), locals_view(locals@)),
                !in_locals ==> !grammar::is_keyword(src, self.tok(), "local"@),
            decreases
                    src.len() - self.tok().start.position,
                    if in_locals {
                        1int
                    } else {
                        0int
                    },
        {
            let ghost tok = self.tok();
            if self.maybe_exact_keyword("local")? {
                proof {
                    grammar::lemma_advance(src, tok);
                    grammar::lemma_param_group(src, self.tok(), locals_view(locals@));
                }
                self.read_local_group(&mut locals)?;
                proof {
                    paren = self.tok();
                    grammar::lemma_advance(src, paren);
                }
                if !self.maybe_open_paren()? {
                    return Ok((locals, false));
                }
            } else {
                in_locals = false;
            }
        }
        Ok((locals, true))
    }

    /// Reads the rest of a function that is imported inline, from behind
    /// `(import`.
    fn read_func_import(&mut self, id: OptionalID) -> (r: Result<(), WatParserError>)
        requires
            old(self).ready(),
        ensures
            final(self).reached(
                old(self),
                r,
                grammar::read_func_import(old(self).src(), id_view(id), old(self).tok()),
            ),
    {
        let modname = self.read_name()?;
        let fieldname = self.read_name()?;
        self.expect_close_paren()?;
        let typeuse = self.read_typeuse()?;
        self.expect_close_paren()?;
        let import = WatImport::Func { id, typeuse };
        self.state = WatParserState::Import { modname, fieldname, import };
        self.func_depth = None;
        Ok(())
    }

    /// Reads signature and locals of a function from behind a `(`.
    fn read_func_header(&mut self, id: OptionalID, export_name: Option<Name>) -> (r: Result<
        (),
        WatParserError,
    >)
        requires
            old(self).ready(),
            old(self).lexer@.past_token is Some,
        ensures
            final(self).reached(
                old(self),
                r,
                grammar::read_func_header(
                    old(self).src(),
                    id_view(id),
                    name_view(export_name),
                    old(self).past(),
                    old(self).tok(),
                ),
            ),
    {
        let (typeuse, keyword_expected) = self.read_typeuse_after_open_paren()?;
        let locals = if keyword_expected {
            let (locals, keyword_expected) = self.read_locals_after_open_paren()?;
            if keyword_expected {
                self.rewind_token();
            }
            locals
        } else {
            let locals: Vec<WatLocal> = Vec::new();
            assert(locals_view(locals@) =~= Seq::empty());
            locals
        };
        self.state = WatParserState::StartFunc { id, export_name, typeuse, locals };
        self.func_depth = Some(0);
        Ok(())
    }

    /// Reads the rest of a function that is exported inline, from behind
    /// `(export`.
    fn read_func_export(&mut self, id: OptionalID) -> (r: Result<(), WatParserError>)
        requires
            old(self).ready(),
        ensures
            final(self).reached(
                old(self),
                r,
                grammar::read_func_export(old(self).src(), id_view(id), old(self).tok()),
            ),
    {
        let name = self.read_name()?;
        self.expect_close_paren()?;
        if !self.maybe_open_paren()? {
            let locals: Vec<WatLocal> = Vec::new();
            assert(locals_view(locals@) =~= Seq::empty());
            self.state = WatParserState::StartFunc {
                id,
                export_name: Some(name),
                typeuse: WatTypeuse::empty(),
                locals,
            };
            self.func_depth = Some(0);
            return Ok(());
        }
        self.read_func_header(id, Some(name))
    }

    /// Reads a function up to its body, or an inline import of one.
    fn read_func(&mut self) -> (r: Result<(), WatParserError>)
        requires
            old(self).ready(),
        ensures
            final(self).reached(old(self), r, grammar::read_func(old(self).src(), old(self).tok())),
    {
        proof {
            reveal_strlit("import");
            reveal_strlit("export");
        }
        self.advance()?;
        let id = self.maybe_id()?;
        if !self.maybe_open_paren()? {
            let locals: Vec<WatLocal> = Vec::new();
            assert(locals_view(locals@) =~= Seq::empty());
            self.state = WatParserState::StartFunc {
                id,
                export_name: None,
                typeuse: WatTypeuse::empty(),
                locals,
            };
            self.func_depth = Some(0);
            return Ok(());
        }
        if self.maybe_exact_keyword("import")? {
            return self.read_func_import(id);
        }
        if self.maybe_exact_keyword("export")? {
            return self.read_func_export(id);
        }
        self.read_func_header(id, None)
    }

    /// Reads a flag of a memory instruction with its value.
    fn read_memarg_flag(&mut self) -> (r: Result<WatInstructionArg, WatParserError>)
        requires
            old(self).ready(),
            grammar::is_memarg_flag(grammar::content(old(self).src(), old(self).tok())),
        ensures
            final(self).kept(old(self)),
            match grammar::read_memarg_flag(old(self).src(), old(self).tok()) {
                Ok((arg, t)) => r matches Ok(found) && found@ == arg && final(self).at(t),
                Err(e) => r matches Err(f) && f == e,
            },
    {
        proof {
            reveal_strlit("offset=");
        }
        let content = self.current_token_content();
        let value = if bytes_start_with(content, "offset=") {
            parse_u32(slice_subrange(content, 7, content.len()))
        } else {
            parse_u32(slice_subrange(content, 6, content.len()))
        };
        let value = match value {
            Some(value) => value,
            None => {
                return Err(self.create_error(grammar::U32_EXPECTED));
            },
        };
        let keyword = bytes_to_vec(content);
        self.advance()?;
        Ok(WatInstructionArg::Flags(keyword, value))
    }

    fn read_arg_id(&mut self) -> (r: Result<WatInstructionArg, WatParserError>)
        requires
            old(self).ready(),
        ensures
            final(self).kept(old(self)),
            match grammar::read_arg_id(old(self).src(), old(self).tok()) {
                Ok((arg, t)) => r matches Ok(found) && found@ == arg && final(self).at(t),
                Err(e) => r matches Err(f) && f == e,
            },
    {
        let id = self.read_id()?;
        Ok(WatInstructionArg::ID(id))
    }

    fn read_arg_signed(&mut self) -> (r: Result<WatInstructionArg, WatParserError>)
        requires
            old(self).ready(),
            old(self).tok().ty == WatTokenType::Signed,
        ensures
            final(self).kept(old(self)),
            match grammar::read_arg_signed(old(self).src(), old(self).tok()) {
                Ok((arg, t)) => r matches Ok(found) && found@ == arg && final(self).at(t),
                Err(e) => r matches Err(f) && f == e,
            },
    {
        proof {
            grammar::lemma_advance(self.src(), self.tok());
        }
        let signed = self.current_token_content();
        let sign = parse_sign(signed);
        let data = match parse_num(slice_subrange(signed, 1, signed.len())) {
            Some(data) => data,
            None => {
                return Err(self.create_error(grammar::BAD_SIGNED));
            },
        };
        self.advance()?;
        Ok(WatInstructionArg::Signed(sign, data))
    }

    fn read_arg_unsigned(&mut self) -> (r: Result<WatInstructionArg, WatParserError>)
        requires
            old(self).ready(),
        ensures
            final(self).kept(old(self)),
            match grammar::read_arg_unsigned(old(self).src(), old(self).tok()) {
                Ok((arg, t)) => r matches Ok(found) && found@ == arg && final(self).at(t),
                Err(e) => r matches Err(f) && f == e,
            },
    {
        let data = match parse_num(self.current_token_content()) {
            Some(data) => data,
            None => {
                return Err(self.create_error(grammar::BAD_UNSIGNED));
            },
        };
        self.advance()?;
        Ok(WatInstructionArg::Unsigned(data))
    }

    fn read_arg_float(&mut self) -> (r: Result<WatInstructionArg, WatParserError>)
        requires
            old(self).ready(),
        ensures
            final(self).kept(old(self)),
            match grammar::read_arg_float(old(self).src(), old(self).tok()) {
                Ok((arg, t)) => r matches Ok(found) && found@ == arg && final(self).at(t),
                Err(e) => r matches Err(f) && f == e,
            },
    {
        let float = match parse_float(self.current_token_content()) {
            Some(float) => float,
            None => {
                return Err(self.create_error(grammar::BAD_FLOAT));
            },
        };
        self.advance()?;
        Ok(WatInstructionArg::Float(float))
    }

    /// Reads the arguments of an instruction.
    #[verifier::loop_isolation(false)]
    fn read_args(&mut self) -> (r: Result<Vec<WatInstructionArg>, WatParserError>)
        requires
            old(self).ready(),
        ensures
            final(self).kept(old(self)),
            match grammar::read_args(old(self).src(), old(self).tok(), Seq::empty()) {
                Ok((args, t)) => r matches Ok(found) && args_view(found@) == args && final(self).at(
                    t,
                ),
                Err(e) => r matches Err(f) && f == e,
            },
    {
        let ghost src = self.src();
        let mut args: Vec<WatInstructionArg> = Vec::new();
        assert(args_view(args@) =~= Seq::empty());
        let mut done = false;
        while !done
            invariant
                self.kept(old(self)),
                self.ready(),
                grammar::read_args(src, old(self).tok(), Seq::empty()) == grammar::read_args(
                    src,
                    self.tok(),
                    args_view(args@),
                ),
                done ==> grammar::ends_arguments(src, self.tok()),
            decreases
                    src.len() - self.tok().start.position,
                    if done {
                        0int
                    } else {
                        1int
                    },
        {
            proof {
                grammar::lemma_advance(src, self.tok());
            }
            let ghost before = args_view(args@);
            match *self.current_token_type() {
                WatTokenType::End | WatTokenType::OpenParen | WatTokenType::CloseParen => {
                    done = true;
                },
                WatTokenType::Keyword => {
                    if self.is_memarg_flag()? {
                        let arg = self.read_memarg_flag()?;
                        args.push(arg);
                        assert(args_view(args@) =~= before.push(arg@));
                    } else {
                        done = true;
                    }
                },
                WatTokenType::ID => {
                    let arg = self.read_arg_id()?;
                    args.push(arg);
                    assert(args_view(args@) =~= before.push(arg@));
                },
                WatTokenType::Signed => {
                    let arg = self.read_arg_signed()?;
                    args.push(arg);
                    assert(args_view(args@) =~= before.push(arg@));
                },
                WatTokenType::Unsigned => {
                    let arg = self.read_arg_unsigned()?;
                    args.push(arg);
                    assert(args_view(args@) =~= before.push(arg@));
                },
                WatTokenType::Float => {
                    let arg = self.read_arg_float()?;
                    args.push(arg);
                    assert(args_view(args@) =~= before.push(arg@));
                },
                _ => {
                    return Err(self.create_error(grammar::UNEXPECTED_ARGUMENT));
                },
            }
        }
        Ok(args)
    }

    /// Reads an instruction with its arguments.
    fn read_instruction(&mut self) -> (r: Result<(), WatParserError>)
        requires
            old(self).ready(),
            old(self).func_depth is Some,
        ensures
            final(self).reached(
                old(self),
                r,
                grammar::read_instruction(
                    old(self).src(),
                    old(self).tok(),
                    old(self).func_depth.unwrap(),
                ),
            ),
    {
        let group = self.maybe_open_paren()?;
        let position = self.current_token().start;
        let instruction = self.read_keyword()?;
        let args = self.read_args()?;
        if group {
            let depth = self.func_depth.unwrap();
            if depth == u32::MAX {
                return Err(self.create_error(grammar::TOO_DEEP));
            }
            self.func_depth = Some(depth + 1);
        }
        self.state = WatParserState::CodeOperator { instruction, args, group, position };
        Ok(())
    }

    /// Reads the next element of a function body.
    fn read_func_body(&mut self) -> (r: Result<(), WatParserError>)
        requires
            old(self).ready(),
            old(self).func_depth is Some,
        ensures
            final(self).reached(
                old(self),
                r,
                grammar::read_func_body(
                    old(self).src(),
                    old(self).tok(),
                    old(self).func_depth.unwrap(),
                ),
            ),
    {
        if self.maybe_close_paren()? {
            let depth = self.func_depth.unwrap();
            if depth == 0 {
                self.state = WatParserState::EndFunc;
                self.func_depth = None;
                return Ok(());
            }
            self.state = WatParserState::CodeOperatorEnd;
            self.func_depth = Some(depth - 1);
            return Ok(());
        }
        self.read_instruction()
    }

    /// Reads the next field of the module, or its end.
    fn read_module_field(&mut self) -> (r: Result<(), WatParserError>)
        requires
            old(self).ready(),
            old(self).func_depth is None,
        ensures
            final(self).reached(
                old(self),
                r,
                grammar::read_module_field(old(self).src(), old(self).tok()),
            ),
    {
        proof {
            reveal_strlit("import");
            reveal_strlit("func");
        }
        if self.maybe_close_paren()? {
            self.state = WatParserState::EndModule;
            return Ok(());
        }
        self.expect_open_paren()?;
        let keyword = self.get_keyword()?;
        if bytes_are(keyword, "import") {
            self.read_import()
        } else if bytes_are(keyword, "func") {
            self.read_func()
        } else {
            Err(self.create_error(grammar::UNKNOWN_FIELD))
        }
    }

    /// Finds the end of the source behind the module.
    fn find_end(&mut self) -> (r: Result<(), WatParserError>)
        requires
            old(self).ready(),
            old(self).func_depth is None,
        ensures
            final(self).reached(old(self), r, grammar::find_end(old(self).tok())),
    {
        if let WatTokenType::End = *self.current_token_type() {
            self.state = WatParserState::End;
            return Ok(());
        }
        Err(self.create_error(grammar::CONTENT_AFTER_MODULE))
    }

    /// Makes one step and reports the event: the new state. The parse is
    /// over when the state is the end or an error; no step is made from
    /// there.
    pub fn parse(&mut self) -> (state: &WatParserState)
        requires
            old(self).wf(),
            !old(self)@.is_terminal(),
        ensures
            final(self).wf(),
            final(self)@ == old(self)@.step(),
            state@ == final(self)@.state,
    {
        proof {
            grammar::lemma_step_keeps_wf(self@);
        }
        let result = match self.state {
            WatParserState::Initial => self.read_start_module(),
            WatParserState::StartModule { .. }
            | WatParserState::EndFunc
            | WatParserState::Import { .. } => self.read_module_field(),
            WatParserState::StartFunc { .. }
            | WatParserState::CodeOperator { .. }
            | WatParserState::CodeOperatorEnd => self.read_func_body(),
            _ => self.find_end(),
        };
        if let Err(e) = result {
            self.state = WatParserState::Error(e);
            self.func_depth = None;
        }
        &self.state
    }
}

} // verus!
