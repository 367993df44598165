use vstd::prelude::*;

use crate::environment::{builtins, Environment};
use crate::expr::{eval_spec, exprs_model, expr_model, AsonExpr, ExprModel};
use crate::host::Host;
use crate::lexer::{
    bytes_of, column_of, line_of, token_fits, tokenize, tokenize_spec, LexErrorKind, MAX_INPUT_CHARS,
};
use crate::number::{decimal, digits, push_decimal, AsonNumber};
use crate::runtime::{EnvModel, RuntimeError};
use crate::text::string_of;
use crate::token::{kinds, Token, TokenKind, TokenList, TokenModel};
use crate::value::{
    same_value, keys_unique, lemma_assoc_insert_unique, assoc_get, assoc_insert, entries_model, insert_member, items_model, model, push_str, AsonValue,
    ValueModel,
};

verus! {

/// What went wrong in a parse.
#[derive(Debug, PartialEq, Eq, Clone, Copy)]
pub enum ParseErrorKind {
    /// A token that cannot stand where it was found.
    UnexpectedToken,
    /// The input ended where a value was expected.
    UnexpectedEnd,
    /// An object, array or expression was not closed.
    MissingClose,
    /// The last element of an expression form is not a symbol.
    MissingCallee,
    /// A symbol in value position that is not bound.
    UndefinedSymbol,
    /// Evaluation of an expression form failed.
    Runtime(RuntimeError),
    /// Tokenization failed.
    Lex(LexErrorKind),
}

/// A fatal error with its message and place: the file identifier and the
/// 1-based line and column.
#[derive(Debug)]
pub struct ParserError {
    pub kind: ParseErrorKind,
    pub msg: String,
    pub file: String,
    pub line: usize,
    pub column: usize,
}

pub type ParserResult<T> = Result<T, ParserError>;

/// The value a literal token stands for.
pub open spec fn literal_model(t: TokenModel) -> Option<ValueModel> {
    match t {
        TokenModel::StringLiteral(s) => Some(ValueModel::Str(s)),
        TokenModel::IntegerLiteral(i) => Some(ValueModel::Integer(i)),
        TokenModel::FloatLiteral(_) => Some(ValueModel::Float),
        TokenModel::True => Some(ValueModel::Boolean(true)),
        TokenModel::False => Some(ValueModel::Boolean(false)),
        TokenModel::Null => Some(ValueModel::Null),
        _ => None,
    }
}

/// The outcome of parsing from a position: the value, the position after it
/// and the environment after it, or an error; `None` where the host decides.
pub type ParseOutcome = Option<Result<(ValueModel, int, EnvModel), ParseErrorKind>>;

/// A value at `pos`.
pub open spec fn parse_value_spec(t: Seq<TokenModel>, pos: int, env: EnvModel) -> ParseOutcome
    decreases t.len() - pos, 0int,
{
    if pos < 0 || pos >= t.len() {
        Some(Err(ParseErrorKind::UnexpectedEnd))
    } else {
        match t[pos] {
            TokenModel::OpenObject => parse_members_spec(t, pos + 1, Seq::empty(), env),
            TokenModel::OpenArray => parse_elements_spec(t, pos + 1, Seq::empty(), env),
            TokenModel::OpenExpr => match expr_body_spec(t, pos + 1) {
                Err(k) => Some(Err(k)),
                Ok((e, p)) => match eval_spec(e, env) {
                    None => None,
                    Some((Ok(v), env2)) => Some(Ok((v, p, env2))),
                    Some((Err(re), _)) => Some(Err(ParseErrorKind::Runtime(re))),
                },
            },
            TokenModel::Symbol(s) => match assoc_get(env, s) {
                Some(v) => Some(Ok((v, pos + 1, env))),
                None => Some(Err(ParseErrorKind::UndefinedSymbol)),
            },
            tok => match literal_model(tok) {
                Some(v) => Some(Ok((v, pos + 1, env))),
                None => Some(Err(ParseErrorKind::UnexpectedToken)),
            },
        }
    }
}

/// Where a member's value starts: after the key, and after a `:` if one
/// follows it.
pub open spec fn member_value_start(t: Seq<TokenModel>, pos: int) -> int {
    if pos + 1 < t.len() && t[pos + 1] is Colon {
        pos + 2
    } else {
        pos + 1
    }
}

/// The members of an object from `pos` on, `acc` read so far: keys and
/// values, commas skipped, up to the closing token. A later key replaces an
/// earlier equal one.
pub open spec fn parse_members_spec(
    t: Seq<TokenModel>,
    pos: int,
    acc: Seq<(Seq<char>, ValueModel)>,
    env: EnvModel,
) -> ParseOutcome
    decreases t.len() - pos, 1int,
{
    if pos < 0 || pos >= t.len() {
        Some(Err(ParseErrorKind::MissingClose))
    } else {
        match t[pos] {
            TokenModel::CloseObject => Some(Ok((ValueModel::Object(acc), pos + 1, env))),
            TokenModel::Comma => parse_members_spec(t, pos + 1, acc, env),
            TokenModel::StringLiteral(k) => match parse_value_spec(t, member_value_start(t, pos), env) {
                None => None,
                Some(Err(e)) => Some(Err(e)),
                Some(Ok((v, p, env2))) => if pos < p <= t.len() {
                    parse_members_spec(t, p, assoc_insert(acc, k, v), env2)
                } else {
                    Some(Err(ParseErrorKind::UnexpectedToken))
                },
            },
            _ => Some(Err(ParseErrorKind::UnexpectedToken)),
        }
    }
}

/// The elements of an array from `pos` on, `acc` read so far, separated by
/// commas or by nothing, up to the closing token.
pub open spec fn parse_elements_spec(t: Seq<TokenModel>, pos: int, acc: Seq<ValueModel>, env: EnvModel) -> ParseOutcome
    decreases t.len() - pos, 1int,
{
    if pos < 0 || pos >= t.len() {
        Some(Err(ParseErrorKind::MissingClose))
    } else {
        match t[pos] {
            TokenModel::CloseArray => Some(Ok((ValueModel::Array(acc), pos + 1, env))),
            TokenModel::Comma => parse_elements_spec(t, pos + 1, acc, env),
            _ => match parse_value_spec(t, pos, env) {
                None => None,
                Some(Err(e)) => Some(Err(e)),
                Some(Ok((v, p, env2))) => if pos < p <= t.len() {
                    parse_elements_spec(t, p, acc.push(v), env2)
                } else {
                    Some(Err(ParseErrorKind::UnexpectedToken))
                },
            },
        }
    }
}

/// The elements of an expression form from `pos` on, and the position past
/// its closing token.
pub open spec fn expr_items_spec(t: Seq<TokenModel>, pos: int) -> Result<(Seq<ExprModel>, int), ParseErrorKind>
    decreases t.len() - pos, 1int,
{
    if pos < 0 || pos >= t.len() {
        Err(ParseErrorKind::MissingClose)
    } else if t[pos] is CloseExpr {
        Ok((Seq::empty(), pos + 1))
    } else {
        let item: Result<(ExprModel, int), ParseErrorKind> = match t[pos] {
            TokenModel::Symbol(s) => Ok((ExprModel::Symbol(s), pos + 1)),
            TokenModel::OpenExpr => expr_body_spec(t, pos + 1),
            tok => match literal_model(tok) {
                Some(v) => Ok((ExprModel::Value(v), pos + 1)),
                None => Err(ParseErrorKind::UnexpectedToken),
            },
        };
        match item {
            Err(k) => Err(k),
            Ok((e, p)) => if pos < p <= t.len() {
                match expr_items_spec(t, p) {
                    Err(k) => Err(k),
                    Ok((rest, q)) => Ok((seq![e] + rest, q)),
                }
            } else {
                Err(ParseErrorKind::UnexpectedToken)
            },
        }
    }
}

/// An expression form whose opening token stands before `pos`: its elements,
/// the last of which names the callee; an empty form is `Empty`.
pub open spec fn expr_body_spec(t: Seq<TokenModel>, pos: int) -> Result<(ExprModel, int), ParseErrorKind>
    decreases t.len() - pos, 2int,
{
    match expr_items_spec(t, pos) {
        Err(k) => Err(k),
        Ok((items, q)) => if items.len() == 0 {
            Ok((ExprModel::Empty, q))
        } else if items.last() is Symbol {
            Ok((ExprModel::Call(items.drop_last(), items.last()->Symbol_0), q))
        } else {
            Err(ParseErrorKind::MissingCallee)
        },
    }
}

/// A whole document: one value, with nothing after it, in a fresh
/// environment.
pub open spec fn parse_document_spec(t: Seq<TokenModel>) -> Option<Result<ValueModel, ParseErrorKind>> {
    match parse_value_spec(t, 0, builtins()) {
        None => None,
        Some(Err(k)) => Some(Err(k)),
        Some(Ok((v, p, _))) => if p == t.len() {
            Some(Ok(v))
        } else {
            Some(Err(ParseErrorKind::UnexpectedToken))
        },
    }
}

/// A whole source text: tokenized, then parsed and evaluated.
pub open spec fn from_text_spec(s: Seq<char>) -> Option<Result<ValueModel, ParseErrorKind>> {
    match tokenize_spec(s) {
        Err(k) => Some(Err(ParseErrorKind::Lex(k))),
        Ok(t) => parse_document_spec(t),
    }
}

pub open spec fn with_items(p: Seq<ExprModel>, r: Result<(Seq<ExprModel>, int), ParseErrorKind>) -> Result<(Seq<ExprModel>, int), ParseErrorKind> {
    match r {
        Ok((items, q)) => Ok((p + items, q)),
        Err(k) => Err(k),
    }
}

proof fn lemma_with_items(p: Seq<ExprModel>, e: ExprModel, r: Result<(Seq<ExprModel>, int), ParseErrorKind>)
    ensures
        with_items(p, with_items(seq![e], r)) == with_items(p.push(e), r),
{
    match r {
        Ok((items, q)) => {
            assert(p + (seq![e] + items) =~= p.push(e) + items);
        },
        Err(_) => {},
    }
}

/// The message for an error of this kind; `detail` is the offending text
/// where there is one.
pub open spec fn message(kind: ParseErrorKind, detail: Seq<char>) -> Seq<char> {
    match kind {
        ParseErrorKind::UnexpectedToken => "Unexpected token: "@ + detail,
        ParseErrorKind::UnexpectedEnd => "Unexpected end of input."@,
        ParseErrorKind::MissingClose => "Missing closing token."@,
        ParseErrorKind::MissingCallee => "The last element of an expression must be a symbol."@,
        ParseErrorKind::UndefinedSymbol => "Undefined symbol: "@ + detail,
        ParseErrorKind::Runtime(e) => match e {
            RuntimeError::NotEnoughArgument { given, expected } => "Not Enough Arguments given, got "@
                + decimal(given as int) + " expected "@ + decimal(expected as int) + "."@,
            RuntimeError::TooMuchArgument { given, expected } => "Too Much Arguments given, got "@
                + decimal(given as int) + " expected "@ + decimal(expected as int) + "."@,
            RuntimeError::UndefinedSymbol => "Undefined Symbol."@,
            RuntimeError::NotAFunction => "Not a function."@,
            RuntimeError::TypeMismatch => "Argument of the wrong type."@,
            RuntimeError::IntegerOverflow => "Integer overflow."@,
            RuntimeError::ReadFailed => "Cannot read the file."@,
        },
        ParseErrorKind::Lex(k) => match k {
            LexErrorKind::UnterminatedString => "Unterminated string literal"@,
            LexErrorKind::DanglingEscape => "Escape at end of string"@,
            LexErrorKind::MultipleDecimalPoints => "Multiple decimal points in number"@,
            LexErrorKind::InvalidInteger => "Invalid integer literal"@,
            LexErrorKind::UnexpectedCharacter(c) => "Unexpected character: "@ + seq![c],
            LexErrorKind::UnexpectedEndOfInput => "Unexpected end of file."@,
        },
    }
}

/// The message for an error of this kind; `detail` is the offending text
/// where there is one.
pub fn describe(kind: ParseErrorKind, detail: &str) -> (r: String)
    ensures
        r@ == message(kind, detail@),
{
    let mut out: Vec<char> = Vec::new();
    match kind {
        ParseErrorKind::UnexpectedToken => {
            push_str(&mut out, "Unexpected token: ");
            push_str(&mut out, detail);
        },
        ParseErrorKind::UnexpectedEnd => push_str(&mut out, "Unexpected end of input."),
        ParseErrorKind::MissingClose => push_str(&mut out, "Missing closing token."),
        ParseErrorKind::MissingCallee => push_str(
            &mut out,
            "The last element of an expression must be a symbol.",
        ),
        ParseErrorKind::UndefinedSymbol => {
            push_str(&mut out, "Undefined symbol: ");
            push_str(&mut out, detail);
        },
        ParseErrorKind::Runtime(e) => match e {
            RuntimeError::NotEnoughArgument { given, expected } => {
                push_str(&mut out, "Not Enough Arguments given, got ");
                push_decimal(given as i64, &mut out);
                push_str(&mut out, " expected ");
                push_decimal(expected as i64, &mut out);
                push_str(&mut out, ".");
            },
            RuntimeError::TooMuchArgument { given, expected } => {
                push_str(&mut out, "Too Much Arguments given, got ");
                push_decimal(given as i64, &mut out);
                push_str(&mut out, " expected ");
                push_decimal(expected as i64, &mut out);
                push_str(&mut out, ".");
            },
            RuntimeError::UndefinedSymbol => push_str(&mut out, "Undefined Symbol."),
            RuntimeError::NotAFunction => push_str(&mut out, "Not a function."),
            RuntimeError::TypeMismatch => push_str(&mut out, "Argument of the wrong type."),
            RuntimeError::IntegerOverflow => push_str(&mut out, "Integer overflow."),
            RuntimeError::ReadFailed => push_str(&mut out, "Cannot read the file."),
        },
        ParseErrorKind::Lex(k) => match k {
            LexErrorKind::UnterminatedString => push_str(&mut out, "Unterminated string literal"),
            LexErrorKind::DanglingEscape => push_str(&mut out, "Escape at end of string"),
            LexErrorKind::MultipleDecimalPoints => push_str(
                &mut out,
                "Multiple decimal points in number",
            ),
            LexErrorKind::InvalidInteger => push_str(&mut out, "Invalid integer literal"),
            LexErrorKind::UnexpectedCharacter(c) => {
                push_str(&mut out, "Unexpected character: ");
                out.push(c);
            },
            LexErrorKind::UnexpectedEndOfInput => push_str(&mut out, "Unexpected end of file."),
        },
    }
    proof {
        assert(out@ =~= message(kind, detail@));
    }
    string_of(out.as_slice())
}

proof fn lemma_members_unique(t: Seq<TokenModel>, pos: int, acc: Seq<(Seq<char>, ValueModel)>, env: EnvModel)
    requires
        keys_unique(acc),
    ensures
        parse_members_spec(t, pos, acc, env) matches Some(Ok((ValueModel::Object(es), _, _)))
            ==> keys_unique(es),
    decreases t.len() - pos,
{
    if 0 <= pos < t.len() {
        match t[pos] {
            TokenModel::Comma => lemma_members_unique(t, pos + 1, acc, env),
            TokenModel::StringLiteral(k) => {
                match parse_value_spec(t, member_value_start(t, pos), env) {
                    Some(Ok((v, p, env2))) => {
                        if pos < p <= t.len() {
                            lemma_assoc_insert_unique(acc, k, v);
                            lemma_members_unique(t, p, assoc_insert(acc, k, v), env2);
                        }
                    },
                    _ => {},
                }
            },
            _ => {},
        }
    }
}

/// Every object the parser builds holds each key once: a repeated key
/// replaces the earlier member.
pub proof fn lemma_parsed_object_keys_unique(t: Seq<TokenModel>, pos: int, env: EnvModel)
    requires
        0 <= pos < t.len(),
        t[pos] is OpenObject,
    ensures
        parse_value_spec(t, pos, env) matches Some(Ok((ValueModel::Object(es), _, _))) ==> keys_unique(es),
{
    lemma_members_unique(t, pos + 1, Seq::empty(), env);
}

impl ParserError {
    /// The error as one line: `Error ./<file>:<line>:<column>: <message>`.
    pub fn render(&self) -> (r: String)
        ensures
            r@ == "Error ./"@ + self.file@ + seq![':'] + digits(self.line as nat) + seq![':'] + digits(
                self.column as nat,
            ) + ": "@ + self.msg@,
    {
        let mut out: Vec<char> = Vec::new();
        push_str(&mut out, "Error ./");
        push_str(&mut out, self.file.as_str());
        out.push(':');
        push_usize(self.line, &mut out);
        out.push(':');
        push_usize(self.column, &mut out);
        push_str(&mut out, ": ");
        push_str(&mut out, self.msg.as_str());
        proof {
            assert(out@ =~= "Error ./"@ + self.file@ + seq![':'] + digits(self.line as nat) + seq![':'] + digits(
                self.column as nat,
            ) + ": "@ + self.msg@);
        }
        string_of(out.as_slice())
    }
}

fn push_usize(n: usize, out: &mut Vec<char>)
    ensures
        final(out)@ == old(out)@ + digits(n as nat),
{
    crate::number::push_digits(n as u64, out);
}

/// A single-pass recursive-descent parser that evaluates expression forms as
/// it meets them.
pub struct Parser {
    tokens: TokenList,
    current: usize,
    env: Environment,
    file: String,
}

impl Parser {
    /// The kinds of the tokens being parsed.
    pub closed spec fn token_kinds(&self) -> Seq<TokenModel> {
        kinds(self.tokens@)
    }

    /// Nothing has been parsed yet and the environment is fresh.
    pub closed spec fn at_start(&self) -> bool {
        self.current == 0 && self.env@ == builtins()
    }

    pub closed spec fn wf(&self) -> bool {
        self.current <= self.tokens@.len()
    }

    /// The identifier of the parsed file, used in errors.
    pub closed spec fn file_name(&self) -> Seq<char> {
        self.file@
    }

    /// The line and column of each token.
    pub closed spec fn token_positions(&self) -> Seq<(usize, usize)> {
        self.tokens@.map_values(|t: Token| (t.line, t.column))
    }

    /// `e` names this parser's file, carries the message of its kind, and
    /// stands at one of the tokens (at line 1, column 1 where there is none).
    pub open spec fn error_fits(&self, e: ParserError) -> bool {
        &&& e.file@ == self.file_name()
        &&& exists|d: Seq<char>| e.msg@ == #[trigger] message(e.kind, d)
        &&& (self.token_positions().len() == 0 && e.line == 1 && e.column == 1) || exists|k: int|
            0 <= k < self.token_positions().len() && #[trigger] self.token_positions()[k] == (
                e.line,
                e.column,
            )
    }

    spec fn value_post(&self, o: ParseOutcome, r: ParserResult<AsonValue>) -> bool {
        match o {
            None => true,
            Some(Ok((v, p, env))) => r is Ok && model(r->Ok_0) == v && self.current == p && self.env@ == env,
            Some(Err(k)) => r is Err && r->Err_0.kind == k,
        }
    }

    pub fn new(tokens: TokenList, file: String) -> (r: Self)
        ensures
            r.wf(),
            r.at_start(),
            r.token_kinds() == kinds(tokens@),
            r.file_name() == file@,
            r.token_positions() == tokens@.map_values(|t: Token| (t.line, t.column)),
    {
        Parser { tokens, file, current: 0, env: Environment::new() }
    }

    /// Parses the whole token sequence as one value.
    pub fn parse<H: Host>(&mut self, host: &mut H) -> (r: ParserResult<AsonValue>)
        requires
            old(self).wf(),
            old(self).at_start(),
        ensures
            match parse_document_spec(old(self).token_kinds()) {
                None => true,
                Some(Ok(v)) => r is Ok && model(r->Ok_0) == v,
                Some(Err(k)) => r is Err && r->Err_0.kind == k,
            },
            r is Err ==> old(self).error_fits(r->Err_0),
    {
        let v = self.parse_value(host)?;
        if self.current < self.tokens.len() {
            return Err(self.report(ParseErrorKind::UnexpectedToken));
        }
        Ok(v)
    }

    /// The error `kind` at the current token.
    fn report(&self, kind: ParseErrorKind) -> (r: ParserError)
        ensures
            r.kind == kind,
            self.error_fits(r),
            self.current < self.tokens@.len() ==> ({
                let tok = self.tokens@[self.current as int];
                &&& r.line == tok.line
                &&& r.column == tok.column
                &&& r.msg@ == message(kind, tok.lexem@)
            }),
    {
        let n = self.tokens.len();
        let (line, column, detail) = if n == 0 {
            (1usize, 1usize, "")
        } else {
            let at = if self.current < n {
                self.current
            } else {
                n - 1
            };
            let tok: &Token = &self.tokens[at];
            (tok.line, tok.column, tok.lexem.as_str())
        };
        let r = ParserError { kind, msg: describe(kind, detail), file: self.file.clone(), line, column };
        proof {
            if n > 0 {
                let at = if self.current < n { self.current as int } else { n - 1 };
                assert(self.token_positions()[at] == (line, column));
            }
        }
        r
    }

    fn parse_value<H: Host>(&mut self, host: &mut H) -> (r: ParserResult<AsonValue>)
        requires
            old(self).wf(),
        ensures
            old(self).current < old(self).tokens@.len() && old(self).tokens@[old(self).current as int].kind is Symbol
                ==> ({
                let tok = old(self).tokens@[old(self).current as int];
                &&& final(self).env == old(self).env
                &&& match old(self).env.binding(tok.kind->Symbol_0@) {
                    Some(v) => r is Ok && same_value(r->Ok_0, v) && final(self).current == old(self).current + 1,
                    None => r is Err && r->Err_0.kind == ParseErrorKind::UndefinedSymbol && r->Err_0.msg@
                        == message(ParseErrorKind::UndefinedSymbol, tok.lexem@) && r->Err_0.line == tok.line
                        && r->Err_0.column == tok.column && r->Err_0.file@ == old(self).file@,
                }
            }),
            final(self).wf(),
            final(self).tokens == old(self).tokens,
            final(self).file == old(self).file,
            r is Err ==> final(self).error_fits(r->Err_0),
            r is Ok ==> final(self).current > old(self).current,
            final(self).value_post(parse_value_spec(old(self).token_kinds(), old(self).current as int, old(self).env@), r),
        decreases old(self).tokens@.len() - old(self).current, 0int,
    {
        if self.current >= self.tokens.len() {
            return Err(self.report(ParseErrorKind::UnexpectedEnd));
        }
        let pos = self.current;
        self.current = self.current + 1;
        match &self.tokens[pos].kind {
            TokenKind::OpenObject => self.parse_object(host),
            TokenKind::OpenArray => self.parse_array(host),
            TokenKind::OpenExpr => self.parse_expr(host),
            TokenKind::StringLiteral(v) => Ok(AsonValue::String(v.clone())),
            TokenKind::IntegerLiteral(v) => Ok(AsonValue::Number(AsonNumber::Integer(*v))),
            TokenKind::FloatLiteral(text) => Ok(
                AsonValue::Number(AsonNumber::Float(host.float_from_decimal(text.as_str()))),
            ),
            TokenKind::True => Ok(AsonValue::Boolean(true)),
            TokenKind::False => Ok(AsonValue::Boolean(false)),
            TokenKind::Null => Ok(AsonValue::Null),
            TokenKind::Symbol(id) => {
                match self.env.lookup(id.as_str()) {
                    Some(value) => Ok(value.deep_clone()),
                    None => {
                        self.current = pos;
                        Err(self.report(ParseErrorKind::UndefinedSymbol))
                    },
                }
            },
            _ => {
                self.current = pos;
                Err(self.report(ParseErrorKind::UnexpectedToken))
            },
        }
    }
}

impl Parser {
    /// The members of an object whose opening token was just consumed.
    fn parse_object<H: Host>(&mut self, host: &mut H) -> (r: ParserResult<AsonValue>)
        requires
            old(self).wf(),
        ensures
            final(self).wf(),
            final(self).tokens == old(self).tokens,
            final(self).file == old(self).file,
            r is Err ==> final(self).error_fits(r->Err_0),
            r is Ok ==> final(self).current > old(self).current,
            final(self).value_post(
                parse_members_spec(old(self).token_kinds(), old(self).current as int, Seq::empty(), old(self).env@),
                r,
            ),
        decreases old(self).tokens@.len() - old(self).current, 1int,
    {
        let ghost t = kinds(self.tokens@);
        let ghost start = self.current as int;
        let ghost env0 = self.env@;
        let mut members: Vec<(String, AsonValue)> = Vec::new();
        let ghost mut known = true;
        proof {
            assert(entries_model(members@) =~= Seq::<(Seq<char>, ValueModel)>::empty());
        }
        loop
            invariant
                self.wf(),
                self.tokens == old(self).tokens,
                self.file == old(self).file,
                t == kinds(self.tokens@),
                start == old(self).current,
                env0 == old(self).env@,
                start <= self.current,
                known ==> parse_members_spec(t, start, Seq::empty(), env0) == parse_members_spec(
                    t,
                    self.current as int,
                    entries_model(members@),
                    self.env@,
                ),
                !known ==> parse_members_spec(t, start, Seq::empty(), env0) is None,
            decreases self.tokens@.len() - self.current,
        {
            if self.current >= self.tokens.len() {
                return Err(self.report(ParseErrorKind::MissingClose));
            }
            let pos = self.current;
            match &self.tokens[pos].kind {
                TokenKind::CloseObject => {
                    self.current = pos + 1;
                    return Ok(AsonValue::Object(members));
                },
                TokenKind::Comma => {
                    self.current = pos + 1;
                },
                TokenKind::StringLiteral(k) => {
                    let key = k.clone();
                    self.current = pos + 1;
                    if self.current < self.tokens.len() && matches!(self.tokens[self.current].kind, TokenKind::Colon) {
                        self.current = self.current + 1;
                    }
                    let ghost o = parse_value_spec(t, self.current as int, self.env@);
                    let value = match self.parse_value(host) {
                        Ok(v) => v,
                        Err(e) => {
                            return Err(e);
                        },
                    };
                    proof {
                        if o is None {
                            known = false;
                        }
                    }
                    insert_member(&mut members, key, value);
                },
                _ => {
                    return Err(self.report(ParseErrorKind::UnexpectedToken));
                },
            }
        }
    }

    /// The elements of an array whose opening token was just consumed.
    fn parse_array<H: Host>(&mut self, host: &mut H) -> (r: ParserResult<AsonValue>)
        requires
            old(self).wf(),
        ensures
            final(self).wf(),
            final(self).tokens == old(self).tokens,
            final(self).file == old(self).file,
            r is Err ==> final(self).error_fits(r->Err_0),
            r is Ok ==> final(self).current > old(self).current,
            final(self).value_post(
                parse_elements_spec(old(self).token_kinds(), old(self).current as int, Seq::empty(), old(self).env@),
                r,
            ),
        decreases old(self).tokens@.len() - old(self).current, 1int,
    {
        let ghost t = kinds(self.tokens@);
        let ghost start = self.current as int;
        let ghost env0 = self.env@;
        let mut elements: Vec<AsonValue> = Vec::new();
        let ghost mut known = true;
        proof {
            assert(items_model(elements@) =~= Seq::<ValueModel>::empty());
        }
        loop
            invariant
                self.wf(),
                self.tokens == old(self).tokens,
                self.file == old(self).file,
                t == kinds(self.tokens@),
                start == old(self).current,
                env0 == old(self).env@,
                start <= self.current,
                known ==> parse_elements_spec(t, start, Seq::empty(), env0) == parse_elements_spec(
                    t,
                    self.current as int,
                    items_model(elements@),
                    self.env@,
                ),
                !known ==> parse_elements_spec(t, start, Seq::empty(), env0) is None,
            decreases self.tokens@.len() - self.current,
        {
            if self.current >= self.tokens.len() {
                return Err(self.report(ParseErrorKind::MissingClose));
            }
            let pos = self.current;
            match &self.tokens[pos].kind {
                TokenKind::CloseArray => {
                    self.current = pos + 1;
                    return Ok(AsonValue::Array(elements));
                },
                TokenKind::Comma => {
                    self.current = pos + 1;
                },
                _ => {
                    let ghost o = parse_value_spec(t, self.current as int, self.env@);
                    let value = match self.parse_value(host) {
                        Ok(v) => v,
                        Err(e) => {
                            return Err(e);
                        },
                    };
                    proof {
                        if o is None {
                            known = false;
                        }
                    }
                    let ghost old_elements = elements@;
                    elements.push(value);
                    proof {
                        assert(elements@.drop_last() =~= old_elements);
                    }
                },
            }
        }
    }

    /// An expression form whose opening token was just consumed, evaluated.
    fn parse_expr<H: Host>(&mut self, host: &mut H) -> (r: ParserResult<AsonValue>)
        requires
            old(self).wf(),
            old(self).current >= 1,
            old(self).token_kinds()[old(self).current - 1] is OpenExpr,
        ensures
            final(self).wf(),
            final(self).tokens == old(self).tokens,
            final(self).file == old(self).file,
            r is Err ==> final(self).error_fits(r->Err_0),
            r is Ok ==> final(self).current > old(self).current,
            final(self).value_post(
                parse_value_spec(old(self).token_kinds(), old(self).current - 1, old(self).env@),
                r,
            ),
        decreases old(self).tokens@.len() - old(self).current, 1int,
    {
        let expr = self.parse_expr_s(host)?;
        match expr.eval(&mut self.env, host) {
            Ok(v) => Ok(v),
            Err(e) => Err(self.report(ParseErrorKind::Runtime(e))),
        }
    }

    /// Builds the expression form whose opening token was just consumed.
    fn parse_expr_s<H: Host>(&mut self, host: &mut H) -> (r: ParserResult<AsonExpr>)
        requires
            old(self).wf(),
        ensures
            final(self).wf(),
            final(self).tokens == old(self).tokens,
            final(self).env == old(self).env,
            final(self).file == old(self).file,
            r is Err ==> final(self).error_fits(r->Err_0),
            r is Ok ==> final(self).current > old(self).current,
            match expr_body_spec(old(self).token_kinds(), old(self).current as int) {
                Ok((e, q)) => r is Ok && expr_model(r->Ok_0) == e && final(self).current == q,
                Err(k) => r is Err && r->Err_0.kind == k,
            },
        decreases old(self).tokens@.len() - old(self).current, 3int,
    {
        let ghost t = kinds(self.tokens@);
        let ghost start = self.current as int;
        let mut params: Vec<AsonExpr> = Vec::new();
        proof {
            assert(exprs_model(params@) =~= Seq::<ExprModel>::empty());
            assert(with_items(Seq::empty(), expr_items_spec(t, start)) == expr_items_spec(t, start)) by {
                match expr_items_spec(t, start) {
                    Ok((items, q)) => {
                        assert(Seq::<ExprModel>::empty() + items =~= items);
                    },
                    Err(_) => {},
                }
            }
        }
        loop
            invariant_except_break
                expr_items_spec(t, start) == with_items(exprs_model(params@), expr_items_spec(t, self.current as int)),
            invariant
                self.wf(),
                self.tokens == old(self).tokens,
                self.file == old(self).file,
                self.env == old(self).env,
                t == kinds(self.tokens@),
                start == old(self).current,
                start <= self.current,
            ensures
                expr_items_spec(t, start) == Ok::<(Seq<ExprModel>, int), ParseErrorKind>((exprs_model(params@), self.current as int)),
                self.current > start,
            decreases self.tokens@.len() - self.current,
        {
            if self.current >= self.tokens.len() {
                return Err(self.report(ParseErrorKind::MissingClose));
            }
            let pos = self.current;
            let item = match &self.tokens[pos].kind {
                TokenKind::CloseExpr => {
                    self.current = pos + 1;
                    proof {
                        assert(exprs_model(params@) + Seq::<ExprModel>::empty() =~= exprs_model(params@));
                    }
                    break;
                },
                TokenKind::Symbol(v) => {
                    self.current = pos + 1;
                    AsonExpr::Symbol(v.clone())
                },
                TokenKind::OpenExpr => {
                    self.current = pos + 1;
                    self.parse_expr_s(host)?
                },
                TokenKind::IntegerLiteral(v) => {
                    self.current = pos + 1;
                    AsonExpr::Value(AsonValue::Number(AsonNumber::Integer(*v)))
                },
                TokenKind::FloatLiteral(text) => {
                    self.current = pos + 1;
                    AsonExpr::Value(
                        AsonValue::Number(AsonNumber::Float(host.float_from_decimal(text.as_str()))),
                    )
                },
                TokenKind::StringLiteral(v) => {
                    self.current = pos + 1;
                    AsonExpr::Value(AsonValue::String(v.clone()))
                },
                TokenKind::True => {
                    self.current = pos + 1;
                    AsonExpr::Value(AsonValue::Boolean(true))
                },
                TokenKind::False => {
                    self.current = pos + 1;
                    AsonExpr::Value(AsonValue::Boolean(false))
                },
                TokenKind::Null => {
                    self.current = pos + 1;
                    AsonExpr::Value(AsonValue::Null)
                },
                _ => {
                    return Err(self.report(ParseErrorKind::UnexpectedToken));
                },
            };
            proof {
                lemma_with_items(exprs_model(params@), expr_model(item), expr_items_spec(t, self.current as int));
            }
            let ghost old_params = params@;
            params.push(item);
            proof {
                assert(params@.drop_last() =~= old_params);
            }
        }
        let ghost all = exprs_model(params@);
        let ghost before_pop = params@;
        proof {
            crate::expr::lemma_exprs_model(before_pop);
            if before_pop.len() > 0 {
                assert(all.drop_last() =~= exprs_model(before_pop.drop_last()));
            }
        }
        match params.pop() {
            None => Ok(AsonExpr::Empty),
            Some(AsonExpr::Symbol(callee)) => {
                Ok(AsonExpr::ExprS(params, callee))
            },
            Some(_) => Err(self.report(ParseErrorKind::MissingCallee)),
        }
    }
}

impl AsonValue {
    /// Parses and evaluates a whole source text; `file` names it in errors.
    pub fn from_ason_string<H: Host>(s: &str, file: &str, host: &mut H) -> (r: ParserResult<AsonValue>)
        requires
            s@.len() <= MAX_INPUT_CHARS,
        ensures
            match from_text_spec(s@) {
                None => true,
                Some(Ok(v)) => r is Ok && model(r->Ok_0) == v,
                Some(Err(k)) => r is Err && r->Err_0.kind == k,
            },
            r is Err ==> r->Err_0.file@ == file@ && exists|d: Seq<char>|
                r->Err_0.msg@ == #[trigger] message(r->Err_0.kind, d),
            r is Err ==> (r->Err_0.line == 1 && r->Err_0.column == 1) || exists|p: int|
                0 <= p <= s@.len() && r->Err_0.line == line_of(#[trigger] s@.subrange(0, p))
                    && r->Err_0.column == column_of(s@.subrange(0, p)),
    {
        match tokenize(s) {
            Err(e) => {
                proof {
                    crate::lexer::lemma_error_position(s@, 0);
                    let p = crate::lexer::error_position(s@, 0);
                    assert(0 <= p <= s@.len() && e.line == line_of(s@.subrange(0, p)));
                }
                let kind = ParseErrorKind::Lex(e.kind);
                Err(
                    ParserError {
                        kind,
                        msg: describe(kind, ""),
                        file: file.to_owned(),
                        line: e.line,
                        column: e.column,
                    },
                )
            },
            Ok(tokens) => {
                let ghost ts = tokens@;
                let mut parser = Parser::new(tokens, file.to_owned());
                let ghost positions = parser.token_positions();
                let r = parser.parse(host);
                proof {
                    if r is Err {
                        let e = r->Err_0;
                        if !(e.line == 1 && e.column == 1) {
                            let k = choose|k: int|
                                0 <= k < positions.len() && #[trigger] positions[k] == (e.line, e.column);
                            assert(positions[k] == (ts[k].line, ts[k].column));
                            assert(token_fits(s@, ts[k]));
                            let (a, b) = choose|a: int, b: int|
                                0 <= a < b <= s@.len() && ts[k].lexem@ == #[trigger] s@.subrange(a, b)
                                    && ts[k].line == line_of(s@.subrange(0, a)) && ts[k].column == column_of(
                                    s@.subrange(0, a),
                                ) && ts[k].index == bytes_of(s@.subrange(0, a));
                            assert(e.line == line_of(s@.subrange(0, a)));
                        }
                    }
                }
                r
            },
        }
    }
}

} // verus!
