use vstd::prelude::*;

verus! {

/// The kind of a token. The format's brackets are mirrored: `}` opens an
/// object and `{` closes it, `]` opens an array and `[` closes it, `)` opens
/// an expression and `(` closes it.
#[derive(Debug, PartialEq, Eq, Clone)]
pub enum TokenKind {
    OpenObject,
    CloseObject,
    OpenArray,
    CloseArray,
    OpenExpr,
    CloseExpr,
    Colon,
    Comma,
    Symbol(String),
    /// The string's content, escapes resolved.
    StringLiteral(String),
    IntegerLiteral(i64),
    /// The literal's decimal text: digits with exactly one `.`.
    FloatLiteral(String),
    True,
    False,
    Null,
}

/// A token kind as a mathematical value.
pub enum TokenModel {
    OpenObject,
    CloseObject,
    OpenArray,
    CloseArray,
    OpenExpr,
    CloseExpr,
    Colon,
    Comma,
    Symbol(Seq<char>),
    StringLiteral(Seq<char>),
    IntegerLiteral(int),
    FloatLiteral(Seq<char>),
    True,
    False,
    Null,
}

impl View for TokenKind {
    type V = TokenModel;

    open spec fn view(&self) -> TokenModel {
        match self {
            TokenKind::OpenObject => TokenModel::OpenObject,
            TokenKind::CloseObject => TokenModel::CloseObject,
            TokenKind::OpenArray => TokenModel::OpenArray,
            TokenKind::CloseArray => TokenModel::CloseArray,
            TokenKind::OpenExpr => TokenModel::OpenExpr,
            TokenKind::CloseExpr => TokenModel::CloseExpr,
            TokenKind::Colon => TokenModel::Colon,
            TokenKind::Comma => TokenModel::Comma,
            TokenKind::Symbol(s) => TokenModel::Symbol(s@),
            TokenKind::StringLiteral(s) => TokenModel::StringLiteral(s@),
            TokenKind::IntegerLiteral(v) => TokenModel::IntegerLiteral(*v as int),
            TokenKind::FloatLiteral(s) => TokenModel::FloatLiteral(s@),
            TokenKind::True => TokenModel::True,
            TokenKind::False => TokenModel::False,
            TokenKind::Null => TokenModel::Null,
        }
    }
}

/// A token with its raw source text and the 1-based line and column and the
/// byte offset where it starts.
#[derive(Debug, Clone)]
pub struct Token {
    pub kind: TokenKind,
    pub lexem: String,
    pub line: usize,
    pub column: usize,
    pub index: usize,
}

pub type TokenList = Vec<Token>;

/// The kinds of a token sequence.
pub open spec fn kinds(tokens: Seq<Token>) -> Seq<TokenModel> {
    tokens.map_values(|t: Token| t.kind@)
}

} // verus!
