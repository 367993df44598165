use vstd::prelude::*;

use crate::text::{chars_of, string_of, string_of_range};
use crate::token::{kinds, Token, TokenKind, TokenList, TokenModel};

verus! {

/// Inputs longer than this many characters are not accepted: byte offsets
/// must fit in `usize`.
pub const MAX_INPUT_CHARS: usize = usize::MAX / 8;

pub open spec fn spec_is_digit(c: char) -> bool {
    '0' <= c && c <= '9'
}

/// Characters that may start a symbol; digits may follow them.
pub open spec fn spec_is_symbol(c: char) -> bool {
    ||| ('A' <= c && c <= 'Z')
    ||| ('a' <= c && c <= 'z')
    ||| c == '_' || c == '$' || c == '+' || c == '=' || c == '-' || c == '*'
    ||| c == '/' || c == '%' || c == '!' || c == '?' || c == '<' || c == '>'
}

/// Unicode's White_Space property.
pub open spec fn spec_is_whitespace(c: char) -> bool {
    ||| ('\t' <= c && c <= '\r')
    ||| c == ' ' || c == '\u{85}' || c == '\u{a0}' || c == '\u{1680}'
    ||| ('\u{2000}' <= c && c <= '\u{200a}')
    ||| c == '\u{2028}' || c == '\u{2029}' || c == '\u{202f}' || c == '\u{205f}'
    ||| c == '\u{3000}'
}

/// Bytes of `c` in UTF-8.
pub open spec fn spec_len_utf8(c: char) -> nat {
    if (c as u32) < 0x80 {
        1
    } else if (c as u32) < 0x800 {
        2
    } else if (c as u32) < 0x10000 {
        3
    } else {
        4
    }
}

/// The errors of tokenization.
#[derive(Debug, PartialEq, Eq, Clone, Copy)]
pub enum LexErrorKind {
    UnterminatedString,
    DanglingEscape,
    MultipleDecimalPoints,
    InvalidInteger,
    UnexpectedCharacter(char),
    UnexpectedEndOfInput,
}

/// A tokenization error, with the 1-based line and column where it arose.
#[derive(Debug, PartialEq, Eq, Clone, Copy)]
pub struct LexError {
    pub kind: LexErrorKind,
    pub line: usize,
    pub column: usize,
}

/// End of the run of whitespace that starts at `i`.
pub open spec fn whitespace_end(s: Seq<char>, i: int) -> int
    decreases s.len() - i,
{
    if 0 <= i < s.len() && spec_is_whitespace(s[i]) {
        whitespace_end(s, i + 1)
    } else {
        i
    }
}

/// End of the run of symbol characters and digits that starts at `i`.
pub open spec fn symbol_end(s: Seq<char>, i: int) -> int
    decreases s.len() - i,
{
    if 0 <= i < s.len() && (spec_is_symbol(s[i]) || spec_is_digit(s[i])) {
        symbol_end(s, i + 1)
    } else {
        i
    }
}

/// End of the run of digits and `.` that starts at `i`.
pub open spec fn number_end(s: Seq<char>, i: int) -> int
    decreases s.len() - i,
{
    if 0 <= i < s.len() && (spec_is_digit(s[i]) || s[i] == '.') {
        number_end(s, i + 1)
    } else {
        i
    }
}

/// Index just past the end of the line that holds `i` (past its `\n`, if any).
pub open spec fn line_end(s: Seq<char>, i: int) -> int
    decreases s.len() - i,
{
    if 0 <= i < s.len() {
        if s[i] == '\n' {
            i + 1
        } else {
            line_end(s, i + 1)
        }
    } else {
        i
    }
}

pub open spec fn count_dots(q: Seq<char>) -> nat
    decreases q.len(),
{
    if q.len() == 0 {
        0
    } else {
        count_dots(q.drop_last()) + if q.last() == '.' { 1nat } else { 0nat }
    }
}

/// The value of a run of decimal digits.
pub open spec fn digits_value(q: Seq<char>) -> nat
    decreases q.len(),
{
    if q.len() == 0 {
        0
    } else {
        digits_value(q.drop_last()) * 10 + ((q.last() as nat) - ('0' as nat)) as nat
    }
}

/// What an escape sequence `/c` stands for inside a string literal.
pub open spec fn unescape(c: char) -> char {
    if c == 'n' {
        '\n'
    } else if c == 'r' {
        '\r'
    } else if c == 't' {
        '\t'
    } else {
        c
    }
}

/// The body of a string literal from `i` (just past the opening quote): its
/// content and the index just past the closing quote.
pub open spec fn string_body(s: Seq<char>, i: int) -> Result<(Seq<char>, int), LexErrorKind>
    decreases s.len() - i,
{
    if i < 0 || i >= s.len() {
        Err(LexErrorKind::UnterminatedString)
    } else if s[i] == '"' {
        Ok((Seq::empty(), i + 1))
    } else if s[i] == '/' {
        if i + 1 >= s.len() {
            Err(LexErrorKind::DanglingEscape)
        } else {
            match string_body(s, i + 2) {
                Ok((c, e)) => Ok((seq![unescape(s[i + 1])] + c, e)),
                Err(k) => Err(k),
            }
        }
    } else {
        match string_body(s, i + 1) {
            Ok((c, e)) => Ok((seq![s[i]] + c, e)),
            Err(k) => Err(k),
        }
    }
}

/// The token kind of the symbol text `w`: a keyword or a symbol.
pub open spec fn word_token(w: Seq<char>) -> TokenModel {
    if w == seq!['t', 'r', 'u', 'e'] {
        TokenModel::True
    } else if w == seq!['f', 'a', 'l', 's', 'e'] {
        TokenModel::False
    } else if w == seq!['n', 'u', 'l', 'l'] {
        TokenModel::Null
    } else {
        TokenModel::Symbol(w)
    }
}

/// The number literal at `i`, which is a digit.
pub open spec fn number_token(s: Seq<char>, i: int) -> Result<(Option<TokenModel>, int), LexErrorKind> {
    let e = number_end(s, i);
    let text = s.subrange(i, e);
    if count_dots(text) > 1 {
        Err(LexErrorKind::MultipleDecimalPoints)
    } else if count_dots(text) == 1 {
        Ok((Some(TokenModel::FloatLiteral(text)), e))
    } else if digits_value(text) > i64::MAX {
        Err(LexErrorKind::InvalidInteger)
    } else {
        Ok((Some(TokenModel::IntegerLiteral(digits_value(text) as int)), e))
    }
}

/// The comment at `i`, which is a `\`: a second `\` must follow, and the
/// comment runs to the end of the line.
pub open spec fn comment_token(s: Seq<char>, i: int) -> Result<(Option<TokenModel>, int), LexErrorKind> {
    if i + 1 >= s.len() {
        Err(LexErrorKind::UnexpectedEndOfInput)
    } else if s[i + 1] != '\\' {
        Err(LexErrorKind::UnexpectedCharacter(s[i + 1]))
    } else {
        Ok((None, line_end(s, i + 2)))
    }
}

pub open spec fn punctuation(c: char) -> Option<TokenModel> {
    if c == '}' {
        Some(TokenModel::OpenObject)
    } else if c == '{' {
        Some(TokenModel::CloseObject)
    } else if c == ']' {
        Some(TokenModel::OpenArray)
    } else if c == '[' {
        Some(TokenModel::CloseArray)
    } else if c == ')' {
        Some(TokenModel::OpenExpr)
    } else if c == '(' {
        Some(TokenModel::CloseExpr)
    } else if c == ':' {
        Some(TokenModel::Colon)
    } else if c == ',' {
        Some(TokenModel::Comma)
    } else {
        None
    }
}

/// One step of tokenization at `i < s.len()`: the token read there, if any
/// (whitespace and comments give none), and where the next step starts.
pub open spec fn next_token(s: Seq<char>, i: int) -> Result<(Option<TokenModel>, int), LexErrorKind> {
    let c = s[i];
    if spec_is_whitespace(c) {
        Ok((None, whitespace_end(s, i)))
    } else if punctuation(c) is Some {
        Ok((punctuation(c), i + 1))
    } else if c == '\\' {
        comment_token(s, i)
    } else if c == '"' {
        match string_body(s, i + 1) {
            Ok((content, e)) => Ok((Some(TokenModel::StringLiteral(content)), e)),
            Err(k) => Err(k),
        }
    } else if spec_is_digit(c) {
        number_token(s, i)
    } else if spec_is_symbol(c) {
        Ok((Some(word_token(s.subrange(i, symbol_end(s, i)))), symbol_end(s, i)))
    } else {
        Err(LexErrorKind::UnexpectedCharacter(c))
    }
}

pub open spec fn option_seq(t: Option<TokenModel>) -> Seq<TokenModel> {
    match t {
        Some(k) => seq![k],
        None => Seq::empty(),
    }
}

/// `head` followed by what `rest` holds, or the error of `rest`.
pub open spec fn prefixed(head: Seq<TokenModel>, rest: Result<Seq<TokenModel>, LexErrorKind>) -> Result<Seq<TokenModel>, LexErrorKind> {
    match rest {
        Ok(r) => Ok(head + r),
        Err(k) => Err(k),
    }
}

/// The tokens of `s` from index `i` on, or the first error.
pub open spec fn tokens_from(s: Seq<char>, i: int) -> Result<Seq<TokenModel>, LexErrorKind>
    decreases s.len() - i,
{
    if i < 0 || i >= s.len() {
        Ok(Seq::empty())
    } else {
        match next_token(s, i) {
            Err(k) => Err(k),
            Ok((t, j)) => if i < j <= s.len() {
                prefixed(option_seq(t), tokens_from(s, j))
            } else {
                Ok(Seq::empty())
            },
        }
    }
}

/// The tokens read from index `i` on before the first error, if any.
pub open spec fn tokens_read(s: Seq<char>, i: int) -> Seq<TokenModel>
    decreases s.len() - i,
{
    if i < 0 || i >= s.len() {
        Seq::empty()
    } else {
        match next_token(s, i) {
            Err(_) => Seq::empty(),
            Ok((t, j)) => if i < j <= s.len() {
                option_seq(t) + tokens_read(s, j)
            } else {
                Seq::empty()
            },
        }
    }
}

/// The token kinds of a whole text, or the first error.
pub open spec fn tokenize_spec(s: Seq<char>) -> Result<Seq<TokenModel>, LexErrorKind> {
    tokens_from(s, 0)
}

} // verus!

verus! {

pub fn is_digit(c: char) -> (r: bool)
    ensures
        r == spec_is_digit(c),
{
    '0' <= c && c <= '9'
}

pub fn is_symbol(c: char) -> (r: bool)
    ensures
        r == spec_is_symbol(c),
{
    ('A' <= c && c <= 'Z') || ('a' <= c && c <= 'z') || c == '_' || c == '$' || c == '+' || c
        == '=' || c == '-' || c == '*' || c == '/' || c == '%' || c == '!' || c == '?' || c == '<'
        || c == '>'
}

pub fn is_whitespace(c: char) -> (r: bool)
    ensures
        r == spec_is_whitespace(c),
{
    ('\t' <= c && c <= '\r') || c == ' ' || c == '\u{85}' || c == '\u{a0}' || c == '\u{1680}' || (
    '\u{2000}' <= c && c <= '\u{200a}') || c == '\u{2028}' || c == '\u{2029}' || c == '\u{202f}'
        || c == '\u{205f}' || c == '\u{3000}'
}

fn len_utf8(c: char) -> (r: usize)
    ensures
        r == spec_len_utf8(c),
        1 <= r <= 4,
{
    let u = c as u32;
    if u < 0x80 {
        1
    } else if u < 0x800 {
        2
    } else if u < 0x10000 {
        3
    } else {
        4
    }
}

fn unescape_char(c: char) -> (r: char)
    ensures
        r == unescape(c),
{
    if c == 'n' {
        '\n'
    } else if c == 'r' {
        '\r'
    } else if c == 't' {
        '\t'
    } else {
        c
    }
}

pub open spec fn with_prefix(p: Seq<char>, r: Result<(Seq<char>, int), LexErrorKind>) -> Result<(Seq<char>, int), LexErrorKind> {
    match r {
        Ok((c, e)) => Ok((p + c, e)),
        Err(k) => Err(k),
    }
}

proof fn lemma_with_prefix(p: Seq<char>, q: Seq<char>, r: Result<(Seq<char>, int), LexErrorKind>)
    ensures
        with_prefix(p, with_prefix(q, r)) == with_prefix(p + q, r),
{
    match r {
        Ok((c, e)) => {
            assert(p + (q + c) =~= (p + q) + c);
        },
        Err(_) => {},
    }
}

proof fn lemma_prefixed(p: Seq<TokenModel>, q: Seq<TokenModel>, r: Result<Seq<TokenModel>, LexErrorKind>)
    ensures
        prefixed(p, prefixed(q, r)) == prefixed(p + q, r),
{
    match r {
        Ok(c) => {
            assert(p + (q + c) =~= (p + q) + c);
        },
        Err(_) => {},
    }
}

proof fn lemma_count_dots_prefix(q: Seq<char>, j: int)
    requires
        0 <= j <= q.len(),
    ensures
        count_dots(q.subrange(0, j)) <= count_dots(q),
    decreases q.len(),
{
    if j < q.len() {
        lemma_count_dots_prefix(q.drop_last(), j);
        assert(q.drop_last().subrange(0, j) =~= q.subrange(0, j));
    } else {
        assert(q.subrange(0, j) =~= q);
    }
}

proof fn lemma_digits_value_prefix(q: Seq<char>, j: int)
    requires
        0 <= j <= q.len(),
    ensures
        digits_value(q.subrange(0, j)) <= digits_value(q),
    decreases q.len(),
{
    if j < q.len() {
        lemma_digits_value_prefix(q.drop_last(), j);
        assert(q.drop_last().subrange(0, j) =~= q.subrange(0, j));
    } else {
        assert(q.subrange(0, j) =~= q);
    }
}

proof fn lemma_extend(s: Seq<char>, start: int, pos: int)
    requires
        0 <= start <= pos < s.len(),
    ensures
        s.subrange(start, pos + 1).drop_last() == s.subrange(start, pos),
        s.subrange(start, pos + 1).last() == s[pos],
{
    assert(s.subrange(start, pos + 1).drop_last() =~= s.subrange(start, pos));
}

proof fn lemma_prefix_of_run(s: Seq<char>, start: int, mid: int, end: int)
    requires
        0 <= start <= mid <= end <= s.len(),
    ensures
        s.subrange(start, end).subrange(0, mid - start) == s.subrange(start, mid),
{
    assert(s.subrange(start, end).subrange(0, mid - start) =~= s.subrange(start, mid));
}

proof fn lemma_number_end_bounds(s: Seq<char>, i: int)
    ensures
        number_end(s, i) >= i,
        0 <= i <= s.len() ==> number_end(s, i) <= s.len(),
    decreases s.len() - i,
{
    if 0 <= i < s.len() && (spec_is_digit(s[i]) || s[i] == '.') {
        lemma_number_end_bounds(s, i + 1);
    }
}

/// Reads the decimal digits `v[start..end]` as an `i64`; `None` where the
/// value does not fit.
fn parse_integer(v: &Vec<char>, start: usize, end: usize) -> (r: Option<i64>)
    requires
        start <= end <= v@.len(),
        forall|k: int| start <= k < end ==> spec_is_digit(#[trigger] v@[k]),
    ensures
        match r {
            Some(x) => x as int == digits_value(v@.subrange(start as int, end as int)),
            None => digits_value(v@.subrange(start as int, end as int)) > i64::MAX,
        },
{
    let mut value: i64 = 0;
    let mut k: usize = start;
    proof {
        assert(v@.subrange(start as int, start as int) =~= Seq::<char>::empty());
    }
    while k < end
        invariant
            start <= k <= end <= v@.len(),
            forall|m: int| start <= m < end ==> spec_is_digit(#[trigger] v@[m]),
            value as int == digits_value(v@.subrange(start as int, k as int)),
            value >= 0,
        decreases end - k,
    {
        let d = (v[k] as u32 - '0' as u32) as i64;
        proof {
            lemma_extend(v@, start as int, k as int);
        }
        if value > (i64::MAX - d) / 10 {
            proof {
                lemma_prefix_of_run(v@, start as int, k + 1, end as int);
                lemma_digits_value_prefix(v@.subrange(start as int, end as int), k + 1 - start);
                assert(value * 10 + d > i64::MAX) by (nonlinear_arith)
                    requires
                        value > (i64::MAX - d) / 10,
                        0 <= d <= 9,
                ;
            }
            return None;
        }
        value = value * 10 + d;
        k = k + 1;
    }
    Some(value)
}

} // verus!

verus! {

/// The 1-based line at the end of `q`.
pub open spec fn line_of(q: Seq<char>) -> nat
    decreases q.len(),
{
    if q.len() == 0 {
        1
    } else if q.last() == '\n' {
        line_of(q.drop_last()) + 1
    } else {
        line_of(q.drop_last())
    }
}

/// The 1-based column at the end of `q`.
pub open spec fn column_of(q: Seq<char>) -> nat
    decreases q.len(),
{
    if q.len() == 0 {
        1
    } else if q.last() == '\n' {
        1
    } else {
        column_of(q.drop_last()) + 1
    }
}

/// The UTF-8 length of `q` in bytes.
pub open spec fn bytes_of(q: Seq<char>) -> nat
    decreases q.len(),
{
    if q.len() == 0 {
        0
    } else {
        bytes_of(q.drop_last()) + spec_len_utf8(q.last())
    }
}

/// `t` is the text `s[a..b]` for some non-empty range, and records the line,
/// column and byte offset where that range starts.
pub open spec fn token_fits(s: Seq<char>, t: Token) -> bool {
    exists|a: int, b: int|
        0 <= a < b <= s.len() && t.lexem@ == #[trigger] s.subrange(a, b) && t.line == line_of(
            s.subrange(0, a),
        ) && t.column == column_of(s.subrange(0, a)) && t.index == bytes_of(s.subrange(0, a))
}

/// Every token fits the text, and their byte offsets strictly increase.
pub open spec fn tokens_fit(s: Seq<char>, ts: Seq<Token>) -> bool {
    &&& forall|k: int| 0 <= k < ts.len() ==> token_fits(s, #[trigger] ts[k])
    &&& forall|k: int, j: int| 0 <= k < j < ts.len() ==> ts[k].index < ts[j].index
}

/// Where the step that fails starts, reading from `i` on; -1 where none
/// fails.
pub open spec fn error_position(s: Seq<char>, i: int) -> int
    decreases s.len() - i,
{
    if i < 0 || i >= s.len() {
        -1
    } else {
        match next_token(s, i) {
            Err(_) => i,
            Ok((_, j)) => if i < j <= s.len() {
                error_position(s, j)
            } else {
                -1
            },
        }
    }
}

pub proof fn lemma_error_position(s: Seq<char>, i: int)
    requires
        0 <= i,
        tokens_from(s, i) is Err,
    ensures
        i <= error_position(s, i) < s.len(),
    decreases s.len() - i,
{
    if 0 <= i < s.len() {
        match next_token(s, i) {
            Err(_) => {},
            Ok((_, j)) => {
                if i < j <= s.len() {
                    lemma_error_position(s, j);
                }
            },
        }
    }
}

proof fn lemma_bytes_increase(s: Seq<char>, a: int, b: int)
    requires
        0 <= a < b <= s.len(),
    ensures
        bytes_of(s.subrange(0, a)) < bytes_of(s.subrange(0, b)),
    decreases b - a,
{
    assert(s.subrange(0, b).drop_last() =~= s.subrange(0, b - 1));
    if a < b - 1 {
        lemma_bytes_increase(s, a, b - 1);
    }
}

/// Turns source text into tokens, one pass, left to right.
#[derive(Debug)]
pub struct Lexer {
    chars: Vec<char>,
    tokens: TokenList,
    pos: usize,
    line: usize,
    column: usize,
    index: usize,
}

/// The outcome of one step of tokenization at `i`, as `next_token` gives it.
pub open spec fn step_result(
    s: Seq<char>,
    i: int,
    old_tokens: Seq<Token>,
    new_pos: int,
    new_tokens: Seq<Token>,
    r: Result<(), LexError>,
) -> bool {
    match next_token(s, i) {
        Ok((t, j)) => r is Ok && new_pos == j && kinds(new_tokens) == kinds(old_tokens) + option_seq(
            t,
        ),
        Err(k) => r is Err && r->Err_0.kind == k && new_tokens == old_tokens && r->Err_0.line == line_of(
            s.subrange(0, i),
        ) && r->Err_0.column == column_of(s.subrange(0, i)),
    }
}

impl Lexer {
    /// The text being tokenized.
    pub closed spec fn source(&self) -> Seq<char> {
        self.chars@
    }

    /// The tokens read so far.
    pub closed spec fn emitted(&self) -> Seq<Token> {
        self.tokens@
    }

    /// Nothing has been read yet.
    pub closed spec fn at_start(&self) -> bool {
        self.pos == 0 && self.tokens@.len() == 0
    }

    pub closed spec fn wf(&self) -> bool {
        &&& self.chars@.len() <= MAX_INPUT_CHARS
        &&& self.pos <= self.chars@.len()
        &&& 1 <= self.line <= self.pos + 1
        &&& 1 <= self.column <= self.pos + 1
        &&& self.index <= 4 * self.pos
        &&& self.line == line_of(self.chars@.subrange(0, self.pos as int))
        &&& self.column == column_of(self.chars@.subrange(0, self.pos as int))
        &&& self.index == bytes_of(self.chars@.subrange(0, self.pos as int))
        &&& tokens_fit(self.chars@, self.tokens@)
        &&& forall|k: int| 0 <= k < self.tokens@.len() ==> #[trigger] self.tokens@[k].index < self.index
    }

    pub fn new(input: &str) -> (r: Lexer)
        requires
            input@.len() <= MAX_INPUT_CHARS,
        ensures
            r.wf(),
            r.source() == input@,
            r.at_start(),
    {
        let r = Lexer { chars: chars_of(input), tokens: Vec::new(), pos: 0, line: 1, column: 1, index: 0 };
        proof {
            assert(r.chars@.subrange(0, 0).len() == 0);
        }
        r
    }

    /// The tokens read so far.
    pub fn tokens(&self) -> (r: &TokenList)
        ensures
            r@ == self.emitted(),
    {
        &self.tokens
    }

    /// Gives up the lexer for its tokens.
    pub fn into_tokens(self) -> (r: TokenList)
        ensures
            r@ == self.emitted(),
    {
        self.tokens
    }

    fn advance(&mut self)
        requires
            old(self).wf(),
            old(self).pos < old(self).chars@.len(),
        ensures
            final(self).wf(),
            final(self).pos == old(self).pos + 1,
            final(self).chars == old(self).chars,
            final(self).tokens == old(self).tokens,
    {
        let ch = self.chars[self.pos];
        proof {
            assert(self.chars@.subrange(0, self.pos + 1).drop_last() =~= self.chars@.subrange(0, self.pos as int));
        }
        self.index = self.index + len_utf8(ch);
        if ch == '\n' {
            self.line = self.line + 1;
            self.column = 1;
        } else {
            self.column = self.column + 1;
        }
        self.pos = self.pos + 1;
    }

    fn error(&self, kind: LexErrorKind) -> (r: LexError)
        requires
            self.wf(),
        ensures
            r.kind == kind,
            r.line == self.line,
            r.column == self.column,
    {
        LexError { kind, line: self.line, column: self.column }
    }

    fn add_token(&mut self, kind: TokenKind, start: usize, line: usize, column: usize, index: usize)
        requires
            old(self).wf(),
            start < old(self).pos,
            line == line_of(old(self).chars@.subrange(0, start as int)),
            column == column_of(old(self).chars@.subrange(0, start as int)),
            index == bytes_of(old(self).chars@.subrange(0, start as int)),
            forall|k: int| 0 <= k < old(self).tokens@.len() ==> #[trigger] old(self).tokens@[k].index < index,
        ensures
            final(self).wf(),
            final(self).pos == old(self).pos,
            final(self).chars == old(self).chars,
            kinds(final(self).tokens@) == kinds(old(self).tokens@).push(kind@),
    {
        let lexem = string_of_range(&self.chars, start, self.pos);
        let ghost t = Token { kind, lexem, line, column, index };
        self.tokens.push(Token { kind, lexem, line, column, index });
        proof {
            assert(kinds(self.tokens@) =~= kinds(old(self).tokens@).push(kind@));
            let s = self.chars@;
            lemma_bytes_increase(s, start as int, self.pos as int);
            assert(self.tokens@.last().lexem@ == s.subrange(start as int, self.pos as int));
            assert(token_fits(s, self.tokens@.last()));
            assert forall|k: int| 0 <= k < self.tokens@.len() implies token_fits(s, #[trigger] self.tokens@[k]) by {
                if k < old(self).tokens@.len() {
                    assert(self.tokens@[k] == old(self).tokens@[k]);
                }
            }
        }
    }

    fn add_simple_token(&mut self, kind: TokenKind)
        requires
            old(self).wf(),
            old(self).pos < old(self).chars@.len(),
        ensures
            final(self).wf(),
            final(self).pos == old(self).pos + 1,
            final(self).chars == old(self).chars,
            kinds(final(self).tokens@) == kinds(old(self).tokens@).push(kind@),
    {
        let (start, line, column, index) = (self.pos, self.line, self.column, self.index);
        self.advance();
        self.add_token(kind, start, line, column, index);
    }

    fn skip_whitespace(&mut self)
        requires
            old(self).wf(),
        ensures
            final(self).wf(),
            final(self).pos == whitespace_end(old(self).chars@, old(self).pos as int),
            final(self).pos >= old(self).pos,
            final(self).chars == old(self).chars,
            final(self).tokens == old(self).tokens,
    {
        while self.pos < self.chars.len() && is_whitespace(self.chars[self.pos])
            invariant
                self.wf(),
                self.chars == old(self).chars,
                self.tokens == old(self).tokens,
                self.pos >= old(self).pos,
                whitespace_end(self.chars@, old(self).pos as int) == whitespace_end(
                    self.chars@,
                    self.pos as int,
                ),
            decreases self.chars@.len() - self.pos,
        {
            self.advance();
        }
    }

    fn scan_string(&mut self) -> (r: Result<(), LexError>)
        requires
            old(self).wf(),
            old(self).pos < old(self).chars@.len(),
            old(self).chars@[old(self).pos as int] == '"',
        ensures
            final(self).wf(),
            final(self).chars == old(self).chars,
            r is Ok ==> final(self).pos > old(self).pos,
            step_result(
                old(self).chars@,
                old(self).pos as int,
                old(self).tokens@,
                final(self).pos as int,
                final(self).tokens@,
                r,
            ),
    {
        let ghost s = self.chars@;
        let (start, line, column, index) = (self.pos, self.line, self.column, self.index);
        self.advance();
        let mut content: Vec<char> = Vec::new();
        proof {
            assert(content@ + Seq::<char>::empty() =~= content@);
        }
        loop
            invariant_except_break
                string_body(s, start + 1) == with_prefix(content@, string_body(s, self.pos as int)),
            invariant
                self.wf(),
                self.chars == old(self).chars,
                self.tokens == old(self).tokens,
                start < self.pos,
                s == self.chars@,
                start == old(self).pos,
                s[start as int] == '"',
                line == line_of(s.subrange(0, start as int)),
                column == column_of(s.subrange(0, start as int)),
            ensures
                string_body(s, start + 1) == Ok::<(Seq<char>, int), LexErrorKind>((content@, self.pos as int)),
            decreases s.len() - self.pos,
        {
            if self.pos >= self.chars.len() {
                proof {
                    assert(string_body(s, self.pos as int) == Err::<(Seq<char>, int), LexErrorKind>(LexErrorKind::UnterminatedString));
                    assert(string_body(s, start + 1) == Err::<(Seq<char>, int), LexErrorKind>(LexErrorKind::UnterminatedString));
                    assert(!spec_is_whitespace(s[start as int]));
                    assert(punctuation(s[start as int]) is None);
                }
                return Err(LexError { kind: LexErrorKind::UnterminatedString, line, column });
            }
            let c = self.chars[self.pos];
            if c == '"' {
                proof {
                    assert(content@ + Seq::<char>::empty() =~= content@);
                }
                self.advance();
                break;
            } else if c == '/' {
                self.advance();
                if self.pos >= self.chars.len() {
                    proof {
                        assert(string_body(s, self.pos - 1) == Err::<(Seq<char>, int), LexErrorKind>(LexErrorKind::DanglingEscape));
                        assert(!spec_is_whitespace(s[start as int]));
                        assert(punctuation(s[start as int]) is None);
                    }
                    return Err(LexError { kind: LexErrorKind::DanglingEscape, line, column });
                }
                let e = unescape_char(self.chars[self.pos]);
                proof {
                    lemma_with_prefix(content@, seq![e], string_body(s, self.pos + 1));
                    assert(content@.push(e) =~= content@ + seq![e]);
                }
                content.push(e);
                self.advance();
            } else {
                proof {
                    lemma_with_prefix(content@, seq![c], string_body(s, self.pos + 1));
                    assert(content@.push(c) =~= content@ + seq![c]);
                }
                content.push(c);
                self.advance();
            }
        }
        let text = string_of(content.as_slice());
        self.add_token(TokenKind::StringLiteral(text), start, line, column, index);
        proof {
            assert(kinds(old(self).tokens@).push(TokenModel::StringLiteral(content@)) =~= kinds(
                old(self).tokens@,
            ) + option_seq(Some(TokenModel::StringLiteral(content@))));
        }
        Ok(())
    }
}


impl Lexer {
    fn scan_number(&mut self) -> (r: Result<(), LexError>)
        requires
            old(self).wf(),
            old(self).pos < old(self).chars@.len(),
            spec_is_digit(old(self).chars@[old(self).pos as int]),
        ensures
            final(self).wf(),
            final(self).chars == old(self).chars,
            r is Ok ==> final(self).pos > old(self).pos,
            step_result(
                old(self).chars@,
                old(self).pos as int,
                old(self).tokens@,
                final(self).pos as int,
                final(self).tokens@,
                r,
            ),
    {
        let ghost s = self.chars@;
        let (start, line, column, index) = (self.pos, self.line, self.column, self.index);
        let mut has_decimal = false;
        proof {
            assert(s.subrange(start as int, start as int) =~= Seq::<char>::empty());
        }
        loop
            invariant
                self.wf(),
                self.chars == old(self).chars,
                self.tokens == old(self).tokens,
                s == self.chars@,
                start == old(self).pos,
                start <= self.pos,
                spec_is_digit(s[start as int]),
                line == line_of(s.subrange(0, start as int)),
                column == column_of(s.subrange(0, start as int)),
                number_end(s, start as int) == number_end(s, self.pos as int),
                forall|k: int| start <= k < self.pos ==> spec_is_digit(#[trigger] s[k]) || s[k] == '.',
                !has_decimal ==> forall|k: int| start <= k < self.pos ==> spec_is_digit(#[trigger] s[k]),
                has_decimal == (count_dots(s.subrange(start as int, self.pos as int)) == 1),
                count_dots(s.subrange(start as int, self.pos as int)) <= 1,
            ensures
                self.pos == number_end(s, start as int),
            decreases s.len() - self.pos,
        {
            if self.pos >= self.chars.len() {
                break;
            }
            let c = self.chars[self.pos];
            proof {
                lemma_extend(s, start as int, self.pos as int);
            }
            if is_digit(c) {
                self.advance();
            } else if c == '.' {
                if has_decimal {
                    proof {
                        assert(number_end(s, self.pos as int) == number_end(s, self.pos + 1));
                        lemma_number_end_bounds(s, self.pos + 1);
                        lemma_prefix_of_run(s, start as int, self.pos + 1, number_end(s, start as int));
                        lemma_count_dots_prefix(
                            s.subrange(start as int, number_end(s, start as int)),
                            self.pos + 1 - start,
                        );
                    }
                    return Err(LexError { kind: LexErrorKind::MultipleDecimalPoints, line, column });
                }
                has_decimal = true;
                self.advance();
            } else {
                break;
            }
        }
        let end = self.pos;
        proof {
            assert(number_end(s, start as int) == number_end(s, start + 1));
            lemma_number_end_bounds(s, start + 1);
        }
        if has_decimal {
            let text = string_of_range(&self.chars, start, end);
            self.add_token(TokenKind::FloatLiteral(text), start, line, column, index);
        } else {
            match parse_integer(&self.chars, start, end) {
                Some(value) => {
                    self.add_token(TokenKind::IntegerLiteral(value), start, line, column, index);
                },
                None => {
                    return Err(LexError { kind: LexErrorKind::InvalidInteger, line, column });
                },
            }
        }
        proof {
            let t = next_token(s, start as int)->Ok_0.0;
            assert(kinds(old(self).tokens@).push(t->Some_0) =~= kinds(old(self).tokens@) + option_seq(t));
        }
        Ok(())
    }

    fn scan_symbol_or_keyword(&mut self) -> (r: Result<(), LexError>)
        requires
            old(self).wf(),
            old(self).pos < old(self).chars@.len(),
            spec_is_symbol(old(self).chars@[old(self).pos as int]),
            !spec_is_digit(old(self).chars@[old(self).pos as int]),
        ensures
            final(self).wf(),
            final(self).chars == old(self).chars,
            r is Ok ==> final(self).pos > old(self).pos,
            step_result(
                old(self).chars@,
                old(self).pos as int,
                old(self).tokens@,
                final(self).pos as int,
                final(self).tokens@,
                r,
            ),
    {
        let ghost s = self.chars@;
        let (start, line, column, index) = (self.pos, self.line, self.column, self.index);
        while self.pos < self.chars.len() && (is_symbol(self.chars[self.pos]) || is_digit(
            self.chars[self.pos],
        ))
            invariant
                self.wf(),
                self.chars == old(self).chars,
                self.tokens == old(self).tokens,
                s == self.chars@,
                start == old(self).pos,
                start <= self.pos,
                symbol_end(s, start as int) == symbol_end(s, self.pos as int),
            decreases s.len() - self.pos,
        {
            self.advance();
        }
        let end = self.pos;
        let kind = self.word_kind(start, end);
        self.add_token(kind, start, line, column, index);
        proof {
            let t = next_token(s, start as int)->Ok_0.0;
            assert(kinds(old(self).tokens@).push(t->Some_0) =~= kinds(old(self).tokens@) + option_seq(t));
        }
        Ok(())
    }

    /// The token kind of the word `chars[start..end]`.
    fn word_kind(&self, start: usize, end: usize) -> (r: TokenKind)
        requires
            start <= end <= self.chars@.len(),
        ensures
            r@ == word_token(self.chars@.subrange(start as int, end as int)),
    {
        let ghost w = self.chars@.subrange(start as int, end as int);
        let n = end - start;
        let v = &self.chars;
        if n == 4 && v[start] == 't' && v[start + 1] == 'r' && v[start + 2] == 'u' && v[start + 3] == 'e' {
            assert(w =~= seq!['t', 'r', 'u', 'e']);
            TokenKind::True
        } else if n == 5 && v[start] == 'f' && v[start + 1] == 'a' && v[start + 2] == 'l' && v[start + 3] == 's'
            && v[start + 4] == 'e' {
            assert(w =~= seq!['f', 'a', 'l', 's', 'e']);
            TokenKind::False
        } else if n == 4 && v[start] == 'n' && v[start + 1] == 'u' && v[start + 2] == 'l' && v[start + 3] == 'l' {
            assert(w =~= seq!['n', 'u', 'l', 'l']);
            TokenKind::Null
        } else {
            proof {
                assert(w.len() == n);
                assert(forall|i: int| 0 <= i < n ==> w[i] == v@[start + i]);
                if w == seq!['t', 'r', 'u', 'e'] {
                    assert(w[0] == 't' && w[1] == 'r' && w[2] == 'u' && w[3] == 'e');
                }
                if w == seq!['f', 'a', 'l', 's', 'e'] {
                    assert(w[0] == 'f' && w[1] == 'a' && w[2] == 'l' && w[3] == 's' && w[4] == 'e');
                }
                if w == seq!['n', 'u', 'l', 'l'] {
                    assert(w[0] == 'n' && w[1] == 'u' && w[2] == 'l' && w[3] == 'l');
                }
            }
            TokenKind::Symbol(string_of_range(&self.chars, start, end))
        }
    }

    fn comment(&mut self) -> (r: Result<(), LexError>)
        requires
            old(self).wf(),
            old(self).pos < old(self).chars@.len(),
            old(self).chars@[old(self).pos as int] == '\\',
        ensures
            final(self).wf(),
            final(self).chars == old(self).chars,
            r is Ok ==> final(self).pos > old(self).pos,
            step_result(
                old(self).chars@,
                old(self).pos as int,
                old(self).tokens@,
                final(self).pos as int,
                final(self).tokens@,
                r,
            ),
    {
        let ghost s = self.chars@;
        let (start, line, column) = (self.pos, self.line, self.column);
        self.advance();
        if self.pos >= self.chars.len() {
            return Err(LexError { kind: LexErrorKind::UnexpectedEndOfInput, line, column });
        }
        let c = self.chars[self.pos];
        if c != '\\' {
            return Err(LexError { kind: LexErrorKind::UnexpectedCharacter(c), line, column });
        }
        self.advance();
        loop
            invariant_except_break
                line_end(s, start + 2) == line_end(s, self.pos as int),
            invariant
                self.wf(),
                self.chars == old(self).chars,
                self.tokens == old(self).tokens,
                s == self.chars@,
                start == old(self).pos,
                start < self.pos,
                s[start as int] == '\\',
                s[start + 1] == '\\',
            ensures
                self.pos == line_end(s, start + 2),
            decreases s.len() - self.pos,
        {
            if self.pos >= self.chars.len() {
                break;
            }
            let c = self.chars[self.pos];
            self.advance();
            if c == '\n' {
                break;
            }
        }
        proof {
            assert(kinds(old(self).tokens@) =~= kinds(old(self).tokens@) + option_seq(None));
        }
        Ok(())
    }
}

proof fn lemma_whitespace_end_bounds(s: Seq<char>, i: int)
    ensures
        whitespace_end(s, i) >= i,
        0 <= i <= s.len() ==> whitespace_end(s, i) <= s.len(),
    decreases s.len() - i,
{
    if 0 <= i < s.len() && spec_is_whitespace(s[i]) {
        lemma_whitespace_end_bounds(s, i + 1);
    }
}

impl Lexer {
    /// Reads the whole text. On success the tokens are those of
    /// `tokenize_spec`; otherwise the error is the first one met.
    pub fn scan(&mut self) -> (r: Result<(), LexError>)
        requires
            old(self).wf(),
            old(self).at_start(),
        ensures
            final(self).wf(),
            final(self).source() == old(self).source(),
            match tokenize_spec(old(self).source()) {
                Ok(ks) => r is Ok && kinds(final(self).emitted()) == ks,
                Err(k) => r is Err && r->Err_0.kind == k,
            },
            kinds(final(self).emitted()) == tokens_read(old(self).source(), 0),
            tokens_fit(old(self).source(), final(self).emitted()),
            r is Err ==> r->Err_0.line == line_of(old(self).source().subrange(0, error_position(old(self).source(), 0)))
                && r->Err_0.column == column_of(old(self).source().subrange(0, error_position(old(self).source(), 0))),
    {
        let ghost s = self.chars@;
        proof {
            assert(Seq::<TokenModel>::empty() + tokens_read(s, 0) =~= tokens_read(s, 0));
        }
        proof {
            assert(kinds(self.tokens@) =~= Seq::<TokenModel>::empty());
            lemma_prefixed(Seq::empty(), Seq::empty(), tokens_from(s, 0));
            assert(Seq::<TokenModel>::empty() + Seq::<TokenModel>::empty() =~= Seq::<TokenModel>::empty());
            match tokens_from(s, 0) {
                Ok(x) => assert(Seq::<TokenModel>::empty() + x =~= x),
                Err(_) => {},
            }
        }
        while self.pos < self.chars.len()
            invariant
                self.wf(),
                s == self.chars@,
                s == old(self).chars@,
                tokenize_spec(s) == prefixed(kinds(self.tokens@), tokens_from(s, self.pos as int)),
                tokens_read(s, 0) == kinds(self.tokens@) + tokens_read(s, self.pos as int),
                error_position(s, 0) == error_position(s, self.pos as int),
            decreases s.len() - self.pos,
        {
            let ghost i = self.pos as int;
            let ghost before = self.tokens@;
            let c = self.chars[self.pos];
            let r: Result<(), LexError> = if is_whitespace(c) {
                self.skip_whitespace();
                proof {
                    lemma_whitespace_end_bounds(s, i + 1);
                    assert(kinds(before) =~= kinds(before) + option_seq(None));
                }
                Ok(())
            } else if c == '}' {
                self.add_simple_token(TokenKind::OpenObject);
                Ok(())
            } else if c == '{' {
                self.add_simple_token(TokenKind::CloseObject);
                Ok(())
            } else if c == ']' {
                self.add_simple_token(TokenKind::OpenArray);
                Ok(())
            } else if c == '[' {
                self.add_simple_token(TokenKind::CloseArray);
                Ok(())
            } else if c == ')' {
                self.add_simple_token(TokenKind::OpenExpr);
                Ok(())
            } else if c == '(' {
                self.add_simple_token(TokenKind::CloseExpr);
                Ok(())
            } else if c == ':' {
                self.add_simple_token(TokenKind::Colon);
                Ok(())
            } else if c == ',' {
                self.add_simple_token(TokenKind::Comma);
                Ok(())
            } else if c == '\\' {
                self.comment()
            } else if c == '"' {
                self.scan_string()
            } else if is_digit(c) {
                self.scan_number()
            } else if is_symbol(c) {
                self.scan_symbol_or_keyword()
            } else {
                Err(self.error(LexErrorKind::UnexpectedCharacter(c)))
            };
            proof {
                if punctuation(c) is Some {
                    assert(kinds(self.tokens@) =~= kinds(before) + option_seq(punctuation(c)));
                }
            }
            assert(step_result(s, i, before, self.pos as int, self.tokens@, r));
            match r {
                Err(e) => {
                    proof {
                        assert(kinds(self.tokens@) + Seq::<TokenModel>::empty() =~= kinds(self.tokens@));
                    }
                    return Err(e);
                },
                Ok(()) => {
                    proof {
                        let t = next_token(s, i)->Ok_0.0;
                        lemma_prefixed(kinds(before), option_seq(t), tokens_from(s, self.pos as int));
                        assert(kinds(before) + (option_seq(t) + tokens_read(s, self.pos as int)) =~= (kinds(before)
                            + option_seq(t)) + tokens_read(s, self.pos as int));
                    }
                },
            }
        }
        proof {
            assert(kinds(self.tokens@) + Seq::<TokenModel>::empty() =~= kinds(self.tokens@));
        }
        Ok(())
    }
}

/// Tokenizes a whole text.
pub fn tokenize(input: &str) -> (r: Result<TokenList, LexError>)
    requires
        input@.len() <= MAX_INPUT_CHARS,
    ensures
        match tokenize_spec(input@) {
            Ok(ks) => r is Ok && kinds(r->Ok_0@) == ks,
            Err(k) => r is Err && r->Err_0.kind == k,
        },
        r is Ok ==> tokens_fit(input@, r->Ok_0@),
        r is Err ==> r->Err_0.line == line_of(input@.subrange(0, error_position(input@, 0))) && r->Err_0.column
            == column_of(input@.subrange(0, error_position(input@, 0))),
{
    let mut lexer = Lexer::new(input);
    match lexer.scan() {
        Ok(()) => Ok(lexer.into_tokens()),
        Err(e) => Err(e),
    }
}
proof fn lemma_string_body_unterminated(s: Seq<char>, q: int, i: int)
    requires
        q < i,
        forall|j: int| q < j < s.len() ==> s[j] != '"' && s[j] != '/',
    ensures
        string_body(s, i) == Err::<(Seq<char>, int), LexErrorKind>(LexErrorKind::UnterminatedString),
    decreases s.len() - i,
{
    if 0 <= i < s.len() {
        lemma_string_body_unterminated(s, q, i + 1);
    }
}

/// A string literal opened at index `q` and never closed (no quote and no
/// escape after it) fails tokenization with an unterminated string error
/// once tokenization reaches `q`, whatever line and column it stands at;
/// nothing is silently cut off. `ks` are the tokens read before `q`.
pub proof fn lemma_unterminated_string(s: Seq<char>, q: int, ks: Seq<TokenModel>)
    requires
        0 <= q < s.len(),
        s[q] == '"',
        forall|j: int| q < j < s.len() ==> s[j] != '"' && s[j] != '/',
        tokenize_spec(s) == prefixed(ks, tokens_from(s, q)),
    ensures
        tokenize_spec(s) == Err::<Seq<TokenModel>, LexErrorKind>(LexErrorKind::UnterminatedString),
{
    lemma_string_body_unterminated(s, q, q + 1);
}

} // verus!
