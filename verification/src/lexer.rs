use vstd::prelude::*;

verus! {

// ===========================================================================
// Token data model
// ===========================================================================

#[derive(Debug, Clone, Copy, PartialEq, Eq, Structural)]
pub enum OperatorToken {
    Eq,
    Ne,
    Gt,
    Lt,
    Ge,
    Le,
    Comma,
    ExclamationMark,
    Dot,
    Plus,
    Minus,
    Colon,
    Slash,
    Asterisk,
    Percent,
    DoubleDot,
    TripleDot,
    Equals,
    PlusEquals,
    MinusEquals,
    SlashEquals,
    AsteriskEquals,
    PercentEquals,
}

#[derive(Debug, Clone, Copy, PartialEq, Eq, Structural)]
pub enum BracketToken {
    OpenParenthesis,
    CloseParenthesis,
    OpenSquare,
    CloseSquare,
    OpenCurly,
    CloseCurly,
}

#[derive(Debug, Clone, Copy, PartialEq, Eq, Structural)]
pub enum KeywordToken {
    For,
    If,
    Else,
    While,
    Return,
    True,
    False,
    Null,
}

/// A classified unit of source text. Text-carrying kinds store the scanned
/// characters; `EL` is the unified end-of-line marker for newlines and `;`.
#[derive(Debug)]
pub enum TokenType {
    StringLiteral(String),
    NumberLiteral(String),
    Operator(OperatorToken),
    Bracket(BracketToken),
    Keyword(KeywordToken),
    Identifier(String),
    Comment(String),
    EL,
}

/// A token together with the 1-based line and column of its first character.
#[derive(Debug)]
pub struct Token {
    pub line: usize,
    pub column: usize,
    pub value: TokenType,
}

#[derive(Debug, Clone, Copy, PartialEq, Eq, Structural)]
pub enum LexErrorKind {
    UnterminatedString,
    UnknownOperation,
}

/// A fatal scanning error, with the position of the offending character
/// (for an unterminated string: of the opening quote).
#[derive(Debug, Clone, Copy, PartialEq, Eq, Structural)]
pub struct LexError {
    pub kind: LexErrorKind,
    pub line: usize,
    pub column: usize,
}

// ===========================================================================
// Mathematical model of tokens
// ===========================================================================

/// The mathematical value of a `TokenType`: texts become character sequences.
pub ghost enum TokenKindModel {
    StringLiteral(Seq<char>),
    NumberLiteral(Seq<char>),
    Operator(OperatorToken),
    Bracket(BracketToken),
    Keyword(KeywordToken),
    Identifier(Seq<char>),
    Comment(Seq<char>),
    EL,
}

/// The mathematical value of a `Token`.
pub ghost struct TokenModel {
    pub line: int,
    pub column: int,
    pub value: TokenKindModel,
}

impl View for TokenType {
    type V = TokenKindModel;

    open spec fn view(&self) -> TokenKindModel {
        match self {
            TokenType::StringLiteral(s) => TokenKindModel::StringLiteral(s@),
            TokenType::NumberLiteral(s) => TokenKindModel::NumberLiteral(s@),
            TokenType::Operator(op) => TokenKindModel::Operator(*op),
            TokenType::Bracket(b) => TokenKindModel::Bracket(*b),
            TokenType::Keyword(k) => TokenKindModel::Keyword(*k),
            TokenType::Identifier(s) => TokenKindModel::Identifier(s@),
            TokenType::Comment(s) => TokenKindModel::Comment(s@),
            TokenType::EL => TokenKindModel::EL,
        }
    }
}

impl View for Token {
    type V = TokenModel;

    open spec fn view(&self) -> TokenModel {
        TokenModel { line: self.line as int, column: self.column as int, value: self.value@ }
    }
}

impl DeepView for Token {
    type V = TokenModel;

    open spec fn deep_view(&self) -> TokenModel {
        self@
    }
}

// ===========================================================================
// Character classes
// ===========================================================================

/// ASCII decimal digit.
pub open spec fn is_digit(c: char) -> bool {
    0x30 <= c as u32 && c as u32 <= 0x39
}

/// ASCII whitespace: space, tab, newline, form feed, carriage return.
pub open spec fn is_ascii_ws(c: char) -> bool {
    c == ' ' || c == '\t' || c == '\n' || c == '\u{c}' || c == '\r'
}

/// ASCII punctuation: the four printable non-alphanumeric ranges.
pub open spec fn is_punct(c: char) -> bool {
    let u = c as u32;
    (0x21 <= u && u <= 0x2f) || (0x3a <= u && u <= 0x40) || (0x5b <= u && u <= 0x60) || (0x7b
        <= u && u <= 0x7e)
}

/// Unicode whitespace: the characters with the White_Space property.
pub open spec fn is_unicode_ws(c: char) -> bool {
    let u = c as u32;
    (0x9 <= u && u <= 0xd) || u == 0x20 || u == 0x85 || u == 0xa0 || u == 0x1680 || (0x2000 <= u
        && u <= 0x200a) || u == 0x2028 || u == 0x2029 || u == 0x202f || u == 0x205f || u == 0x3000
}

/// A character that a name scan keeps: an underscore, or anything that is
/// neither whitespace nor ASCII punctuation.
pub open spec fn is_name_char(c: char) -> bool {
    c == '_' || (!is_unicode_ws(c) && !is_punct(c))
}

// ===========================================================================
// Positions: 1-based line and running column of the cursor after consuming
// the first `n` characters of `s`. The column resets to 0 at each newline
// and counts characters otherwise.
// ===========================================================================

pub open spec fn line_at(s: Seq<char>, n: int) -> int
    decreases n,
{
    if n <= 0 {
        1
    } else {
        line_at(s, n - 1) + if s[n - 1] == '\n' {
            1int
        } else {
            0int
        }
    }
}

pub open spec fn col_at(s: Seq<char>, n: int) -> int
    decreases n,
{
    if n <= 0 {
        0
    } else if s[n - 1] == '\n' {
        0
    } else {
        col_at(s, n - 1) + 1
    }
}

pub proof fn lemma_pos_bounds(s: Seq<char>, n: int)
    requires
        0 <= n,
    ensures
        1 <= line_at(s, n) <= n + 1,
        0 <= col_at(s, n) <= n,
    decreases n,
{
    if n > 0 {
        lemma_pos_bounds(s, n - 1);
    }
}

/// The token whose first character stands at index `i` of `s`.
pub open spec fn token_at(s: Seq<char>, i: int, kind: TokenKindModel) -> TokenModel {
    TokenModel { line: line_at(s, i + 1), column: col_at(s, i + 1), value: kind }
}

// ===========================================================================
// Scan boundaries: where each greedy scan, started at index `i`, stops.
// ===========================================================================

/// First index at or after `i` that ends a number scan (not a digit or `_`).
pub open spec fn number_end(s: Seq<char>, i: int) -> int
    decreases s.len() - i when 0 <= i <= s.len()
{
    if i == s.len() {
        i
    } else if is_digit(s[i]) || s[i] == '_' {
        number_end(s, i + 1)
    } else {
        i
    }
}

/// First index at or after `i` that ends a name scan.
pub open spec fn name_end(s: Seq<char>, i: int) -> int
    decreases s.len() - i when 0 <= i <= s.len()
{
    if i == s.len() {
        i
    } else if is_name_char(s[i]) {
        name_end(s, i + 1)
    } else {
        i
    }
}

/// First index at or after `i` holding a newline, or the length of `s`.
pub open spec fn comment_end(s: Seq<char>, i: int) -> int
    decreases s.len() - i when 0 <= i <= s.len()
{
    if i == s.len() {
        i
    } else if s[i] == '\n' {
        i
    } else {
        comment_end(s, i + 1)
    }
}

/// First index at or after `i` holding a double quote, or the length of `s`.
pub open spec fn quote_end(s: Seq<char>, i: int) -> int
    decreases s.len() - i when 0 <= i <= s.len()
{
    if i == s.len() {
        i
    } else if s[i] == '"' {
        i
    } else {
        quote_end(s, i + 1)
    }
}

pub proof fn lemma_number_end_bounds(s: Seq<char>, i: int)
    requires
        0 <= i <= s.len(),
    ensures
        i <= number_end(s, i) <= s.len(),
    decreases s.len() - i,
{
    if i < s.len() && (is_digit(s[i]) || s[i] == '_') {
        lemma_number_end_bounds(s, i + 1);
    }
}

pub proof fn lemma_name_end_bounds(s: Seq<char>, i: int)
    requires
        0 <= i <= s.len(),
    ensures
        i <= name_end(s, i) <= s.len(),
    decreases s.len() - i,
{
    if i < s.len() && is_name_char(s[i]) {
        lemma_name_end_bounds(s, i + 1);
    }
}

pub proof fn lemma_comment_end_bounds(s: Seq<char>, i: int)
    requires
        0 <= i <= s.len(),
    ensures
        i <= comment_end(s, i) <= s.len(),
    decreases s.len() - i,
{
    if i < s.len() && s[i] != '\n' {
        lemma_comment_end_bounds(s, i + 1);
    }
}

pub proof fn lemma_quote_end_bounds(s: Seq<char>, i: int)
    requires
        0 <= i <= s.len(),
    ensures
        i <= quote_end(s, i) <= s.len(),
    decreases s.len() - i,
{
    if i < s.len() && s[i] != '"' {
        lemma_quote_end_bounds(s, i + 1);
    }
}

// ===========================================================================
// Keyword reclassification: an exact-match table lookup on a scanned name.
// ===========================================================================

pub open spec fn keyword_of(text: Seq<char>) -> Option<KeywordToken> {
    if text == "if"@ {
        Some(KeywordToken::If)
    } else if text == "else"@ {
        Some(KeywordToken::Else)
    } else if text == "while"@ {
        Some(KeywordToken::While)
    } else if text == "for"@ {
        Some(KeywordToken::For)
    } else if text == "false"@ {
        Some(KeywordToken::False)
    } else if text == "true"@ {
        Some(KeywordToken::True)
    } else if text == "null"@ {
        Some(KeywordToken::Null)
    } else if text == "return"@ {
        Some(KeywordToken::Return)
    } else {
        None
    }
}

/// What a name scan that accumulated `text` produces.
pub open spec fn name_kind(text: Seq<char>) -> TokenKindModel {
    match keyword_of(text) {
        Some(k) => TokenKindModel::Keyword(k),
        None => TokenKindModel::Identifier(text),
    }
}

// ===========================================================================
// Operator and bracket dispatch
// ===========================================================================

/// Resolution of an operator that may be followed by `=`: `i` is the index
/// after the operator character; the result holds the token and the index of
/// the next unconsumed character.
pub open spec fn op_with_eq(
    s: Seq<char>,
    i: int,
    single: OperatorToken,
    compound: OperatorToken,
) -> (TokenKindModel, int) {
    if i < s.len() && s[i] == '=' {
        (TokenKindModel::Operator(compound), i + 1)
    } else {
        (TokenKindModel::Operator(single), i)
    }
}

/// Dispatch of the punctuation character at index `i`: the token produced and
/// the index of the next unconsumed character, or `None` for punctuation with
/// no defined mapping.
pub open spec fn spec_operation(s: Seq<char>, i: int) -> Option<(TokenKindModel, int)> {
    let c = s[i];
    let j = i + 1;
    if c == '(' {
        Some((TokenKindModel::Bracket(BracketToken::OpenParenthesis), j))
    } else if c == ')' {
        Some((TokenKindModel::Bracket(BracketToken::CloseParenthesis), j))
    } else if c == '[' {
        Some((TokenKindModel::Bracket(BracketToken::OpenSquare), j))
    } else if c == ']' {
        Some((TokenKindModel::Bracket(BracketToken::CloseSquare), j))
    } else if c == '{' {
        Some((TokenKindModel::Bracket(BracketToken::OpenCurly), j))
    } else if c == '}' {
        Some((TokenKindModel::Bracket(BracketToken::CloseCurly), j))
    } else if c == '+' {
        Some(op_with_eq(s, j, OperatorToken::Plus, OperatorToken::PlusEquals))
    } else if c == '-' {
        Some(op_with_eq(s, j, OperatorToken::Minus, OperatorToken::MinusEquals))
    } else if c == '*' {
        Some(op_with_eq(s, j, OperatorToken::Asterisk, OperatorToken::AsteriskEquals))
    } else if c == '/' {
        Some(op_with_eq(s, j, OperatorToken::Slash, OperatorToken::SlashEquals))
    } else if c == '%' {
        Some(op_with_eq(s, j, OperatorToken::Percent, OperatorToken::PercentEquals))
    } else if c == '>' {
        Some(op_with_eq(s, j, OperatorToken::Gt, OperatorToken::Ge))
    } else if c == '<' {
        Some(op_with_eq(s, j, OperatorToken::Lt, OperatorToken::Le))
    } else if c == '!' {
        Some(op_with_eq(s, j, OperatorToken::ExclamationMark, OperatorToken::Ne))
    } else if c == '=' {
        Some(op_with_eq(s, j, OperatorToken::Equals, OperatorToken::Eq))
    } else if c == ',' {
        Some((TokenKindModel::Operator(OperatorToken::Comma), j))
    } else if c == ':' {
        Some((TokenKindModel::Operator(OperatorToken::Colon), j))
    } else if c == '.' {
        if j < s.len() && s[j] == '.' {
            if j + 1 < s.len() && s[j + 1] == '.' {
                Some((TokenKindModel::Operator(OperatorToken::TripleDot), j + 2))
            } else {
                Some((TokenKindModel::Operator(OperatorToken::DoubleDot), j + 1))
            }
        } else {
            Some((TokenKindModel::Operator(OperatorToken::Dot), j))
        }
    } else {
        None
    }
}

// ===========================================================================
// The scanning state machine, one dispatch step per recursive call.
// `i` is the index of the next unconsumed character and `acc` the tokens
// produced so far.
// ===========================================================================

pub open spec fn spec_tokenize_from(s: Seq<char>, i: int, acc: Seq<TokenModel>) -> Result<
    Seq<TokenModel>,
    LexError,
>
    decreases s.len() - i when 0 <= i <= s.len() via spec_tokenize_from_decreases
{
    if i == s.len() {
        if acc.len() > 0 && !(acc.last().value is EL) {
            Ok(acc.push(TokenModel { line: line_at(s, i), column: col_at(s, i), value: TokenKindModel::EL }))
        } else {
            Ok(acc)
        }
    } else {
        let c = s[i];
        if c == '#' {
            let j = comment_end(s, i + 1);
            spec_tokenize_from(s, j, acc.push(token_at(s, i, TokenKindModel::Comment(s.subrange(i, j)))))
        } else if c == '"' {
            let j = quote_end(s, i + 1);
            if j == s.len() {
                Err(LexError {
                    kind: LexErrorKind::UnterminatedString,
                    line: line_at(s, i + 1) as usize,
                    column: col_at(s, i + 1) as usize,
                })
            } else {
                spec_tokenize_from(
                    s,
                    j + 1,
                    acc.push(token_at(s, i, TokenKindModel::StringLiteral(s.subrange(i + 1, j)))),
                )
            }
        } else if c == '\n' || c == ';' {
            if acc.len() > 0 && acc.last().value is EL {
                spec_tokenize_from(s, i + 1, acc)
            } else {
                spec_tokenize_from(s, i + 1, acc.push(token_at(s, i, TokenKindModel::EL)))
            }
        } else if is_digit(c) {
            let j = number_end(s, i + 1);
            spec_tokenize_from(
                s,
                j,
                acc.push(token_at(s, i, TokenKindModel::NumberLiteral(s.subrange(i, j)))),
            )
        } else if is_ascii_ws(c) {
            spec_tokenize_from(s, i + 1, acc)
        } else if is_punct(c) {
            match spec_operation(s, i) {
                Some((kind, j)) => spec_tokenize_from(s, j, acc.push(token_at(s, i, kind))),
                None => Err(LexError {
                    kind: LexErrorKind::UnknownOperation,
                    line: line_at(s, i + 1) as usize,
                    column: col_at(s, i + 1) as usize,
                }),
            }
        } else {
            let j = name_end(s, i + 1);
            spec_tokenize_from(s, j, acc.push(token_at(s, i, name_kind(s.subrange(i, j)))))
        }
    }
}

#[via_fn]
proof fn spec_tokenize_from_decreases(s: Seq<char>, i: int, acc: Seq<TokenModel>) {
    if 0 <= i < s.len() {
        lemma_comment_end_bounds(s, i + 1);
        lemma_quote_end_bounds(s, i + 1);
        lemma_number_end_bounds(s, i + 1);
        lemma_name_end_bounds(s, i + 1);
    }
}

/// The whole tokenization of `s`: the token sequence in source order, or the
/// first fatal error.
pub open spec fn spec_tokenize(s: Seq<char>) -> Result<Seq<TokenModel>, LexError> {
    spec_tokenize_from(s, 0, Seq::empty())
}

} // verus!

verus! {

// ===========================================================================
// Executable character classifiers
// ===========================================================================

fn digit_char(c: char) -> (r: bool)
    ensures
        r == is_digit(c),
{
    let u = c as u32;
    0x30 <= u && u <= 0x39
}

fn ascii_ws_char(c: char) -> (r: bool)
    ensures
        r == is_ascii_ws(c),
{
    c == ' ' || c == '\t' || c == '\n' || c == '\u{c}' || c == '\r'
}

fn punct_char(c: char) -> (r: bool)
    ensures
        r == is_punct(c),
{
    let u = c as u32;
    (0x21 <= u && u <= 0x2f) || (0x3a <= u && u <= 0x40) || (0x5b <= u && u <= 0x60) || (0x7b
        <= u && u <= 0x7e)
}

fn unicode_ws_char(c: char) -> (r: bool)
    ensures
        r == is_unicode_ws(c),
{
    let u = c as u32;
    (0x9 <= u && u <= 0xd) || u == 0x20 || u == 0x85 || u == 0xa0 || u == 0x1680 || (0x2000 <= u
        && u <= 0x200a) || u == 0x2028 || u == 0x2029 || u == 0x202f || u == 0x205f || u == 0x3000
}

fn name_char(c: char) -> (r: bool)
    ensures
        r == is_name_char(c),
{
    c == '_' || (!unicode_ws_char(c) && !punct_char(c))
}

// ===========================================================================
// String helpers
// ===========================================================================

fn str_eq(a: &str, b: &str) -> (r: bool)
    ensures
        r == (a@ == b@),
{
    let an = a.unicode_len();
    let bn = b.unicode_len();
    if an != bn {
        return false;
    }
    let mut i: usize = 0;
    while i < an
        invariant
            i <= an,
            an == a@.len(),
            bn == b@.len(),
            an == bn,
            forall|k: int| 0 <= k < i ==> a@[k] == b@[k],
        decreases an - i,
    {
        if a.get_char(i) != b.get_char(i) {
            return false;
        }
        i += 1;
    }
    proof {
        assert(a@ =~= b@);
    }
    true
}

fn keyword_lookup(text: &str) -> (r: Option<KeywordToken>)
    ensures
        r == keyword_of(text@),
{
    if str_eq(text, "if") {
        Some(KeywordToken::If)
    } else if str_eq(text, "else") {
        Some(KeywordToken::Else)
    } else if str_eq(text, "while") {
        Some(KeywordToken::While)
    } else if str_eq(text, "for") {
        Some(KeywordToken::For)
    } else if str_eq(text, "false") {
        Some(KeywordToken::False)
    } else if str_eq(text, "true") {
        Some(KeywordToken::True)
    } else if str_eq(text, "null") {
        Some(KeywordToken::Null)
    } else if str_eq(text, "return") {
        Some(KeywordToken::Return)
    } else {
        None
    }
}

// ===========================================================================
// The scanner
// ===========================================================================

impl Token {
    pub fn new(value: TokenType, column: usize, line: usize) -> (r: Self)
        ensures
            r@ == (TokenModel { line: line as int, column: column as int, value: value@ }),
    {
        Self { value, column, line }
    }
}

/// The character-level scanner: a cursor over the source text together with a
/// single-slot one-character pushback buffer for lookahead.
pub struct Lexer<'src> {
    code: &'src str,
    pos: usize,
    tokens: Vec<Token>,
    line_counter: usize,
    column_counter: usize,
    wait_tokenization: Option<char>,
}

impl<'src> Lexer<'src> {
    /// The source text being scanned.
    pub closed spec fn src(self) -> Seq<char> {
        self.code@
    }

    /// The index of the next character the scanner will deliver, accounting
    /// for a pending pushback.
    pub closed spec fn cur(self) -> int {
        self.pos - if self.wait_tokenization is Some {
            1int
        } else {
            0int
        }
    }

    /// The tokens produced so far.
    pub closed spec fn toks(self) -> Seq<TokenModel> {
        self.tokens.deep_view()
    }

    /// Internal consistency: the cursor is in bounds, a buffered character is
    /// exactly the last one consumed, and the position counters describe the
    /// consumed prefix.
    pub closed spec fn wf(self) -> bool {
        &&& self.src().len() < usize::MAX
        &&& self.pos <= self.src().len()
        &&& (match self.wait_tokenization {
            Some(c) => self.pos >= 1 && c == self.src()[self.pos as int - 1],
            None => true,
        })
        &&& self.line_counter == line_at(self.src(), self.pos as int)
        &&& self.column_counter == col_at(self.src(), self.pos as int)
    }

    pub fn new(source: &'src str) -> (r: Self)
        requires
            source@.len() < usize::MAX,
        ensures
            r.wf(),
            r.src() == source@,
            r.cur() == 0,
            r.toks() == Seq::<TokenModel>::empty(),
    {
        let r = Self {
            code: source,
            pos: 0,
            tokens: Vec::new(),
            line_counter: 1,
            column_counter: 0,
            wait_tokenization: None,
        };
        proof {
            assert(r.toks() =~= Seq::<TokenModel>::empty());
        }
        r
    }

    /// Deliver the next character: the buffered one if a pushback is pending,
    /// otherwise the next from the stream, advancing the position counters.
    fn next_char(&mut self) -> (r: Option<char>)
        requires
            old(self).wf(),
        ensures
            final(self).wf(),
            final(self).src() == old(self).src(),
            final(self).toks() == old(self).toks(),
            old(self).cur() < old(self).src().len() ==> r == Some(
                old(self).src()[old(self).cur()],
            ) && final(self).cur() == old(self).cur() + 1 && final(self).wait_tokenization is None,
            old(self).cur() == old(self).src().len() ==> r is None && *final(self) == *old(self),
    {
        if let Some(c) = self.wait_tokenization {
            self.wait_tokenization = None;
            Some(c)
        } else if self.pos < self.code.unicode_len() {
            let value = self.code.get_char(self.pos);
            proof {
                lemma_pos_bounds(self.src(), self.pos as int);
            }
            if value == '\n' {
                self.line_counter = self.line_counter + 1;
                self.column_counter = 0;
            } else {
                self.column_counter = self.column_counter + 1;
            }
            self.pos = self.pos + 1;
            Some(value)
        } else {
            None
        }
    }

    /// Push one character back. At most one character may be pending: pushing
    /// while another is buffered is an internal-consistency bug, excluded
    /// statically by the precondition. Only the character just consumed can
    /// be pushed back.
    fn set_next_char(&mut self, c: char)
        requires
            old(self).wf(),
            old(self).wait_tokenization is None,
            old(self).cur() >= 1,
            c == old(self).src()[old(self).cur() - 1],
        ensures
            final(self).wf(),
            final(self).src() == old(self).src(),
            final(self).toks() == old(self).toks(),
            final(self).cur() == old(self).cur() - 1,
            final(self).wait_tokenization is Some,
            final(self).line_counter == old(self).line_counter,
            final(self).column_counter == old(self).column_counter,
    {
        self.wait_tokenization = Some(c);
    }
}

} // verus!

verus! {

impl<'src> Lexer<'src> {
    /// Scan a comment: everything from the `#` through, but not including,
    /// the next newline or the end of input. The newline is pushed back so
    /// the next dispatch classifies it as an end-of-line marker.
    fn tokenize_comment(&mut self, c: char) -> (r: TokenType)
        requires
            old(self).wf(),
            old(self).wait_tokenization is None,
            old(self).cur() >= 1,
            old(self).src()[old(self).cur() - 1] == c,
        ensures
            final(self).wf(),
            final(self).src() == old(self).src(),
            final(self).toks() == old(self).toks(),
            final(self).cur() == comment_end(old(self).src(), old(self).cur()),
            r@ == TokenKindModel::Comment(
                old(self).src().subrange(
                    old(self).cur() - 1,
                    comment_end(old(self).src(), old(self).cur()),
                ),
            ),
    {
        let ghost s = self.src();
        let ghost i0 = self.cur();
        let ghost t0 = self.toks();
        let start = self.pos - 1;
        let mut stop = false;
        while !stop
            invariant
                self.wf(),
                self.src() == s,
                self.toks() == t0,
                i0 <= self.cur() <= s.len(),
                start == i0 - 1,
                !stop ==> self.wait_tokenization is None && comment_end(s, i0) == comment_end(
                    s,
                    self.cur(),
                ),
                stop ==> self.cur() == comment_end(s, i0),
            decreases s.len() - self.cur() + (if stop {
                0int
            } else {
                1int
            }),
        {
            match self.next_char() {
                Some(ch) => {
                    if ch == '\n' {
                        self.set_next_char(ch);
                        stop = true;
                    }
                },
                None => {
                    stop = true;
                },
            }
        }
        let end = if self.wait_tokenization.is_some() {
            self.pos - 1
        } else {
            self.pos
        };
        let text = self.code.substring_char(start, end);
        TokenType::Comment(String::from_str(text))
    }

    /// Scan a number literal: the starting digit followed greedily by digits
    /// and underscores; the first other character is pushed back.
    fn tokenize_number(&mut self, value: char) -> (r: TokenType)
        requires
            old(self).wf(),
            old(self).wait_tokenization is None,
            old(self).cur() >= 1,
            old(self).src()[old(self).cur() - 1] == value,
        ensures
            final(self).wf(),
            final(self).src() == old(self).src(),
            final(self).toks() == old(self).toks(),
            final(self).cur() == number_end(old(self).src(), old(self).cur()),
            r@ == TokenKindModel::NumberLiteral(
                old(self).src().subrange(
                    old(self).cur() - 1,
                    number_end(old(self).src(), old(self).cur()),
                ),
            ),
    {
        let ghost s = self.src();
        let ghost i0 = self.cur();
        let ghost t0 = self.toks();
        let start = self.pos - 1;
        let mut stop = false;
        while !stop
            invariant
                self.wf(),
                self.src() == s,
                self.toks() == t0,
                i0 <= self.cur() <= s.len(),
                start == i0 - 1,
                !stop ==> self.wait_tokenization is None && number_end(s, i0) == number_end(
                    s,
                    self.cur(),
                ),
                stop ==> self.cur() == number_end(s, i0),
            decreases s.len() - self.cur() + (if stop {
                0int
            } else {
                1int
            }),
        {
            match self.next_char() {
                Some(ch) => {
                    if digit_char(ch) || ch == '_' {
                    } else {
                        self.set_next_char(ch);
                        stop = true;
                    }
                },
                None => {
                    stop = true;
                },
            }
        }
        let end = if self.wait_tokenization.is_some() {
            self.pos - 1
        } else {
            self.pos
        };
        let text = self.code.substring_char(start, end);
        TokenType::NumberLiteral(String::from_str(text))
    }

    /// Scan a string literal: raw characters up to the closing quote, which
    /// is consumed but excluded from the stored text. Reaching the end of
    /// input first is the fatal unterminated-string error.
    fn tokenize_string(&mut self, _value: char) -> (r: Result<TokenType, LexErrorKind>)
        requires
            old(self).wf(),
            old(self).wait_tokenization is None,
        ensures
            final(self).wf(),
            final(self).src() == old(self).src(),
            final(self).toks() == old(self).toks(),
            quote_end(old(self).src(), old(self).cur()) == old(self).src().len() ==> r == Err::<
                TokenType,
                LexErrorKind,
            >(LexErrorKind::UnterminatedString),
            quote_end(old(self).src(), old(self).cur()) < old(self).src().len() ==> final(self).cur()
                == quote_end(old(self).src(), old(self).cur()) + 1 && (r matches Ok(t)
                && t@ == TokenKindModel::StringLiteral(
                old(self).src().subrange(
                    old(self).cur(),
                    quote_end(old(self).src(), old(self).cur()),
                ),
            )),
    {
        let ghost s = self.src();
        let ghost i0 = self.cur();
        let ghost t0 = self.toks();
        proof {
            lemma_quote_end_bounds(s, i0);
        }
        let start = self.pos;
        let mut stop = false;
        let mut closed = false;
        while !stop
            invariant
                self.wf(),
                self.src() == s,
                self.toks() == t0,
                0 <= i0 <= self.cur() <= s.len(),
                start == i0,
                !stop ==> self.wait_tokenization is None && !closed && quote_end(s, i0)
                    == quote_end(s, self.cur()),
                stop && closed ==> self.wait_tokenization is None && quote_end(s, i0) < s.len()
                    && self.cur() == quote_end(s, i0) + 1,
                stop && !closed ==> self.cur() == s.len() && quote_end(s, i0) == s.len(),
            decreases s.len() - self.cur() + (if stop {
                0int
            } else {
                1int
            }),
        {
            match self.next_char() {
                Some(ch) => {
                    if ch == '"' {
                        stop = true;
                        closed = true;
                    }
                },
                None => {
                    stop = true;
                },
            }
        }
        if closed {
            let end = self.pos - 1;
            let text = self.code.substring_char(start, end);
            Ok(TokenType::StringLiteral(String::from_str(text)))
        } else {
            Err(LexErrorKind::UnterminatedString)
        }
    }

    /// Scan a name: the starting character followed greedily by name
    /// characters; the terminator is pushed back. The accumulated text is
    /// then reclassified as a keyword on an exact match against the reserved
    /// word list, and is an identifier otherwise.
    fn tokenize_name(&mut self, c: char) -> (r: TokenType)
        requires
            old(self).wf(),
            old(self).wait_tokenization is None,
            old(self).cur() >= 1,
            old(self).src()[old(self).cur() - 1] == c,
        ensures
            final(self).wf(),
            final(self).src() == old(self).src(),
            final(self).toks() == old(self).toks(),
            final(self).cur() == name_end(old(self).src(), old(self).cur()),
            r@ == name_kind(
                old(self).src().subrange(
                    old(self).cur() - 1,
                    name_end(old(self).src(), old(self).cur()),
                ),
            ),
    {
        let ghost s = self.src();
        let ghost i0 = self.cur();
        let ghost t0 = self.toks();
        let start = self.pos - 1;
        let mut stop = false;
        while !stop
            invariant
                self.wf(),
                self.src() == s,
                self.toks() == t0,
                i0 <= self.cur() <= s.len(),
                start == i0 - 1,
                !stop ==> self.wait_tokenization is None && name_end(s, i0) == name_end(
                    s,
                    self.cur(),
                ),
                stop ==> self.cur() == name_end(s, i0),
            decreases s.len() - self.cur() + (if stop {
                0int
            } else {
                1int
            }),
        {
            match self.next_char() {
                Some(ch) => {
                    if name_char(ch) {
                    } else {
                        self.set_next_char(ch);
                        stop = true;
                    }
                },
                None => {
                    stop = true;
                },
            }
        }
        let end = if self.wait_tokenization.is_some() {
            self.pos - 1
        } else {
            self.pos
        };
        let text = self.code.substring_char(start, end);
        match keyword_lookup(text) {
            Some(k) => TokenType::Keyword(k),
            None => TokenType::Identifier(String::from_str(text)),
        }
    }

    /// Resolve an operator that may be followed by `=`: read one character of
    /// lookahead; anything other than `=` is pushed back.
    fn tokenize_op_with_eq(&mut self, op: OperatorToken, op_eq: OperatorToken) -> (r: TokenType)
        requires
            old(self).wf(),
            old(self).wait_tokenization is None,
        ensures
            final(self).wf(),
            final(self).src() == old(self).src(),
            final(self).toks() == old(self).toks(),
            ({
                let (kind, j) = op_with_eq(old(self).src(), old(self).cur(), op, op_eq);
                r@ == kind && final(self).cur() == j
            }),
    {
        let res = if let Some(value) = self.next_char() {
            if value == '=' {
                op_eq
            } else {
                self.set_next_char(value);
                op
            }
        } else {
            op
        };
        TokenType::Operator(res)
    }

    /// Dispatch a punctuation character to its bracket or operator token,
    /// with one character of lookahead for `=`-compounds and up to two for
    /// the dot family. Unmapped punctuation is the fatal unknown-operation
    /// error.
    fn tokenize_operation(&mut self, c: char) -> (r: Result<TokenType, LexErrorKind>)
        requires
            old(self).wf(),
            old(self).wait_tokenization is None,
            old(self).cur() >= 1,
            old(self).src()[old(self).cur() - 1] == c,
        ensures
            final(self).wf(),
            final(self).src() == old(self).src(),
            final(self).toks() == old(self).toks(),
            match spec_operation(old(self).src(), old(self).cur() - 1) {
                Some((kind, j)) => r matches Ok(t) && t@ == kind && final(self).cur() == j,
                None => r == Err::<TokenType, LexErrorKind>(LexErrorKind::UnknownOperation)
                    && final(self).cur() == old(self).cur(),
            },
    {
        match c {
            '(' => Ok(TokenType::Bracket(BracketToken::OpenParenthesis)),
            ')' => Ok(TokenType::Bracket(BracketToken::CloseParenthesis)),
            '[' => Ok(TokenType::Bracket(BracketToken::OpenSquare)),
            ']' => Ok(TokenType::Bracket(BracketToken::CloseSquare)),
            '{' => Ok(TokenType::Bracket(BracketToken::OpenCurly)),
            '}' => Ok(TokenType::Bracket(BracketToken::CloseCurly)),
            '+' => Ok(self.tokenize_op_with_eq(OperatorToken::Plus, OperatorToken::PlusEquals)),
            '-' => Ok(self.tokenize_op_with_eq(OperatorToken::Minus, OperatorToken::MinusEquals)),
            '*' => Ok(
                self.tokenize_op_with_eq(OperatorToken::Asterisk, OperatorToken::AsteriskEquals),
            ),
            '/' => Ok(self.tokenize_op_with_eq(OperatorToken::Slash, OperatorToken::SlashEquals)),
            '%' => Ok(
                self.tokenize_op_with_eq(OperatorToken::Percent, OperatorToken::PercentEquals),
            ),
            '>' => Ok(self.tokenize_op_with_eq(OperatorToken::Gt, OperatorToken::Ge)),
            '<' => Ok(self.tokenize_op_with_eq(OperatorToken::Lt, OperatorToken::Le)),
            '!' => Ok(self.tokenize_op_with_eq(OperatorToken::ExclamationMark, OperatorToken::Ne)),
            '=' => Ok(self.tokenize_op_with_eq(OperatorToken::Equals, OperatorToken::Eq)),
            ',' => Ok(TokenType::Operator(OperatorToken::Comma)),
            ':' => Ok(TokenType::Operator(OperatorToken::Colon)),
            '.' => {
                if let Some(value) = self.next_char() {
                    if value == '.' {
                        if let Some(value2) = self.next_char() {
                            if value2 == '.' {
                                Ok(TokenType::Operator(OperatorToken::TripleDot))
                            } else {
                                self.set_next_char(value2);
                                Ok(TokenType::Operator(OperatorToken::DoubleDot))
                            }
                        } else {
                            Ok(TokenType::Operator(OperatorToken::DoubleDot))
                        }
                    } else {
                        self.set_next_char(value);
                        Ok(TokenType::Operator(OperatorToken::Dot))
                    }
                } else {
                    Ok(TokenType::Operator(OperatorToken::Dot))
                }
            },
            _ => Err(LexErrorKind::UnknownOperation),
        }
    }
}

} // verus!

verus! {

impl<'src> Lexer<'src> {
    /// Run the scanner over the whole source: the token sequence in source
    /// order, or the first fatal error with the 1-based line and column of
    /// the offending character. No partial token sequence is returned.
    pub fn tokenize(&mut self) -> (r: Result<Vec<Token>, LexError>)
        requires
            old(self).wf(),
        ensures
            final(self).wf(),
            match r {
                Ok(ts) => spec_tokenize_from(old(self).src(), old(self).cur(), old(self).toks())
                    == Ok::<Seq<TokenModel>, LexError>(ts.deep_view()),
                Err(e) => spec_tokenize_from(old(self).src(), old(self).cur(), old(self).toks())
                    == Err::<Seq<TokenModel>, LexError>(e),
            },
    {
        let ghost s = self.src();
        let ghost goal = spec_tokenize_from(self.src(), self.cur(), self.toks());
                loop
            invariant
                self.wf(),
                self.src() == s,
                s == old(self).src(),
                0 <= self.cur() <= s.len(),
                goal == spec_tokenize_from(s, self.cur(), self.toks()),
                goal == spec_tokenize_from(
                    old(self).src(),
                    old(self).cur(),
                    old(self).toks(),
                ),
            decreases s.len() - self.cur(),
        {
            let ghost i = self.cur();
            let ghost tprev = self.toks();
            match self.next_char() {
                Some(symbol) => {
                    let l = self.line_counter;
                    let c = self.column_counter;
                    proof {
                        lemma_pos_bounds(s, i + 1);
                        lemma_comment_end_bounds(s, i + 1);
                        lemma_quote_end_bounds(s, i + 1);
                        lemma_number_end_bounds(s, i + 1);
                        lemma_name_end_bounds(s, i + 1);
                    }
                    if symbol == '#' {
                        let tt = self.tokenize_comment(symbol);
                        self.tokens.push(Token::new(tt, c, l));
                        proof {
                            assert(self.toks() =~= tprev.push(token_at(s, i, tt@)));
                        }
                    } else if symbol == '"' {
                        match self.tokenize_string(symbol) {
                            Ok(tt) => {
                                self.tokens.push(Token::new(tt, c, l));
                                proof {
                                    assert(self.toks() =~= tprev.push(token_at(s, i, tt@)));
                                }
                            },
                            Err(kind) => {
                                return Err(LexError { kind, line: l, column: c });
                            },
                        }
                    } else if symbol == '\n' || symbol == ';' {
                        let n = self.tokens.len();
                        let last_is_el = n > 0 && matches!(self.tokens[n - 1].value, TokenType::EL);
                        proof {
                            if n > 0 {
                                assert(tprev[n - 1] == self.tokens@[n as int - 1].deep_view());
                            }
                        }
                        if !last_is_el {
                            self.tokens.push(Token::new(TokenType::EL, c, l));
                            proof {
                                assert(self.toks() =~= tprev.push(
                                    token_at(s, i, TokenKindModel::EL),
                                ));
                            }
                        }
                    } else if digit_char(symbol) {
                        let tt = self.tokenize_number(symbol);
                        self.tokens.push(Token::new(tt, c, l));
                        proof {
                            assert(self.toks() =~= tprev.push(token_at(s, i, tt@)));
                        }
                    } else if ascii_ws_char(symbol) {
                        // produces no token
                    } else if punct_char(symbol) {
                        match self.tokenize_operation(symbol) {
                            Ok(tt) => {
                                self.tokens.push(Token::new(tt, c, l));
                                proof {
                                    assert(self.toks() =~= tprev.push(token_at(s, i, tt@)));
                                }
                            },
                            Err(kind) => {
                                return Err(LexError { kind, line: l, column: c });
                            },
                        }
                    } else {
                        let tt = self.tokenize_name(symbol);
                        self.tokens.push(Token::new(tt, c, l));
                        proof {
                            assert(self.toks() =~= tprev.push(token_at(s, i, tt@)));
                        }
                    }
                },
                None => {
                    let n = self.tokens.len();
                    let last_is_el = n > 0 && matches!(self.tokens[n - 1].value, TokenType::EL);
                    proof {
                        if n > 0 {
                            assert(tprev[n - 1] == self.tokens@[n as int - 1].deep_view());
                        }
                    }
                    if n > 0 && !last_is_el {
                        let el = Token::new(TokenType::EL, self.column_counter, self.line_counter);
                        self.tokens.push(el);
                        proof {
                            assert(self.toks() =~= tprev.push(
                                TokenModel {
                                    line: line_at(s, s.len() as int),
                                    column: col_at(s, s.len() as int),
                                    value: TokenKindModel::EL,
                                },
                            ));
                        }
                    }
                    let mut out: Vec<Token> = Vec::new();
                    core::mem::swap(&mut out, &mut self.tokens);
                    return Ok(out);
                },
            }
        }
    }
}

} // verus!

verus! {

// ===========================================================================
// Laws of the tokenizer
// ===========================================================================

/// No two adjacent tokens are both end-of-line markers.
pub open spec fn no_adjacent_el(r: Seq<TokenModel>) -> bool {
    forall|k: int| 0 <= k < r.len() - 1 ==> !((#[trigger] r[k]).value is EL && r[k + 1].value is EL)
}

proof fn lemma_push_no_adj(acc: Seq<TokenModel>, t: TokenModel)
    requires
        no_adjacent_el(acc),
        !(t.value is EL) || acc.len() == 0 || !(acc.last().value is EL),
    ensures
        no_adjacent_el(acc.push(t)),
{
    let r = acc.push(t);
    assert forall|k: int| 0 <= k < r.len() - 1 implies !((#[trigger] r[k]).value is EL && r[k
        + 1].value is EL) by {
        if k + 1 < acc.len() {
            assert(r[k] == acc[k]);
            assert(r[k + 1] == acc[k + 1]);
        } else {
            assert(r[k] == acc[k]);
            assert(r[k + 1] == t);
            assert(acc[k] == acc.last());
        }
    }
}

proof fn lemma_no_adjacent_el_from(s: Seq<char>, i: int, acc: Seq<TokenModel>)
    requires
        0 <= i <= s.len(),
        no_adjacent_el(acc),
    ensures
        spec_tokenize_from(s, i, acc) matches Ok(r) ==> no_adjacent_el(r),
    decreases s.len() - i,
{
    if i == s.len() {
        if acc.len() > 0 && !(acc.last().value is EL) {
            lemma_push_no_adj(
                acc,
                TokenModel { line: line_at(s, i), column: col_at(s, i), value: TokenKindModel::EL },
            );
        }
    } else {
        let c = s[i];
        lemma_comment_end_bounds(s, i + 1);
        lemma_quote_end_bounds(s, i + 1);
        lemma_number_end_bounds(s, i + 1);
        lemma_name_end_bounds(s, i + 1);
        if c == '#' {
            let j = comment_end(s, i + 1);
            let t = token_at(s, i, TokenKindModel::Comment(s.subrange(i, j)));
            lemma_push_no_adj(acc, t);
            lemma_no_adjacent_el_from(s, j, acc.push(t));
        } else if c == '"' {
            let j = quote_end(s, i + 1);
            if j < s.len() {
                let t = token_at(s, i, TokenKindModel::StringLiteral(s.subrange(i + 1, j)));
                lemma_push_no_adj(acc, t);
                lemma_no_adjacent_el_from(s, j + 1, acc.push(t));
            }
        } else if c == '\n' || c == ';' {
            if acc.len() > 0 && acc.last().value is EL {
                lemma_no_adjacent_el_from(s, i + 1, acc);
            } else {
                let t = token_at(s, i, TokenKindModel::EL);
                lemma_push_no_adj(acc, t);
                lemma_no_adjacent_el_from(s, i + 1, acc.push(t));
            }
        } else if is_digit(c) {
            let j = number_end(s, i + 1);
            let t = token_at(s, i, TokenKindModel::NumberLiteral(s.subrange(i, j)));
            lemma_push_no_adj(acc, t);
            lemma_no_adjacent_el_from(s, j, acc.push(t));
        } else if is_ascii_ws(c) {
            lemma_no_adjacent_el_from(s, i + 1, acc);
        } else if is_punct(c) {
            match spec_operation(s, i) {
                Some((kind, j)) => {
                    let t = token_at(s, i, kind);
                    lemma_push_no_adj(acc, t);
                    lemma_no_adjacent_el_from(s, j, acc.push(t));
                },
                None => {},
            }
        } else {
            let j = name_end(s, i + 1);
            let t = token_at(s, i, name_kind(s.subrange(i, j)));
            lemma_push_no_adj(acc, t);
            lemma_no_adjacent_el_from(s, j, acc.push(t));
        }
    }
}

/// In every token sequence the tokenizer returns, no two adjacent tokens are
/// both end-of-line markers: runs of blank lines and separators collapse.
pub proof fn lemma_no_adjacent_el(s: Seq<char>)
    ensures
        spec_tokenize(s) matches Ok(r) ==> no_adjacent_el(r),
{
    lemma_no_adjacent_el_from(s, 0, Seq::empty());
}

proof fn lemma_ws_only_from(s: Seq<char>, i: int, acc: Seq<TokenModel>)
    requires
        0 <= i <= s.len(),
        forall|k: int| i <= k < s.len() ==> is_ascii_ws(s[k]),
        acc.len() == 0 || acc.last().value is EL,
    ensures
        spec_tokenize_from(s, i, acc) is Ok,
        acc.len() > 0 ==> spec_tokenize_from(s, i, acc) == Ok::<Seq<TokenModel>, LexError>(acc),
        acc.len() == 0 ==> spec_tokenize_from(s, i, acc)->Ok_0.len() <= 1 && (forall|k: int|
            0 <= k < spec_tokenize_from(s, i, acc)->Ok_0.len() ==> spec_tokenize_from(
                s,
                i,
                acc,
            )->Ok_0[k].value is EL),
    decreases s.len() - i,
{
    if i == s.len() {
    } else {
        let c = s[i];
        assert(is_ascii_ws(c));
        if c == '\n' {
            if acc.len() > 0 && acc.last().value is EL {
                lemma_ws_only_from(s, i + 1, acc);
            } else {
                let t = token_at(s, i, TokenKindModel::EL);
                lemma_ws_only_from(s, i + 1, acc.push(t));
            }
        } else {
            lemma_ws_only_from(s, i + 1, acc);
        }
    }
}

/// Tokenizing input that is only ASCII whitespace yields either nothing or a
/// single end-of-line marker, never more.
pub proof fn lemma_whitespace_only(s: Seq<char>)
    requires
        forall|k: int| 0 <= k < s.len() ==> is_ascii_ws(s[k]),
    ensures
        spec_tokenize(s) is Ok,
        spec_tokenize(s)->Ok_0.len() <= 1,
        forall|k: int| 0 <= k < spec_tokenize(s)->Ok_0.len() ==> spec_tokenize(s)->Ok_0[k].value
            is EL,
{
    lemma_ws_only_from(s, 0, Seq::empty());
}

} // verus!
