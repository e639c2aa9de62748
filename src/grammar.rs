//! How source text divides into lexemes, stated as spec functions over the
//! source as a sequence of characters.
use vstd::prelude::*;
use crate::token::{LiteralView, TokenType, TokenView};

verus! {

/// The kinds of malformed input that the scanner reports and skips.
#[derive(Debug, Clone, Copy, PartialEq, Eq, Structural)]
pub enum ErrorKind {
    UnexpectedCharacter,
    UnterminatedString,
    UnterminatedBlockComment,
}

/// A diagnostic: what went wrong, and the line the scanner was on.
#[derive(Debug, Clone, Copy, PartialEq, Eq, Structural)]
pub struct ScanError {
    pub kind: ErrorKind,
    pub line: usize,
}

impl ErrorKind {
    /// The human-readable text of the diagnostic.
    pub fn message(&self) -> (r: &'static str)
        ensures
            r@ == match self {
                ErrorKind::UnexpectedCharacter => "Unexpected character"@,
                ErrorKind::UnterminatedString => "Unterminated string"@,
                ErrorKind::UnterminatedBlockComment => "Unterminated block comment"@,
            },
    {
        match self {
            ErrorKind::UnexpectedCharacter => "Unexpected character",
            ErrorKind::UnterminatedString => "Unterminated string",
            ErrorKind::UnterminatedBlockComment => "Unterminated block comment",
        }
    }
}

pub open spec fn is_digit(c: char) -> bool {
    '0' <= c && c <= '9'
}

pub open spec fn is_alpha(c: char) -> bool {
    ('a' <= c && c <= 'z') || ('A' <= c && c <= 'Z') || c == '_'
}

pub open spec fn is_alnum(c: char) -> bool {
    is_digit(c) || is_alpha(c)
}

/// Whether position `i` of `src` holds the character `c`.
pub open spec fn char_at(src: Seq<char>, i: int, c: char) -> bool {
    0 <= i < src.len() && src[i] == c
}

/// The number of newline characters in `s`.
pub open spec fn newlines(s: Seq<char>) -> nat
    decreases s.len(),
{
    if s.len() == 0 {
        0
    } else {
        newlines(s.drop_last()) + if s.last() == '\n' {
            1nat
        } else {
            0nat
        }
    }
}

/// The 1-based line on which position `i` of `src` lies.
pub open spec fn line_at(src: Seq<char>, i: int) -> nat {
    1 + newlines(src.subrange(0, i))
}

/// The end of the run of digits that starts at `i`.
pub open spec fn digits_end(src: Seq<char>, i: int) -> int
    decreases src.len() - i,
{
    if 0 <= i < src.len() && is_digit(src[i]) {
        digits_end(src, i + 1)
    } else {
        i
    }
}

/// The end of the run of letters, digits and underscores that starts at `i`.
pub open spec fn word_end(src: Seq<char>, i: int) -> int
    decreases src.len() - i,
{
    if 0 <= i < src.len() && is_alnum(src[i]) {
        word_end(src, i + 1)
    } else {
        i
    }
}

/// The first position at or after `i` that holds `c`, or the end of `src`.
pub open spec fn find_from(src: Seq<char>, i: int, c: char) -> int
    decreases src.len() - i,
{
    if 0 <= i < src.len() && src[i] != c {
        find_from(src, i + 1, c)
    } else {
        i
    }
}

/// Where a block comment whose body continues at `i`, opened `depth` levels
/// deep, ends; and whether it is closed there. `/*` opens one level more and
/// `*/` closes one, so comments nest like parentheses.
pub open spec fn comment_scan(src: Seq<char>, i: int, depth: nat) -> (int, bool)
    decreases src.len() - i,
{
    if depth == 0 {
        (i, true)
    } else if i < 0 || i >= src.len() {
        (i, false)
    } else if char_at(src, i, '/') && char_at(src, i + 1, '*') {
        comment_scan(src, i + 2, depth + 1)
    } else if char_at(src, i, '*') && char_at(src, i + 1, '/') {
        comment_scan(src, i + 2, (depth - 1) as nat)
    } else {
        comment_scan(src, i + 1, depth)
    }
}

/// The token kind of a single-character token, if `c` is one.
pub open spec fn single_kind(c: char) -> Option<TokenType> {
    if c == '(' {
        Some(TokenType::LeftParen)
    } else if c == ')' {
        Some(TokenType::RightParen)
    } else if c == '{' {
        Some(TokenType::LeftBrace)
    } else if c == '}' {
        Some(TokenType::RightBrace)
    } else if c == ',' {
        Some(TokenType::Comma)
    } else if c == '.' {
        Some(TokenType::Dot)
    } else if c == '-' {
        Some(TokenType::Minus)
    } else if c == '+' {
        Some(TokenType::Plus)
    } else if c == ';' {
        Some(TokenType::Semicolon)
    } else if c == '*' {
        Some(TokenType::Star)
    } else {
        None
    }
}

/// For `!`, `=`, `<` and `>`: the kinds of the one- and two-character
/// tokens (the latter with a following `=`).
pub open spec fn operator_kinds(c: char) -> Option<(TokenType, TokenType)> {
    if c == '!' {
        Some((TokenType::Bang, TokenType::BangEqual))
    } else if c == '=' {
        Some((TokenType::Equal, TokenType::EqualEqual))
    } else if c == '<' {
        Some((TokenType::Less, TokenType::LessEqual))
    } else if c == '>' {
        Some((TokenType::Greater, TokenType::GreaterEqual))
    } else {
        None
    }
}

/// The kind of a word: its keyword kind, or `Identifier`.
pub open spec fn keyword_kind(w: Seq<char>) -> TokenType {
    if w == seq!['a', 'n', 'd'] {
        TokenType::And
    } else if w == seq!['c', 'l', 'a', 's', 's'] {
        TokenType::Class
    } else if w == seq!['e', 'l', 's', 'e'] {
        TokenType::Else
    } else if w == seq!['f', 'a', 'l', 's', 'e'] {
        TokenType::False
    } else if w == seq!['f', 'u', 'n'] {
        TokenType::Fun
    } else if w == seq!['f', 'o', 'r'] {
        TokenType::For
    } else if w == seq!['i', 'f'] {
        TokenType::If
    } else if w == seq!['n', 'i', 'l'] {
        TokenType::Nil
    } else if w == seq!['o', 'r'] {
        TokenType::Or
    } else if w == seq!['p', 'r', 'i', 'n', 't'] {
        TokenType::Print
    } else if w == seq!['r', 'e', 't', 'u', 'r', 'n'] {
        TokenType::Return
    } else if w == seq!['s', 'u', 'p', 'e', 'r'] {
        TokenType::Super
    } else if w == seq!['t', 'h', 'i', 's'] {
        TokenType::This
    } else if w == seq!['t', 'r', 'u', 'e'] {
        TokenType::True
    } else if w == seq!['v', 'a', 'r'] {
        TokenType::Var
    } else if w == seq!['w', 'h', 'i', 'l', 'e'] {
        TokenType::While
    } else {
        TokenType::Identifier
    }
}

/// The decoded value of a token of kind `kind` read from `lexeme`.
pub open spec fn literal_of(kind: TokenType, lexeme: Seq<char>) -> Option<LiteralView> {
    match kind {
        TokenType::String => Some(LiteralView::Str(lexeme.subrange(1, lexeme.len() - 1))),
        TokenType::Number => Some(LiteralView::Number(lexeme)),
        TokenType::True => Some(LiteralView::Bool(true)),
        TokenType::False => Some(LiteralView::Bool(false)),
        TokenType::Nil => Some(LiteralView::Nil),
        _ => None,
    }
}

/// The outcome of reading one lexeme: where it ends, the kind of token it
/// yields (none for whitespace, comments and malformed input), and the
/// error it reports, if any.
pub struct Step {
    pub end: int,
    pub kind: Option<TokenType>,
    pub error: Option<ErrorKind>,
}

pub open spec fn emit(end: int, kind: TokenType) -> Step {
    Step { end, kind: Some(kind), error: None }
}

pub open spec fn skip(end: int) -> Step {
    Step { end, kind: None, error: None }
}

pub open spec fn fail(end: int, error: ErrorKind) -> Step {
    Step { end, kind: None, error: Some(error) }
}

/// The lexeme that starts at position `s` of `src`.
pub open spec fn step(src: Seq<char>, s: int) -> Step {
    let c = src[s];
    if single_kind(c) is Some {
        emit(s + 1, single_kind(c)->0)
    } else if operator_kinds(c) is Some {
        let (one, two) = operator_kinds(c)->0;
        if char_at(src, s + 1, '=') {
            emit(s + 2, two)
        } else {
            emit(s + 1, one)
        }
    } else if c == '/' {
        if char_at(src, s + 1, '/') {
            skip(find_from(src, s + 2, '\n'))
        } else if char_at(src, s + 1, '*') {
            let (end, closed) = comment_scan(src, s + 2, 1);
            if closed {
                skip(end)
            } else {
                fail(end, ErrorKind::UnterminatedBlockComment)
            }
        } else {
            emit(s + 1, TokenType::Slash)
        }
    } else if c == ' ' || c == '\r' || c == '\t' || c == '\n' {
        skip(s + 1)
    } else if c == '"' {
        let close = find_from(src, s + 1, '"');
        if close < src.len() {
            emit(close + 1, TokenType::String)
        } else {
            fail(close, ErrorKind::UnterminatedString)
        }
    } else if is_digit(c) {
        let whole = digits_end(src, s + 1);
        if char_at(src, whole, '.') && whole + 1 < src.len() && is_digit(src[whole + 1]) {
            emit(digits_end(src, whole + 1), TokenType::Number)
        } else {
            emit(whole, TokenType::Number)
        }
    } else if is_alpha(c) {
        let end = word_end(src, s + 1);
        emit(end, keyword_kind(src.subrange(s, end)))
    } else {
        fail(s + 1, ErrorKind::UnexpectedCharacter)
    }
}

/// The token read from positions `s` to `e` of `src`.
pub open spec fn token_at(src: Seq<char>, s: int, e: int, kind: TokenType) -> TokenView {
    let lexeme = src.subrange(s, e);
    TokenView { kind, lexeme, literal: literal_of(kind, lexeme), line: line_at(src, s) }
}

/// The token, if any, that the lexeme starting at `s` yields.
pub open spec fn step_tokens(src: Seq<char>, s: int) -> Seq<TokenView> {
    let st = step(src, s);
    match st.kind {
        Some(k) => seq![token_at(src, s, st.end, k)],
        None => seq![],
    }
}

/// The diagnostic, if any, that the lexeme starting at `s` reports: it
/// carries the line on which the lexeme ends.
pub open spec fn step_errors(src: Seq<char>, s: int) -> Seq<ScanError> {
    let st = step(src, s);
    match st.error {
        Some(e) => seq![ScanError { kind: e, line: line_at(src, st.end) as usize }],
        None => seq![],
    }
}

/// The tokens read from position `pos` to the end of `src`.
pub open spec fn tokens_from(src: Seq<char>, pos: int) -> Seq<TokenView>
    decreases src.len() - pos,
{
    if 0 <= pos < src.len() {
        proof {
            lemma_step_bounds(src, pos);
        }
        step_tokens(src, pos) + tokens_from(src, step(src, pos).end)
    } else {
        seq![]
    }
}

/// The diagnostics reported from position `pos` to the end of `src`.
pub open spec fn errors_from(src: Seq<char>, pos: int) -> Seq<ScanError>
    decreases src.len() - pos,
{
    if 0 <= pos < src.len() {
        proof {
            lemma_step_bounds(src, pos);
        }
        step_errors(src, pos) + errors_from(src, step(src, pos).end)
    } else {
        seq![]
    }
}

/// The end-of-input token of `src`.
pub open spec fn eof_token(src: Seq<char>) -> TokenView {
    TokenView {
        kind: TokenType::Eof,
        lexeme: seq![],
        literal: None,
        line: line_at(src, src.len() as int),
    }
}

/// All tokens of `src`, ending with the end-of-input token.
pub open spec fn scanned(src: Seq<char>) -> Seq<TokenView> {
    tokens_from(src, 0).push(eof_token(src))
}

/// All diagnostics of `src`, in order.
pub open spec fn diagnostics(src: Seq<char>) -> Seq<ScanError> {
    errors_from(src, 0)
}

pub proof fn lemma_newlines_bound(s: Seq<char>)
    ensures
        newlines(s) <= s.len(),
    decreases s.len(),
{
    if s.len() > 0 {
        lemma_newlines_bound(s.drop_last());
    }
}

/// Reading one more character moves to the next line exactly on a newline.
pub proof fn lemma_line_step(src: Seq<char>, i: int)
    requires
        0 <= i < src.len(),
    ensures
        line_at(src, i + 1) == line_at(src, i) + if src[i] == '\n' {
            1nat
        } else {
            0nat
        },
        line_at(src, i) <= i + 1,
        line_at(src, i + 1) <= i + 2,
{
    assert(src.subrange(0, i + 1).drop_last() =~= src.subrange(0, i));
    lemma_newlines_bound(src.subrange(0, i));
}

pub proof fn lemma_digits_end(src: Seq<char>, i: int)
    requires
        0 <= i <= src.len(),
    ensures
        i <= digits_end(src, i) <= src.len(),
    decreases src.len() - i,
{
    if i < src.len() && is_digit(src[i]) {
        lemma_digits_end(src, i + 1);
    }
}

pub proof fn lemma_word_end(src: Seq<char>, i: int)
    requires
        0 <= i <= src.len(),
    ensures
        i <= word_end(src, i) <= src.len(),
    decreases src.len() - i,
{
    if i < src.len() && is_alnum(src[i]) {
        lemma_word_end(src, i + 1);
    }
}

pub proof fn lemma_find_from(src: Seq<char>, i: int, c: char)
    requires
        0 <= i <= src.len(),
    ensures
        i <= find_from(src, i, c) <= src.len(),
        find_from(src, i, c) < src.len() ==> src[find_from(src, i, c)] == c,
    decreases src.len() - i,
{
    if i < src.len() && src[i] != c {
        lemma_find_from(src, i + 1, c);
    }
}

pub proof fn lemma_comment_scan(src: Seq<char>, i: int, depth: nat)
    requires
        0 <= i <= src.len(),
    ensures
        i <= comment_scan(src, i, depth).0 <= src.len(),
        !comment_scan(src, i, depth).1 ==> comment_scan(src, i, depth).0 == src.len(),
    decreases src.len() - i,
{
    if depth == 0 || i >= src.len() {
    } else if char_at(src, i, '/') && char_at(src, i + 1, '*') {
        lemma_comment_scan(src, i + 2, depth + 1);
    } else if char_at(src, i, '*') && char_at(src, i + 1, '/') {
        lemma_comment_scan(src, i + 2, (depth - 1) as nat);
    } else {
        lemma_comment_scan(src, i + 1, depth);
    }
}

/// Every lexeme is non-empty and lies within the source.
pub proof fn lemma_step_bounds(src: Seq<char>, s: int)
    requires
        0 <= s < src.len(),
    ensures
        s < step(src, s).end <= src.len(),
{
    lemma_digits_end(src, s + 1);
    lemma_word_end(src, s + 1);
    lemma_find_from(src, s + 1, '"');
    if s + 2 <= src.len() {
        lemma_comment_scan(src, s + 2, 1);
        lemma_find_from(src, s + 2, '\n');
    }
    let whole = digits_end(src, s + 1);
    if whole + 1 < src.len() {
        lemma_digits_end(src, whole + 1);
    }
}

} // verus!
