//! The scanner: one pass over the source that yields its tokens and
//! diagnostics, as `grammar` describes them.
use vstd::prelude::*;
use crate::grammar::{
    char_at, comment_scan, digits_end, eof_token, errors_from, find_from, is_alpha, is_digit,
    keyword_kind, lemma_comment_scan, lemma_line_step, lemma_step_bounds, line_at, literal_of,
    operator_kinds, single_kind, step, step_errors, step_tokens, token_at, tokens_from, word_end,
    ErrorKind, ScanError,
};
use crate::token::{literal_view, token_views, Literal, Token, TokenType, TokenView};

verus! {

/// Relies on `str::chars`, collected into a `Vec`: the characters of `s`, in order.
#[verifier::external_body]
fn chars_of(s: &str) -> (r: Vec<char>)
    ensures
        r@ == s@,
{
    s.chars().collect()
}

/// Relies on `String`'s `FromIterator<char>`: the string of exactly these characters.
#[verifier::external_body]
fn string_of(cs: Vec<char>) -> (r: String)
    ensures
        r@ == cs@,
{
    String::from_iter(cs)
}

fn is_digit_char(c: char) -> (r: bool)
    ensures
        r == is_digit(c),
{
    '0' <= c && c <= '9'
}

fn is_alpha_char(c: char) -> (r: bool)
    ensures
        r == is_alpha(c),
{
    ('a' <= c && c <= 'z') || ('A' <= c && c <= 'Z') || c == '_'
}

/// The kind of the single-character token `c`, if it is one.
fn single_char_kind(c: char) -> (r: Option<TokenType>)
    ensures
        r == single_kind(c),
{
    match c {
        '(' => Some(TokenType::LeftParen),
        ')' => Some(TokenType::RightParen),
        '{' => Some(TokenType::LeftBrace),
        '}' => Some(TokenType::RightBrace),
        ',' => Some(TokenType::Comma),
        '.' => Some(TokenType::Dot),
        '-' => Some(TokenType::Minus),
        '+' => Some(TokenType::Plus),
        ';' => Some(TokenType::Semicolon),
        '*' => Some(TokenType::Star),
        _ => None,
    }
}

/// For an operator that may be followed by `=`: its one- and two-character kinds.
fn operator_kinds_of(c: char) -> (r: Option<(TokenType, TokenType)>)
    ensures
        r == operator_kinds(c),
{
    match c {
        '!' => Some((TokenType::Bang, TokenType::BangEqual)),
        '=' => Some((TokenType::Equal, TokenType::EqualEqual)),
        '<' => Some((TokenType::Less, TokenType::LessEqual)),
        '>' => Some((TokenType::Greater, TokenType::GreaterEqual)),
        _ => None,
    }
}

/// Scans one source text into tokens, reporting malformed input as
/// diagnostics and carrying on past it.
pub struct Scanner {
    source: Vec<char>,
    tokens: Vec<Token>,
    errors: Vec<ScanError>,
    start: usize,
    current: usize,
    line: usize,
}

impl Scanner {
    /// The source text, as characters.
    pub closed spec fn source_chars(&self) -> Seq<char> {
        self.source@
    }

    /// How far the scan has read.
    pub closed spec fn position(&self) -> int {
        self.current as int
    }

    /// The tokens emitted so far.
    pub closed spec fn emitted(&self) -> Seq<TokenView> {
        token_views(self.tokens@)
    }

    /// The diagnostics reported so far.
    pub closed spec fn reported(&self) -> Seq<ScanError> {
        self.errors@
    }

    /// The cursor lies within the source, and the line counter is the line
    /// that the cursor is on.
    pub closed spec fn wf(&self) -> bool {
        &&& self.source@.len() < usize::MAX
        &&& self.start <= self.current <= self.source@.len()
        &&& self.line as nat == line_at(self.source@, self.current as int)
    }

    /// Only the cursor has moved.
    spec fn moved_from(&self, other: &Scanner) -> bool {
        &&& self.source == other.source
        &&& self.tokens == other.tokens
        &&& self.errors == other.errors
        &&& self.start == other.start
        &&& self.line == other.line
    }

    pub fn new(source: &str) -> (r: Scanner)
        requires
            source@.len() < usize::MAX,
        ensures
            r.wf(),
            r.source_chars() == source@,
            r.position() == 0,
            r.emitted() == Seq::<TokenView>::empty(),
            r.reported() == Seq::<ScanError>::empty(),
    {
        let r = Scanner {
            source: chars_of(source),
            tokens: Vec::new(),
            errors: Vec::new(),
            start: 0,
            current: 0,
            line: 1,
        };
        assert(r.source@.subrange(0, 0).len() == 0);
        assert(token_views(r.tokens@) =~= Seq::<TokenView>::empty());
        r
    }

    /// Scans the rest of the source and appends the end-of-input token;
    /// returns every token emitted. On a new scanner the result is
    /// `scanned(source)` and the diagnostics are `diagnostics(source)`.
    pub fn scan_tokens(&mut self) -> (r: &Vec<Token>)
        requires
            old(self).wf(),
        ensures
            final(self).wf(),
            final(self).source_chars() == old(self).source_chars(),
            final(self).position() == old(self).source_chars().len(),
            final(self).emitted() == old(self).emitted() + tokens_from(
                old(self).source_chars(),
                old(self).position(),
            ).push(eof_token(old(self).source_chars())),
            final(self).reported() == old(self).reported() + errors_from(
                old(self).source_chars(),
                old(self).position(),
            ),
            token_views(r@) == final(self).emitted(),
    {
        let ghost src = self.source@;
        let ghost toks0 = token_views(self.tokens@);
        let ghost errs0 = self.errors@;
        let ghost pos0 = self.current as int;
        while self.current < self.source.len()
            invariant
                self.wf(),
                self.source@ == src,
                token_views(self.tokens@) + tokens_from(src, self.current as int) == toks0
                    + tokens_from(src, pos0),
                self.errors@ + errors_from(src, self.current as int) == errs0 + errors_from(
                    src,
                    pos0,
                ),
            decreases src.len() - self.current,
        {
            self.start = self.current;
            let ghost s = self.current as int;
            proof {
                lemma_step_bounds(src, s);
            }
            let ghost before_t = token_views(self.tokens@);
            let ghost before_e = self.errors@;
            self.scan_token();
            let ghost e = step(src, s).end;
            assert(tokens_from(src, s) == step_tokens(src, s) + tokens_from(src, e));
            assert(errors_from(src, s) == step_errors(src, s) + errors_from(src, e));
            assert(token_views(self.tokens@) + tokens_from(src, e) =~= before_t + tokens_from(
                src,
                s,
            ));
            assert(self.errors@ + errors_from(src, e) =~= before_e + errors_from(src, s));
        }
        assert(tokens_from(src, self.current as int) =~= Seq::<TokenView>::empty());
        assert(errors_from(src, self.current as int) =~= Seq::<ScanError>::empty());
        let ghost before = self.tokens@;
        let eof = Token::new(TokenType::Eof, String::new(), None, self.line);
        self.tokens.push(eof);
        assert(token_views(self.tokens@) =~= token_views(before).push(eof@));
        assert(self.errors@ =~= errs0 + errors_from(src, pos0));
        assert(eof@ == eof_token(src));
        &self.tokens
    }

    /// Reads the lexeme at the cursor.
    fn scan_token(&mut self)
        requires
            old(self).wf(),
            old(self).start == old(self).current,
            old(self).current < old(self).source@.len(),
        ensures
            final(self).wf(),
            final(self).source == old(self).source,
            final(self).start == old(self).start,
            final(self).current == step(old(self).source@, old(self).current as int).end,
            token_views(final(self).tokens@) == token_views(old(self).tokens@) + step_tokens(
                old(self).source@,
                old(self).current as int,
            ),
            final(self).errors@ == old(self).errors@ + step_errors(
                old(self).source@,
                old(self).current as int,
            ),
    {
        let ghost src = self.source@;
        let ghost s = self.current as int;
        proof {
            lemma_line_step(src, s);
            if s + 1 < src.len() {
                lemma_line_step(src, s + 1);
                lemma_comment_scan(src, s + 2, 1);
            }
        }
        let ghost errs0 = self.errors@;
        proof {
            if step(src, s).error is None {
                assert(errs0 + step_errors(src, s) =~= errs0);
            } else {
                assert(errs0 + step_errors(src, s) =~= errs0.push(step_errors(src, s)[0]));
            }
        }
        let line = self.line;
        let c = self.advance();
        if let Some(kind) = single_char_kind(c) {
            self.add_token(kind, line);
        } else if let Some((one, two)) = operator_kinds_of(c) {
            let tok = if self.match_char('=') {
                two
            } else {
                one
            };
            self.add_token(tok, line);
        } else if c == '/' {
            if self.match_char('/') {
                self.line_comment();
            } else if self.match_char('*') {
                self.block_comment();
            } else {
                self.add_token(TokenType::Slash, line);
            }
        } else if c == ' ' || c == '\r' || c == '\t' {
        } else if c == '\n' {
            self.line = self.line + 1;
        } else if c == '"' {
            self.string();
        } else if is_digit_char(c) {
            self.number();
        } else if is_alpha_char(c) {
            self.identifier();
        } else {
            self.error(ErrorKind::UnexpectedCharacter);
        }
    }

    /// Skips the rest of a line comment, up to the newline.
    fn line_comment(&mut self)
        requires
            old(self).wf(),
            old(self).start + 2 == old(self).current,
        ensures
            final(self).wf(),
            final(self).moved_from(old(self)),
            final(self).current == find_from(old(self).source@, old(self).current as int, '\n'),
    {
        let ghost src = self.source@;
        let ghost from = self.current as int;
        while self.peek() != '\n' && !self.is_at_end()
            invariant
                self.wf(),
                self.source@ == src,
                self.moved_from(old(self)),
                from <= self.current,
                find_from(src, self.current as int, '\n') == find_from(src, from, '\n'),
            decreases src.len() - self.current,
        {
            proof {
                lemma_line_step(src, self.current as int);
            }
            self.advance();
        }
    }

    /// Consumes a block comment whose `/*` has been read. Comments nest: each
    /// `/*` inside opens one more level that a `*/` must close.
    fn block_comment(&mut self)
        requires
            old(self).wf(),
            old(self).start + 2 == old(self).current,
        ensures
            final(self).wf(),
            final(self).source == old(self).source,
            final(self).start == old(self).start,
            final(self).tokens == old(self).tokens,
            final(self).current == comment_scan(old(self).source@, old(self).current as int, 1).0,
            final(self).errors@ == old(self).errors@ + if comment_scan(
                old(self).source@,
                old(self).current as int,
                1,
            ).1 {
                Seq::<ScanError>::empty()
            } else {
                seq![
                    ScanError {
                        kind: ErrorKind::UnterminatedBlockComment,
                        line: line_at(old(self).source@, old(self).source@.len() as int) as usize,
                    },
                ]
            },
    {
        let ghost src = self.source@;
        let ghost from = self.current as int;
        let mut nesting: usize = 1;
        while nesting > 0 && !self.is_at_end()
            invariant
                self.wf(),
                self.source@ == src,
                self.source == old(self).source,
                self.start == old(self).start,
                self.tokens == old(self).tokens,
                self.errors == old(self).errors,
                from <= self.current,
                1 <= nesting + 1 <= self.current,
                comment_scan(src, self.current as int, nesting as nat) == comment_scan(
                    src,
                    from,
                    1,
                ),
            decreases src.len() - self.current,
        {
            let i = self.current;
            proof {
                lemma_line_step(src, i as int);
                if i + 1 < src.len() {
                    lemma_line_step(src, i + 1);
                }
            }
            if self.peek() == '/' && self.peek_next() == '*' {
                self.advance();
                self.advance();
                nesting = nesting + 1;
            } else if self.peek() == '*' && self.peek_next() == '/' {
                self.advance();
                self.advance();
                nesting = nesting - 1;
            } else {
                if self.peek() == '\n' {
                    self.line = self.line + 1;
                }
                self.advance();
            }
        }
        if nesting > 0 {
            self.error(ErrorKind::UnterminatedBlockComment);
        }
    }

    /// Reads a string literal whose opening quote has been read. It may span
    /// lines; backslashes are ordinary characters.
    fn string(&mut self)
        requires
            old(self).wf(),
            old(self).start + 1 == old(self).current,
            old(self).current <= old(self).source@.len(),
            char_at(old(self).source@, old(self).start as int, '"'),
        ensures
            final(self).wf(),
            final(self).source == old(self).source,
            final(self).start == old(self).start,
            final(self).current == step(old(self).source@, old(self).start as int).end,
            token_views(final(self).tokens@) == token_views(old(self).tokens@) + step_tokens(
                old(self).source@,
                old(self).start as int,
            ),
            final(self).errors@ == old(self).errors@ + step_errors(
                old(self).source@,
                old(self).start as int,
            ),
    {
        let ghost src = self.source@;
        let ghost from = self.current as int;
        let line = self.line;
        proof {
            lemma_line_step(src, self.start as int);
        }
        while self.peek() != '"' && !self.is_at_end()
            invariant
                self.wf(),
                self.source@ == src,
                self.source == old(self).source,
                self.start == old(self).start,
                self.tokens == old(self).tokens,
                self.errors == old(self).errors,
                from <= self.current,
                find_from(src, self.current as int, '"') == find_from(src, from, '"'),
            decreases src.len() - self.current,
        {
            proof {
                lemma_line_step(src, self.current as int);
            }
            if self.peek() == '\n' {
                self.line = self.line + 1;
            }
            self.advance();
        }
        if self.is_at_end() {
            self.error(ErrorKind::UnterminatedString);
            return;
        }
        proof {
            lemma_line_step(src, self.current as int);
        }
        self.advance();
        let value = self.text(self.start + 1, self.current - 1);
        proof {
            let lexeme = src.subrange(self.start as int, self.current as int);
            assert(lexeme.subrange(1, lexeme.len() - 1) =~= value@);
        }
        self.add_token_with_literal(TokenType::String, Some(Literal::Str(value)), line);
    }
    /// Reads a number whose first digit has been read: a run of digits, and
    /// a fraction only where a digit follows the dot.
    fn number(&mut self)
        requires
            old(self).wf(),
            old(self).start + 1 == old(self).current,
            old(self).current <= old(self).source@.len(),
            is_digit(old(self).source@[old(self).start as int]),
        ensures
            final(self).wf(),
            final(self).source == old(self).source,
            final(self).start == old(self).start,
            final(self).errors == old(self).errors,
            final(self).current == step(old(self).source@, old(self).start as int).end,
            token_views(final(self).tokens@) == token_views(old(self).tokens@) + step_tokens(
                old(self).source@,
                old(self).start as int,
            ),
    {
        let ghost src = self.source@;
        let ghost from = self.current as int;
        let line = self.line;
        proof {
            lemma_line_step(src, self.start as int);
        }
        while is_digit_char(self.peek())
            invariant
                self.wf(),
                self.source@ == src,
                self.moved_from(old(self)),
                from <= self.current,
                digits_end(src, self.current as int) == digits_end(src, from),
            decreases src.len() - self.current,
        {
            proof {
                lemma_line_step(src, self.current as int);
            }
            self.advance();
        }
        let ghost whole = self.current as int;
        if self.peek() == '.' && is_digit_char(self.peek_next()) {
            proof {
                lemma_line_step(src, whole);
            }
            self.advance();
            while is_digit_char(self.peek())
                invariant
                    self.wf(),
                    self.source@ == src,
                    self.moved_from(old(self)),
                    whole + 1 <= self.current,
                    digits_end(src, self.current as int) == digits_end(src, whole + 1),
                decreases src.len() - self.current,
            {
                proof {
                    lemma_line_step(src, self.current as int);
                }
                self.advance();
            }
        }
        let text = self.text(self.start, self.current);
        self.add_token_with_literal(TokenType::Number, Some(Literal::Number(text)), line);
    }

    /// Reads an identifier or keyword whose first character has been read.
    /// `true`, `false` and `nil` also carry their value.
    fn identifier(&mut self)
        requires
            old(self).wf(),
            old(self).start + 1 == old(self).current,
            old(self).current <= old(self).source@.len(),
            is_alpha(old(self).source@[old(self).start as int]),
        ensures
            final(self).wf(),
            final(self).source == old(self).source,
            final(self).start == old(self).start,
            final(self).errors == old(self).errors,
            final(self).current == step(old(self).source@, old(self).start as int).end,
            token_views(final(self).tokens@) == token_views(old(self).tokens@) + step_tokens(
                old(self).source@,
                old(self).start as int,
            ),
    {
        let ghost src = self.source@;
        let ghost from = self.current as int;
        let line = self.line;
        proof {
            lemma_line_step(src, self.start as int);
        }
        while is_alpha_char(self.peek()) || is_digit_char(self.peek())
            invariant
                self.wf(),
                self.source@ == src,
                self.moved_from(old(self)),
                from <= self.current,
                word_end(src, self.current as int) == word_end(src, from),
            decreases src.len() - self.current,
        {
            proof {
                lemma_line_step(src, self.current as int);
            }
            self.advance();
        }
        let token_type = self.keyword();
        let literal = match token_type {
            TokenType::False => Some(Literal::Bool(false)),
            TokenType::True => Some(Literal::Bool(true)),
            TokenType::Nil => Some(Literal::Nil),
            _ => None,
        };
        self.add_token_with_literal(token_type, literal, line);
    }

    /// Whether the lexeme read so far is exactly `w`.
    fn lexeme_is(&self, w: &[char]) -> (r: bool)
        requires
            self.start <= self.current <= self.source@.len(),
        ensures
            r == (self.source@.subrange(self.start as int, self.current as int) == w@),
    {
        let ghost lex = self.source@.subrange(self.start as int, self.current as int);
        if self.current - self.start != w.len() {
            return false;
        }
        let mut i: usize = 0;
        while i < w.len()
            invariant
                self.start <= self.current <= self.source@.len(),
                self.current - self.start == w@.len(),
                i <= w@.len(),
                lex == self.source@.subrange(self.start as int, self.current as int),
                lex.len() == w@.len(),
                forall|j: int| 0 <= j < i ==> lex[j] == w@[j],
            decreases w@.len() - i,
        {
            if self.source[self.start + i] != w[i] {
                assert(lex[i as int] != w@[i as int]);
                return false;
            }
            i = i + 1;
        }
        assert(lex =~= w@);
        true
    }

    /// The keyword kind of the lexeme read so far, or `Identifier`.
    fn keyword(&self) -> (r: TokenType)
        requires
            self.start <= self.current <= self.source@.len(),
        ensures
            r == keyword_kind(self.source@.subrange(self.start as int, self.current as int)),
    {
        if self.lexeme_is(&['a', 'n', 'd']) {
            TokenType::And
        } else if self.lexeme_is(&['c', 'l', 'a', 's', 's']) {
            TokenType::Class
        } else if self.lexeme_is(&['e', 'l', 's', 'e']) {
            TokenType::Else
        } else if self.lexeme_is(&['f', 'a', 'l', 's', 'e']) {
            TokenType::False
        } else if self.lexeme_is(&['f', 'u', 'n']) {
            TokenType::Fun
        } else if self.lexeme_is(&['f', 'o', 'r']) {
            TokenType::For
        } else if self.lexeme_is(&['i', 'f']) {
            TokenType::If
        } else if self.lexeme_is(&['n', 'i', 'l']) {
            TokenType::Nil
        } else if self.lexeme_is(&['o', 'r']) {
            TokenType::Or
        } else if self.lexeme_is(&['p', 'r', 'i', 'n', 't']) {
            TokenType::Print
        } else if self.lexeme_is(&['r', 'e', 't', 'u', 'r', 'n']) {
            TokenType::Return
        } else if self.lexeme_is(&['s', 'u', 'p', 'e', 'r']) {
            TokenType::Super
        } else if self.lexeme_is(&['t', 'h', 'i', 's']) {
            TokenType::This
        } else if self.lexeme_is(&['t', 'r', 'u', 'e']) {
            TokenType::True
        } else if self.lexeme_is(&['v', 'a', 'r']) {
            TokenType::Var
        } else if self.lexeme_is(&['w', 'h', 'i', 'l', 'e']) {
            TokenType::While
        } else {
            TokenType::Identifier
        }
    }

    /// Consumes and returns the character at the cursor.
    fn advance(&mut self) -> (c: char)
        requires
            old(self).current < old(self).source@.len() < usize::MAX,
        ensures
            final(self).moved_from(old(self)),
            final(self).current == old(self).current + 1,
            c == old(self).source@[old(self).current as int],
    {
        let c = self.source[self.current];
        self.current = self.current + 1;
        c
    }

    /// Consumes the character at the cursor if it is `expected`.
    fn match_char(&mut self, expected: char) -> (r: bool)
        requires
            old(self).current <= old(self).source@.len() < usize::MAX,
        ensures
            final(self).moved_from(old(self)),
            r == char_at(old(self).source@, old(self).current as int, expected),
            final(self).current == old(self).current + if r {
                1int
            } else {
                0int
            },
    {
        if self.is_at_end() || self.source[self.current] != expected {
            return false;
        }
        self.current = self.current + 1;
        true
    }

    /// The character at the cursor, or NUL at the end of the source.
    fn peek(&self) -> (c: char)
        requires
            self.current <= self.source@.len(),
        ensures
            c == if self.current < self.source@.len() {
                self.source@[self.current as int]
            } else {
                '\0'
            },
    {
        if self.is_at_end() {
            '\0'
        } else {
            self.source[self.current]
        }
    }

    /// The character after the cursor, or NUL past the end of the source.
    fn peek_next(&self) -> (c: char)
        requires
            self.current <= self.source@.len() < usize::MAX,
        ensures
            c == if self.current + 1 < self.source@.len() {
                self.source@[self.current + 1]
            } else {
                '\0'
            },
    {
        if self.current + 1 >= self.source.len() {
            '\0'
        } else {
            self.source[self.current + 1]
        }
    }

    fn is_at_end(&self) -> (r: bool)
        ensures
            r == (self.current >= self.source@.len()),
    {
        self.current >= self.source.len()
    }

    /// The source text between two positions.
    fn text(&self, lo: usize, hi: usize) -> (r: String)
        requires
            lo <= hi <= self.source@.len(),
        ensures
            r@ == self.source@.subrange(lo as int, hi as int),
    {
        let mut cs: Vec<char> = Vec::new();
        let mut i: usize = lo;
        while i < hi
            invariant
                lo <= i <= hi <= self.source@.len(),
                cs@ == self.source@.subrange(lo as int, i as int),
            decreases hi - i,
        {
            cs.push(self.source[i]);
            i = i + 1;
            assert(cs@ =~= self.source@.subrange(lo as int, i as int));
        }
        string_of(cs)
    }

    /// Emits a token without a value for the lexeme read so far.
    fn add_token(&mut self, token_type: TokenType, line: usize)
        requires
            old(self).start < old(self).current <= old(self).source@.len(),
            line as nat == line_at(old(self).source@, old(self).start as int),
            literal_of(
                token_type,
                old(self).source@.subrange(old(self).start as int, old(self).current as int),
            ) is None,
        ensures
            final(self).source == old(self).source,
            final(self).errors == old(self).errors,
            final(self).start == old(self).start,
            final(self).current == old(self).current,
            final(self).line == old(self).line,
            token_views(final(self).tokens@) == token_views(old(self).tokens@).push(
                token_at(
                    old(self).source@,
                    old(self).start as int,
                    old(self).current as int,
                    token_type,
                ),
            ),
    {
        self.add_token_with_literal(token_type, None, line);
    }

    /// Emits a token with the given value for the lexeme read so far; its
    /// line is that of the lexeme's first character.
    fn add_token_with_literal(&mut self, token_type: TokenType, literal: Option<Literal>, line: usize)
        requires
            old(self).start < old(self).current <= old(self).source@.len(),
            line as nat == line_at(old(self).source@, old(self).start as int),
            literal_view(literal) == literal_of(
                token_type,
                old(self).source@.subrange(old(self).start as int, old(self).current as int),
            ),
        ensures
            final(self).source == old(self).source,
            final(self).errors == old(self).errors,
            final(self).start == old(self).start,
            final(self).current == old(self).current,
            final(self).line == old(self).line,
            token_views(final(self).tokens@) == token_views(old(self).tokens@).push(
                token_at(
                    old(self).source@,
                    old(self).start as int,
                    old(self).current as int,
                    token_type,
                ),
            ),
    {
        let text = self.text(self.start, self.current);
        let ghost before = self.tokens@;
        let t = Token::new(token_type, text, literal, line);
        self.tokens.push(t);
        assert(token_views(self.tokens@) =~= token_views(before).push(t@));
    }

    /// Reports a diagnostic at the current line.
    fn error(&mut self, kind: ErrorKind)
        ensures
            final(self).source == old(self).source,
            final(self).tokens == old(self).tokens,
            final(self).start == old(self).start,
            final(self).current == old(self).current,
            final(self).line == old(self).line,
            final(self).errors@ == old(self).errors@.push(ScanError { kind, line: old(self).line }),
    {
        self.errors.push(ScanError { kind, line: self.line });
    }

    /// The diagnostics reported so far, in order.
    pub fn errors(&self) -> (r: &Vec<ScanError>)
        ensures
            r@ == self.reported(),
    {
        &self.errors
    }
}

} // verus!
