use vstd::prelude::*;

use crate::error::{ErrorView, ExecutionError};
use crate::model::{
    char_at, count_newlines, decimal_digit, digits_end, dispatch, emitted, errors_of, first_from,
    lemma_dispatch_advances, lemma_first_from, number_end, raised, scan_errors, scan_steps,
    scan_tokens, string_step, tokens_of, word_char, word_end, word_start, word_step, Step,
};
use crate::text::{chars_of, push_char, text_between};
use crate::token::{keyword_in, Literal, LiteralView, Token, TokenType, TokenView};

verus! {

/// The views of a sequence of tokens.
pub open spec fn token_views(v: Seq<Token>) -> Seq<TokenView> {
    v.map_values(|t: Token| t@)
}

/// The views of a sequence of diagnostics.
pub open spec fn error_views(v: Seq<ExecutionError>) -> Seq<ErrorView> {
    v.map_values(|e: ExecutionError| e@)
}

/// A single-use cursor over a source text that turns it into tokens.
pub struct Scanner {
    source: Vec<char>,
    start: usize,
    current: usize,
    line: usize,
    /// The diagnostics raised so far, in source order.
    pub errors: Vec<ExecutionError>,
}

impl Scanner {
    /// The source text.
    pub closed spec fn text(&self) -> Seq<char> {
        self.source@
    }

    /// The index of the next unread character.
    pub closed spec fn position(&self) -> int {
        self.current as int
    }

    /// The line counter.
    pub closed spec fn line_number(&self) -> nat {
        self.line as nat
    }

    /// The diagnostics raised so far.
    pub closed spec fn diagnostics(&self) -> Seq<ExecutionError> {
        self.errors@
    }

    /// The cursors lie within the text, and the line counter can grow by one
    /// for each character that is left without overflow.
    pub closed spec fn wf(&self) -> bool {
        &&& self.source@.len() < usize::MAX
        &&& self.start <= self.current <= self.source@.len()
        &&& self.line <= self.current + 1
    }

    pub fn new(source: String) -> (s: Scanner)
        requires
            source@.len() < usize::MAX,
        ensures
            s.wf(),
            s.text() == source@,
            s.position() == 0,
            s.line_number() == 1,
            s.diagnostics().len() == 0,
    {
        Scanner { source: chars_of(source.as_str()), start: 0, current: 0, line: 1, errors: Vec::new() }
    }

    /// Scans the rest of the text. The tokens are returned; the diagnostics
    /// are appended to `errors`. This is meant to be called once, on a new
    /// scanner, where the result is `scan_tokens` of the text and the
    /// diagnostics are `scan_errors` of it.
    pub fn scan(&mut self) -> (r: Vec<Token>)
        requires
            old(self).wf(),
        ensures
            final(self).wf(),
            final(self).text() == old(self).text(),
            final(self).position() == old(self).text().len(),
            token_views(r@) == tokens_of(
                scan_steps(old(self).text(), old(self).position(), old(self).line_number()),
            ),
            error_views(final(self).diagnostics()) == error_views(old(self).diagnostics()) + errors_of(
                scan_steps(old(self).text(), old(self).position(), old(self).line_number()),
            ),
            old(self).position() == 0 && old(self).line_number() == 1 ==> token_views(r@)
                == scan_tokens(old(self).text()),
            old(self).position() == 0 && old(self).line_number() == 1 && old(
                self,
            ).diagnostics().len() == 0 ==> error_views(final(self).diagnostics()) == scan_errors(
                old(self).text(),
            ),
    {
        let ghost src = self.source@;
        let ghost all = scan_steps(src, self.current as int, self.line as nat);
        let ghost errs0 = error_views(self.errors@);
        let ghost mut done: Seq<Step> = Seq::empty();
        let mut vec: Vec<Token> = Vec::new();
        assert(done + all =~= all);
        assert(token_views(vec@) =~= tokens_of(done));
        assert(error_views(self.errors@) =~= errs0 + errors_of(done));
        while !self.at_end()
            invariant
                self.wf(),
                self.source@ == src,
                done + scan_steps(src, self.current as int, self.line as nat) == all,
                token_views(vec@) == tokens_of(done),
                error_views(self.errors@) == errs0 + errors_of(done),
            decreases src.len() - self.current,
        {
            self.start = self.current;
            let ghost d = dispatch(src, self.current as int, self.line as nat);
            let ghost rest = scan_steps(src, d.end, d.line);
            proof {
                lemma_dispatch_advances(src, self.current as int, self.line as nat);
                assert(done.push(d) + rest =~= done + (seq![d] + rest));
                assert(done.push(d).drop_last() =~= done);
            }
            self.scan_token(&mut vec);
            proof {
                done = done.push(d);
            }
            assert(error_views(self.errors@) =~= errs0 + errors_of(done));
        }
        assert(done + scan_steps(src, self.current as int, self.line as nat) =~= done);
        vec
    }

    fn at_end(&self) -> (r: bool)
        requires
            self.wf(),
        ensures
            r == (self.current == self.source@.len()),
    {
        self.current >= self.source.len()
    }

    /// Whether any diagnostic has been raised.
    pub fn has_errors(&self) -> (r: bool)
        ensures
            r == (self.diagnostics().len() > 0),
    {
        !self.errors.is_empty()
    }

    /// The text of the current lexeme.
    fn extract_text(&self) -> (r: String)
        requires
            self.wf(),
        ensures
            r@ == self.source@.subrange(self.start as int, self.current as int),
    {
        text_between(&self.source, self.start, self.current)
    }

    fn advance(&mut self) -> (c: char)
        requires
            old(self).source@.len() < usize::MAX,
            old(self).start <= old(self).current < old(self).source@.len(),
            old(self).line <= old(self).current + 2,
        ensures
            c == old(self).source@[old(self).current as int],
            final(self).current == old(self).current + 1,
            final(self).source@ == old(self).source@,
            final(self).start == old(self).start,
            final(self).line == old(self).line,
            final(self).errors == old(self).errors,
            final(self).wf(),
    {
        let c = self.source[self.current];
        self.current += 1;
        c
    }

    fn peek(&self) -> (c: char)
        requires
            self.wf(),
        ensures
            c == char_at(self.source@, self.current as int),
    {
        if self.at_end() {
            return '\0';
        }
        self.source[self.current]
    }

    fn peek_next(&self) -> (c: char)
        requires
            self.wf(),
        ensures
            c == char_at(self.source@, self.current + 1),
    {
        if self.current + 1 >= self.source.len() {
            return '\0';
        }
        self.source[self.current + 1]
    }

    /// Consumes the next character when it is `expected`.
    fn check(&mut self, expected: char) -> (r: bool)
        requires
            old(self).wf(),
        ensures
            r == (old(self).current < old(self).source@.len() && old(self).source@[old(
                self,
            ).current as int] == expected),
            final(self).current == old(self).current + if r { 1int } else { 0int },
            final(self).source@ == old(self).source@,
            final(self).start == old(self).start,
            final(self).line == old(self).line,
            final(self).errors == old(self).errors,
            final(self).wf(),
    {
        if self.at_end() {
            return false;
        }
        if self.source[self.current] != expected {
            return false;
        }
        self.current += 1;
        true
    }

    fn is_digit(c: char) -> (r: bool)
        ensures
            r == decimal_digit(c),
    {
        match c {
            '0'..='9' => true,
            _ => false,
        }
    }

    fn is_alpha(c: char) -> (r: bool)
        ensures
            r == word_start(c),
    {
        match c {
            'a'..='z' => true,
            'A'..='Z' => true,
            '_' => true,
            _ => false,
        }
    }

    fn is_alphanum(c: char) -> (r: bool)
        ensures
            r == word_char(c),
    {
        Self::is_alpha(c) || Self::is_digit(c)
    }

    /// Appends a token for the current lexeme.
    fn push_token(&self, token_type: TokenType, literal: Literal, line: usize, tokens: &mut Vec<Token>)
        requires
            self.wf(),
        ensures
            token_views(final(tokens)@) == token_views(old(tokens)@) + seq![
                TokenView {
                    token_type,
                    lexeme: self.source@.subrange(self.start as int, self.current as int),
                    literal: literal@,
                    line: line as nat,
                },
            ],
    {
        let lexeme = self.extract_text();
        tokens.push(Token { token_type, lexeme, literal, line });
        assert(token_views(tokens@) =~= token_views(old(tokens)@) + seq![
            TokenView {
                token_type,
                lexeme: self.source@.subrange(self.start as int, self.current as int),
                literal: literal@,
                line: line as nat,
            },
        ]);
    }
    /// Consumes characters up to and including the next `terminator`. At the
    /// end of the text instead, raises "Unterminated <subject>" and returns false.
    fn scan_until(&mut self, terminator: char, subject: &str) -> (r: bool)
        requires
            old(self).wf(),
        ensures
            ({
                let src = old(self).source@;
                let q = first_from(src, old(self).current as int, terminator);
                &&& r == (q < src.len())
                &&& final(self).current == if r { q + 1 } else { q }
                &&& final(self).line == old(self).line + count_newlines(
                    src.subrange(old(self).current as int, q),
                )
                &&& r ==> final(self).errors@ == old(self).errors@
                &&& !r ==> error_views(final(self).errors@) == error_views(old(self).errors@).push(
                    ErrorView {
                        line: final(self).line as nat,
                        location: Seq::empty(),
                        message: "Unterminated "@ + subject@,
                    },
                )
            }),
            final(self).source@ == old(self).source@,
            final(self).start == old(self).start,
            final(self).wf(),
    {
        let ghost src = self.source@;
        let ghost c0 = self.current as int;
        let ghost q = first_from(src, c0, terminator);
        assert(src.subrange(c0, c0) =~= Seq::<char>::empty());
        while self.peek() != terminator && !self.at_end()
            invariant
                self.wf(),
                self.source@ == src,
                self.start == old(self).start,
                self.errors == old(self).errors,
                c0 == old(self).current,
                c0 <= self.current,
                q == first_from(src, c0, terminator),
                first_from(src, self.current as int, terminator) == q,
                self.line == old(self).line + count_newlines(src.subrange(c0, self.current as int)),
            decreases src.len() - self.current,
        {
            assert(src.subrange(c0, self.current + 1).drop_last() =~= src.subrange(
                c0,
                self.current as int,
            ));
            if self.peek() == '\n' {
                self.line += 1;
            }
            self.advance();
        }
        if self.at_end() {
            let mut message = String::from_str("Unterminated ");
            message.append(subject);
            self.errors.push(
                ExecutionError { line: self.line, location: String::new(), message },
            );
            assert(error_views(self.errors@) =~= error_views(old(self).errors@).push(
                ErrorView {
                    line: self.line as nat,
                    location: Seq::empty(),
                    message: "Unterminated "@ + subject@,
                },
            ));
            return false;
        }
        self.advance();
        true
    }

    /// A string literal; the opening quote has been consumed.
    fn string(&mut self, tokens: &mut Vec<Token>)
        requires
            old(self).wf(),
            old(self).current == old(self).start + 1,
            old(self).source@[old(self).start as int] == '"',
        ensures
            ({
                let d = string_step(old(self).source@, old(self).start as int, old(self).line as nat);
                &&& final(self).current == d.end
                &&& final(self).line == d.line
                &&& token_views(final(tokens)@) == token_views(old(tokens)@) + emitted(d)
                &&& error_views(final(self).errors@) == error_views(old(self).errors@) + raised(d)
            }),
            final(self).source@ == old(self).source@,
            final(self).wf(),
    {
        let ghost d = string_step(self.source@, self.start as int, self.line as nat);
        let first_line = self.line;
        proof {
            lemma_first_from(self.source@, self.current as int, '"');
        }
        if self.scan_until('"', "string") {
            let content = text_between(&self.source, self.start + 1, self.current - 1);
            self.push_token(TokenType::String, Literal::String(content), first_line, tokens);
            assert(error_views(self.errors@) =~= error_views(old(self).errors@) + raised(d));
        } else {
            assert(token_views(tokens@) =~= token_views(old(tokens)@) + emitted(d));
        }
    }

    /// A number; its first digit has been consumed.
    fn number(&mut self, tokens: &mut Vec<Token>)
        requires
            old(self).wf(),
            old(self).current == old(self).start + 1,
        ensures
            ({
                let src = old(self).source@;
                let s = old(self).start as int;
                let e = number_end(src, s + 1);
                &&& final(self).current == e
                &&& token_views(final(tokens)@) == token_views(old(tokens)@) + seq![
                    TokenView {
                        token_type: TokenType::Number,
                        lexeme: src.subrange(s, e),
                        literal: LiteralView::Number(src.subrange(s, e)),
                        line: old(self).line as nat,
                    },
                ]
            }),
            final(self).source@ == old(self).source@,
            final(self).start == old(self).start,
            final(self).line == old(self).line,
            final(self).errors == old(self).errors,
            final(self).wf(),
    {
        let ghost src = self.source@;
        let ghost a = digits_end(src, self.current as int);
        while Self::is_digit(self.peek())
            invariant
                self.wf(),
                self.source@ == src,
                self.start == old(self).start,
                self.line == old(self).line,
                self.errors == old(self).errors,
                old(self).current <= self.current,
                digits_end(src, self.current as int) == a,
            decreases src.len() - self.current,
        {
            self.advance();
        }
        if self.peek() == '.' && Self::is_digit(self.peek_next()) {
            let ghost b = digits_end(src, self.current + 1);
            self.advance();
            while Self::is_digit(self.peek())
                invariant
                    self.wf(),
                    self.source@ == src,
                    self.start == old(self).start,
                    self.line == old(self).line,
                    self.errors == old(self).errors,
                    old(self).current <= self.current,
                    digits_end(src, self.current as int) == b,
                decreases src.len() - self.current,
            {
                self.advance();
            }
        }
        let text = self.extract_text();
        self.push_token(TokenType::Number, Literal::Number(text), self.line, tokens);
    }

    /// An identifier or reserved word; its first character has been consumed.
    fn identifier(&mut self, tokens: &mut Vec<Token>)
        requires
            old(self).wf(),
            old(self).current == old(self).start + 1,
        ensures
            ({
                let d = word_step(
                    old(self).source@,
                    old(self).start as int,
                    old(self).line as nat,
                );
                &&& final(self).current == d.end
                &&& token_views(final(tokens)@) == token_views(old(tokens)@) + emitted(d)
            }),
            final(self).source@ == old(self).source@,
            final(self).start == old(self).start,
            final(self).line == old(self).line,
            final(self).errors == old(self).errors,
            final(self).wf(),
    {
        let ghost src = self.source@;
        let ghost e = word_end(src, self.current as int);
        while Self::is_alphanum(self.peek())
            invariant
                self.wf(),
                self.source@ == src,
                self.start == old(self).start,
                self.line == old(self).line,
                self.errors == old(self).errors,
                old(self).current <= self.current,
                word_end(src, self.current as int) == e,
            decreases src.len() - self.current,
        {
            self.advance();
        }
        let token_type = match keyword_in(&self.source, self.start, self.current) {
            Some(k) => k,
            None => TokenType::Identifier,
        };
        let text = self.extract_text();
        self.push_token(token_type, Literal::Identifier(text), self.line, tokens);
    }

    /// One dispatch step from the start of a lexeme.
    fn scan_token(&mut self, tokens: &mut Vec<Token>)
        requires
            old(self).wf(),
            old(self).start == old(self).current,
            old(self).current < old(self).source@.len(),
        ensures
            ({
                let d = dispatch(old(self).source@, old(self).current as int, old(self).line as nat);
                &&& final(self).current == d.end
                &&& final(self).line == d.line
                &&& token_views(final(tokens)@) == token_views(old(tokens)@) + emitted(d)
                &&& error_views(final(self).errors@) == error_views(old(self).errors@) + raised(d)
            }),
            final(self).source@ == old(self).source@,
            final(self).wf(),
    {
        let ghost d = dispatch(self.source@, self.current as int, self.line as nat);
        let ghost toks0 = token_views(tokens@);
        let ghost errs0 = error_views(self.errors@);
        let c = self.advance();
        match c {
            '(' => self.push_token(TokenType::LeftParen, Literal::Empty, self.line, tokens),
            ')' => self.push_token(TokenType::RightParen, Literal::Empty, self.line, tokens),
            '{' => self.push_token(TokenType::LeftBrace, Literal::Empty, self.line, tokens),
            '}' => self.push_token(TokenType::RightBrace, Literal::Empty, self.line, tokens),
            ',' => self.push_token(TokenType::Comma, Literal::Empty, self.line, tokens),
            '.' => self.push_token(TokenType::Dot, Literal::Empty, self.line, tokens),
            '-' => self.push_token(TokenType::Minus, Literal::Empty, self.line, tokens),
            '+' => self.push_token(TokenType::Plus, Literal::Empty, self.line, tokens),
            ';' => self.push_token(TokenType::Semicolon, Literal::Empty, self.line, tokens),
            '*' => self.push_token(TokenType::Star, Literal::Empty, self.line, tokens),
            '!' => {
                let t = if self.check('=') { TokenType::BangEqual } else { TokenType::Bang };
                self.push_token(t, Literal::Empty, self.line, tokens)
            },
            '=' => {
                let t = if self.check('=') { TokenType::EqualEqual } else { TokenType::Equal };
                self.push_token(t, Literal::Empty, self.line, tokens)
            },
            '<' => {
                let t = if self.check('=') { TokenType::LessEqual } else { TokenType::Less };
                self.push_token(t, Literal::Empty, self.line, tokens)
            },
            '>' => {
                let t = if self.check('=') { TokenType::GreaterEqual } else { TokenType::Greater };
                self.push_token(t, Literal::Empty, self.line, tokens)
            },
            '/' => {
                if self.check('/') {
                    // A comment runs to the end of the line.
                    let ghost src = self.source@;
                    let ghost e = first_from(src, self.current as int, '\n');
                    while self.peek() != '\n' && !self.at_end()
                        invariant
                            self.wf(),
                            self.source@ == src,
                            self.start == old(self).start,
                            self.line == old(self).line,
                            self.errors == old(self).errors,
                            old(self).current <= self.current,
                            first_from(src, self.current as int, '\n') == e,
                        decreases src.len() - self.current,
                    {
                        self.advance();
                    }
                } else {
                    self.push_token(TokenType::Slash, Literal::Empty, self.line, tokens);
                }
            },
            '\n' => {
                self.line += 1;
            },
            ' ' | '\r' | '\t' => {},
            '"' => self.string(tokens),
            _ => {
                if Self::is_digit(c) {
                    self.number(tokens);
                } else if Self::is_alpha(c) {
                    self.identifier(tokens);
                } else {
                    let mut message = String::from_str("Unexpected character: ");
                    push_char(&mut message, c);
                    self.errors.push(
                        ExecutionError { line: self.line, location: String::new(), message },
                    );
                }
            },
        }
        assert(token_views(tokens@) =~= toks0 + emitted(d));
        assert(error_views(self.errors@) =~= errs0 + raised(d));
    }
}

} // verus!
