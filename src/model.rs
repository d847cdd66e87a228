use vstd::prelude::*;

use crate::error::ErrorView;
use crate::token::{keyword_kind, LiteralView, TokenType, TokenView};

verus! {

/// The character at `i`, or `'\0'` where `i` is outside the text.
pub open spec fn char_at(src: Seq<char>, i: int) -> char {
    if 0 <= i < src.len() {
        src[i]
    } else {
        '\0'
    }
}

pub open spec fn decimal_digit(c: char) -> bool {
    '0' <= c <= '9'
}

/// A character that may begin an identifier.
pub open spec fn word_start(c: char) -> bool {
    ('a' <= c <= 'z') || ('A' <= c <= 'Z') || c == '_'
}

/// A character that may continue an identifier.
pub open spec fn word_char(c: char) -> bool {
    word_start(c) || decimal_digit(c)
}

/// The first index at or after `i` that holds no decimal digit.
pub open spec fn digits_end(src: Seq<char>, i: int) -> int
    decreases src.len() - i,
{
    if 0 <= i < src.len() && decimal_digit(src[i]) {
        digits_end(src, i + 1)
    } else {
        i
    }
}

/// The first index at or after `i` that holds no identifier character.
pub open spec fn word_end(src: Seq<char>, i: int) -> int
    decreases src.len() - i,
{
    if 0 <= i < src.len() && word_char(src[i]) {
        word_end(src, i + 1)
    } else {
        i
    }
}

/// The first index at or after `i` that holds `c`, or the length of the text.
pub open spec fn first_from(src: Seq<char>, i: int, c: char) -> int
    decreases src.len() - i,
{
    if 0 <= i < src.len() && src[i] != c {
        first_from(src, i + 1, c)
    } else {
        i
    }
}

/// Where a number that starts before `i` ends: digits, then optionally one `.`
/// that a digit follows, then digits again.
pub open spec fn number_end(src: Seq<char>, i: int) -> int {
    let a = digits_end(src, i);
    if char_at(src, a) == '.' && decimal_digit(char_at(src, a + 1)) {
        digits_end(src, a + 1)
    } else {
        a
    }
}

/// How many newline characters `s` holds.
pub open spec fn count_newlines(s: Seq<char>) -> nat
    decreases s.len(),
{
    if s.len() == 0 {
        0
    } else {
        count_newlines(s.drop_last()) + if s.last() == '\n' { 1nat } else { 0nat }
    }
}

/// What one dispatch step leaves behind.
pub enum Outcome {
    Emit(TokenView),
    Report(ErrorView),
    Skip,
}

/// One dispatch step: it reads `src[start..end]` and leaves the line counter at `line`.
pub struct Step {
    pub start: int,
    pub end: int,
    pub line: nat,
    pub outcome: Outcome,
}

/// A step that emits a token of `kind` with no payload.
pub open spec fn plain(src: Seq<char>, kind: TokenType, start: int, end: int, line: nat) -> Step {
    Step {
        start,
        end,
        line,
        outcome: Outcome::Emit(
            TokenView {
                token_type: kind,
                lexeme: src.subrange(start, end),
                literal: LiteralView::Empty,
                line,
            },
        ),
    }
}

/// A step that emits nothing.
pub open spec fn skip(start: int, end: int, line: nat) -> Step {
    Step { start, end, line, outcome: Outcome::Skip }
}

/// The message of a string literal that reaches the end of the text.
pub open spec fn unterminated_message() -> Seq<char> {
    "Unterminated "@ + "string"@
}

/// The message of a character that begins no lexeme.
pub open spec fn unexpected_message(c: char) -> Seq<char> {
    "Unexpected character: "@.push(c)
}

/// A one-character operator, or its two-character form when `=` follows.
pub open spec fn with_equal(
    src: Seq<char>,
    pos: int,
    line: nat,
    one: TokenType,
    two: TokenType,
) -> Step {
    if char_at(src, pos + 1) == '=' {
        plain(src, two, pos, pos + 2, line)
    } else {
        plain(src, one, pos, pos + 1, line)
    }
}

/// The string literal whose opening quote is at `pos`.
pub open spec fn string_step(src: Seq<char>, pos: int, line: nat) -> Step {
    let q = first_from(src, pos + 1, '"');
    let after = line + count_newlines(src.subrange(pos + 1, q));
    if q < src.len() {
        Step {
            start: pos,
            end: q + 1,
            line: after,
            outcome: Outcome::Emit(
                TokenView {
                    token_type: TokenType::String,
                    lexeme: src.subrange(pos, q + 1),
                    literal: LiteralView::String(src.subrange(pos + 1, q)),
                    line,
                },
            ),
        }
    } else {
        Step {
            start: pos,
            end: q,
            line: after,
            outcome: Outcome::Report(
                ErrorView { line: after, location: Seq::empty(), message: unterminated_message() },
            ),
        }
    }
}

/// The number whose first digit is at `pos`.
pub open spec fn number_step(src: Seq<char>, pos: int, line: nat) -> Step {
    let e = number_end(src, pos + 1);
    Step {
        start: pos,
        end: e,
        line,
        outcome: Outcome::Emit(
            TokenView {
                token_type: TokenType::Number,
                lexeme: src.subrange(pos, e),
                literal: LiteralView::Number(src.subrange(pos, e)),
                line,
            },
        ),
    }
}

/// The identifier or reserved word whose first character is at `pos`.
pub open spec fn word_step(src: Seq<char>, pos: int, line: nat) -> Step {
    let e = word_end(src, pos + 1);
    let text = src.subrange(pos, e);
    Step {
        start: pos,
        end: e,
        line,
        outcome: Outcome::Emit(
            TokenView {
                token_type: match keyword_kind(text) {
                    Some(k) => k,
                    None => TokenType::Identifier,
                },
                lexeme: text,
                literal: LiteralView::Identifier(text),
                line,
            },
        ),
    }
}

/// The dispatch step that begins at `pos` with the line counter at `line`.
pub open spec fn dispatch(src: Seq<char>, pos: int, line: nat) -> Step {
    let c = src[pos];
    if c == '(' {
        plain(src, TokenType::LeftParen, pos, pos + 1, line)
    } else if c == ')' {
        plain(src, TokenType::RightParen, pos, pos + 1, line)
    } else if c == '{' {
        plain(src, TokenType::LeftBrace, pos, pos + 1, line)
    } else if c == '}' {
        plain(src, TokenType::RightBrace, pos, pos + 1, line)
    } else if c == ',' {
        plain(src, TokenType::Comma, pos, pos + 1, line)
    } else if c == '.' {
        plain(src, TokenType::Dot, pos, pos + 1, line)
    } else if c == '-' {
        plain(src, TokenType::Minus, pos, pos + 1, line)
    } else if c == '+' {
        plain(src, TokenType::Plus, pos, pos + 1, line)
    } else if c == ';' {
        plain(src, TokenType::Semicolon, pos, pos + 1, line)
    } else if c == '*' {
        plain(src, TokenType::Star, pos, pos + 1, line)
    } else if c == '!' {
        with_equal(src, pos, line, TokenType::Bang, TokenType::BangEqual)
    } else if c == '=' {
        with_equal(src, pos, line, TokenType::Equal, TokenType::EqualEqual)
    } else if c == '<' {
        with_equal(src, pos, line, TokenType::Less, TokenType::LessEqual)
    } else if c == '>' {
        with_equal(src, pos, line, TokenType::Greater, TokenType::GreaterEqual)
    } else if c == '/' {
        if char_at(src, pos + 1) == '/' {
            skip(pos, first_from(src, pos + 2, '\n'), line)
        } else {
            plain(src, TokenType::Slash, pos, pos + 1, line)
        }
    } else if c == '\n' {
        skip(pos, pos + 1, line + 1)
    } else if c == ' ' || c == '\r' || c == '\t' {
        skip(pos, pos + 1, line)
    } else if c == '"' {
        string_step(src, pos, line)
    } else if decimal_digit(c) {
        number_step(src, pos, line)
    } else if word_start(c) {
        word_step(src, pos, line)
    } else {
        Step {
            start: pos,
            end: pos + 1,
            line,
            outcome: Outcome::Report(
                ErrorView { line, location: Seq::empty(), message: unexpected_message(c) },
            ),
        }
    }
}

pub proof fn lemma_digits_end(src: Seq<char>, i: int)
    requires
        0 <= i <= src.len(),
    ensures
        i <= digits_end(src, i) <= src.len(),
    decreases src.len() - i,
{
    if i < src.len() && decimal_digit(src[i]) {
        lemma_digits_end(src, i + 1);
    }
}

pub proof fn lemma_word_end(src: Seq<char>, i: int)
    requires
        0 <= i <= src.len(),
    ensures
        i <= word_end(src, i) <= src.len(),
    decreases src.len() - i,
{
    if i < src.len() && word_char(src[i]) {
        lemma_word_end(src, i + 1);
    }
}

pub proof fn lemma_first_from(src: Seq<char>, i: int, c: char)
    requires
        0 <= i <= src.len(),
    ensures
        i <= first_from(src, i, c) <= src.len(),
        first_from(src, i, c) < src.len() ==> src[first_from(src, i, c)] == c,
        forall|k: int| i <= k < first_from(src, i, c) ==> src[k] != c,
    decreases src.len() - i,
{
    if i < src.len() && src[i] != c {
        lemma_first_from(src, i + 1, c);
    }
}

/// Each dispatch step reads at least one character and stays within the text.
pub proof fn lemma_dispatch_advances(src: Seq<char>, pos: int, line: nat)
    requires
        0 <= pos < src.len(),
    ensures
        dispatch(src, pos, line).start == pos,
        pos < dispatch(src, pos, line).end <= src.len(),
{
    lemma_digits_end(src, pos + 1);
    lemma_word_end(src, pos + 1);
    lemma_first_from(src, pos + 1, '"');
    if pos + 2 <= src.len() {
        lemma_first_from(src, pos + 2, '\n');
    }
    let a = digits_end(src, pos + 1);
    if char_at(src, a) == '.' && decimal_digit(char_at(src, a + 1)) {
        lemma_digits_end(src, a + 1);
    }
}

/// The dispatch steps of a scan that begins at `pos` with the line counter at `line`.
pub open spec fn scan_steps(src: Seq<char>, pos: int, line: nat) -> Seq<Step>
    decreases src.len() - pos,
    via scan_steps_decreases
{
    if 0 <= pos < src.len() {
        let d = dispatch(src, pos, line);
        seq![d] + scan_steps(src, d.end, d.line)
    } else {
        Seq::empty()
    }
}

#[via_fn]
proof fn scan_steps_decreases(src: Seq<char>, pos: int, line: nat) {
    if 0 <= pos < src.len() {
        lemma_dispatch_advances(src, pos, line);
    }
}

/// The tokens that a step emits: none or one.
pub open spec fn emitted(s: Step) -> Seq<TokenView> {
    match s.outcome {
        Outcome::Emit(t) => seq![t],
        _ => Seq::empty(),
    }
}

/// The diagnostics that a step raises: none or one.
pub open spec fn raised(s: Step) -> Seq<ErrorView> {
    match s.outcome {
        Outcome::Report(e) => seq![e],
        _ => Seq::empty(),
    }
}

/// The tokens that `steps` emit, in order.
pub open spec fn tokens_of(steps: Seq<Step>) -> Seq<TokenView>
    decreases steps.len(),
{
    if steps.len() == 0 {
        Seq::empty()
    } else {
        tokens_of(steps.drop_last()) + emitted(steps.last())
    }
}

/// The diagnostics that `steps` raise, in order.
pub open spec fn errors_of(steps: Seq<Step>) -> Seq<ErrorView>
    decreases steps.len(),
{
    if steps.len() == 0 {
        Seq::empty()
    } else {
        errors_of(steps.drop_last()) + raised(steps.last())
    }
}

/// The tokens of the whole text `src`.
pub open spec fn scan_tokens(src: Seq<char>) -> Seq<TokenView> {
    tokens_of(scan_steps(src, 0, 1))
}

/// The diagnostics of the whole text `src`.
pub open spec fn scan_errors(src: Seq<char>) -> Seq<ErrorView> {
    errors_of(scan_steps(src, 0, 1))
}

} // verus!
