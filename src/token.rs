use vstd::prelude::*;

use crate::text::chars_of;

verus! {

/// The closed set of token categories.
#[derive(Clone, Copy, Debug, PartialEq, Eq, Structural)]
pub enum TokenType {
    // Single-character tokens.
    LeftParen,
    RightParen,
    LeftBrace,
    RightBrace,
    Comma,
    Dot,
    Minus,
    Plus,
    Semicolon,
    Slash,
    Star,
    // One or two character tokens.
    Bang,
    BangEqual,
    Equal,
    EqualEqual,
    Greater,
    GreaterEqual,
    Less,
    LessEqual,
    // Literals.
    Identifier,
    String,
    Number,
    // Keywords.
    And,
    Class,
    Else,
    False,
    Fun,
    For,
    If,
    Nil,
    Or,
    Print,
    Return,
    Super,
    This,
    True,
    Var,
    While,
    Eof,
}

/// The reserved word spelled by `s`, if any.
pub open spec fn keyword_kind(s: Seq<char>) -> Option<TokenType> {
    if s == seq!['a', 'n', 'd'] {
        Some(TokenType::And)
    } else if s == seq!['c', 'l', 'a', 's', 's'] {
        Some(TokenType::Class)
    } else if s == seq!['e', 'l', 's', 'e'] {
        Some(TokenType::Else)
    } else if s == seq!['f', 'a', 'l', 's', 'e'] {
        Some(TokenType::False)
    } else if s == seq!['f', 'o', 'r'] {
        Some(TokenType::For)
    } else if s == seq!['f', 'u', 'n'] {
        Some(TokenType::Fun)
    } else if s == seq!['i', 'f'] {
        Some(TokenType::If)
    } else if s == seq!['n', 'i', 'l'] {
        Some(TokenType::Nil)
    } else if s == seq!['o', 'r'] {
        Some(TokenType::Or)
    } else if s == seq!['p', 'r', 'i', 'n', 't'] {
        Some(TokenType::Print)
    } else if s == seq!['r', 'e', 't', 'u', 'r', 'n'] {
        Some(TokenType::Return)
    } else if s == seq!['s', 'u', 'p', 'e', 'r'] {
        Some(TokenType::Super)
    } else if s == seq!['t', 'h', 'i', 's'] {
        Some(TokenType::This)
    } else if s == seq!['t', 'r', 'u', 'e'] {
        Some(TokenType::True)
    } else if s == seq!['v', 'a', 'r'] {
        Some(TokenType::Var)
    } else if s == seq!['w', 'h', 'i', 'l', 'e'] {
        Some(TokenType::While)
    } else {
        None
    }
}

/// Whether `src[from..to]` spells `word` exactly.
fn spells(src: &Vec<char>, from: usize, to: usize, word: &[char]) -> (r: bool)
    requires
        from <= to <= src@.len(),
    ensures
        r == (src@.subrange(from as int, to as int) == word@),
{
    if to - from != word.len() {
        return false;
    }
    let mut i: usize = 0;
    while i < word.len()
        invariant
            from <= to <= src@.len(),
            to - from == word@.len(),
            i <= word@.len(),
            forall|k: int| 0 <= k < i ==> src@[from + k] == word@[k],
        decreases word@.len() - i,
    {
        if src[from + i] != word[i] {
            assert(src@.subrange(from as int, to as int)[i as int] != word@[i as int]);
            return false;
        }
        i += 1;
    }
    assert(src@.subrange(from as int, to as int) =~= word@);
    true
}

/// The reserved word spelled by `src[from..to]`, if any.
pub(crate) fn keyword_in(src: &Vec<char>, from: usize, to: usize) -> (r: Option<TokenType>)
    requires
        from <= to <= src@.len(),
    ensures
        r == keyword_kind(src@.subrange(from as int, to as int)),
{
    assert(['a', 'n', 'd']@ =~= seq!['a', 'n', 'd']);
    if spells(src, from, to, &['a', 'n', 'd']) {
        return Some(TokenType::And);
    }
    assert(['c', 'l', 'a', 's', 's']@ =~= seq!['c', 'l', 'a', 's', 's']);
    if spells(src, from, to, &['c', 'l', 'a', 's', 's']) {
        return Some(TokenType::Class);
    }
    assert(['e', 'l', 's', 'e']@ =~= seq!['e', 'l', 's', 'e']);
    if spells(src, from, to, &['e', 'l', 's', 'e']) {
        return Some(TokenType::Else);
    }
    assert(['f', 'a', 'l', 's', 'e']@ =~= seq!['f', 'a', 'l', 's', 'e']);
    if spells(src, from, to, &['f', 'a', 'l', 's', 'e']) {
        return Some(TokenType::False);
    }
    assert(['f', 'o', 'r']@ =~= seq!['f', 'o', 'r']);
    if spells(src, from, to, &['f', 'o', 'r']) {
        return Some(TokenType::For);
    }
    assert(['f', 'u', 'n']@ =~= seq!['f', 'u', 'n']);
    if spells(src, from, to, &['f', 'u', 'n']) {
        return Some(TokenType::Fun);
    }
    assert(['i', 'f']@ =~= seq!['i', 'f']);
    if spells(src, from, to, &['i', 'f']) {
        return Some(TokenType::If);
    }
    assert(['n', 'i', 'l']@ =~= seq!['n', 'i', 'l']);
    if spells(src, from, to, &['n', 'i', 'l']) {
        return Some(TokenType::Nil);
    }
    assert(['o', 'r']@ =~= seq!['o', 'r']);
    if spells(src, from, to, &['o', 'r']) {
        return Some(TokenType::Or);
    }
    assert(['p', 'r', 'i', 'n', 't']@ =~= seq!['p', 'r', 'i', 'n', 't']);
    if spells(src, from, to, &['p', 'r', 'i', 'n', 't']) {
        return Some(TokenType::Print);
    }
    assert(['r', 'e', 't', 'u', 'r', 'n']@ =~= seq!['r', 'e', 't', 'u', 'r', 'n']);
    if spells(src, from, to, &['r', 'e', 't', 'u', 'r', 'n']) {
        return Some(TokenType::Return);
    }
    assert(['s', 'u', 'p', 'e', 'r']@ =~= seq!['s', 'u', 'p', 'e', 'r']);
    if spells(src, from, to, &['s', 'u', 'p', 'e', 'r']) {
        return Some(TokenType::Super);
    }
    assert(['t', 'h', 'i', 's']@ =~= seq!['t', 'h', 'i', 's']);
    if spells(src, from, to, &['t', 'h', 'i', 's']) {
        return Some(TokenType::This);
    }
    assert(['t', 'r', 'u', 'e']@ =~= seq!['t', 'r', 'u', 'e']);
    if spells(src, from, to, &['t', 'r', 'u', 'e']) {
        return Some(TokenType::True);
    }
    assert(['v', 'a', 'r']@ =~= seq!['v', 'a', 'r']);
    if spells(src, from, to, &['v', 'a', 'r']) {
        return Some(TokenType::Var);
    }
    assert(['w', 'h', 'i', 'l', 'e']@ =~= seq!['w', 'h', 'i', 'l', 'e']);
    if spells(src, from, to, &['w', 'h', 'i', 'l', 'e']) {
        return Some(TokenType::While);
    }
    None
}

/// The payload that a token carries.
///
/// A number keeps the decimal text that was scanned for it: digits, then at
/// most one `.` followed by at least one digit. Turning that text into a
/// floating-point value is left to the consumer.
#[derive(Clone, Debug, PartialEq)]
pub enum Literal {
    Empty,
    Identifier(String),
    String(String),
    Number(String),
}

/// A literal as plain sequences of characters.
pub enum LiteralView {
    Empty,
    Identifier(Seq<char>),
    String(Seq<char>),
    Number(Seq<char>),
}

impl View for Literal {
    type V = LiteralView;

    open spec fn view(&self) -> LiteralView {
        match self {
            Literal::Empty => LiteralView::Empty,
            Literal::Identifier(s) => LiteralView::Identifier(s@),
            Literal::String(s) => LiteralView::String(s@),
            Literal::Number(s) => LiteralView::Number(s@),
        }
    }
}

/// One classified unit of source text.
#[derive(Clone, Debug, PartialEq)]
pub struct Token {
    pub token_type: TokenType,
    /// The exact source text that was matched.
    pub lexeme: String,
    pub literal: Literal,
    /// The 1-based line on which the token's first character stands.
    pub line: usize,
}

/// A token as plain values.
pub struct TokenView {
    pub token_type: TokenType,
    pub lexeme: Seq<char>,
    pub literal: LiteralView,
    pub line: nat,
}

impl View for Token {
    type V = TokenView;

    open spec fn view(&self) -> TokenView {
        TokenView {
            token_type: self.token_type,
            lexeme: self.lexeme@,
            literal: self.literal@,
            line: self.line as nat,
        }
    }
}

impl Token {
    pub fn new(token_type: TokenType, lexeme: String, literal: Literal, line: usize) -> (r: Token)
        ensures
            r.token_type == token_type,
            r.lexeme == lexeme,
            r.literal == literal,
            r.line == line,
    {
        Token { token_type, lexeme, literal, line }
    }
}

/// The reserved word that `identifier` spells, or `None` for any other text.
pub fn keyword(identifier: &str) -> (r: Option<TokenType>)
    ensures
        r == keyword_kind(identifier@),
{
    let cs = chars_of(identifier);
    let r = keyword_in(&cs, 0, cs.len());
    assert(cs@.subrange(0, cs@.len() as int) =~= identifier@);
    r
}

} // verus!
