use vstd::prelude::*;

verus! {

/// Where a token was found: a 1-based line and the column of the last
/// character read for it.
#[derive(Debug, Clone, Copy, PartialEq, Eq, Structural)]
pub struct SourceLocation {
    pub line: usize,
    pub column: usize,
}

/// A token of the language, as produced by the scanner.
#[derive(Debug, Clone, PartialEq)]
pub enum Token {
    Illegal(char),
    Eof,
    Identifier(String),
    Number(String),
    String(String),
    Assign,
    Plus,
    Minus,
    Bang,
    Star,
    Slash,
    Equal,
    NotEqual,
    LessThan,
    GreaterThan,
    LessThanOrEqual,
    GreaterThanOrEqual,
    Comma,
    Semicolon,
    LeftParen,
    RightParen,
    LeftBrace,
    RightBrace,
    LeftBracket,
    RightBracket,
    Function,
    Let,
    True,
    False,
    If,
    Else,
    Return,
    Print,
    Nil,
    For,
    While,
    Class,
}

/// The variant tag of a `Token`, without its payload.
#[derive(Debug, Clone, Copy, PartialEq, Eq, Structural)]
pub enum TokenKind {
    Illegal,
    Eof,
    Identifier,
    Number,
    String,
    Assign,
    Plus,
    Minus,
    Bang,
    Star,
    Slash,
    Equal,
    NotEqual,
    LessThan,
    GreaterThan,
    LessThanOrEqual,
    GreaterThanOrEqual,
    Comma,
    Semicolon,
    LeftParen,
    RightParen,
    LeftBrace,
    RightBrace,
    LeftBracket,
    RightBracket,
    Function,
    Let,
    True,
    False,
    If,
    Else,
    Return,
    Print,
    Nil,
    For,
    While,
    Class,
}

pub open spec fn kind_of(t: Token) -> TokenKind {
    match t {
        Token::Illegal(_) => TokenKind::Illegal,
        Token::Eof => TokenKind::Eof,
        Token::Identifier(_) => TokenKind::Identifier,
        Token::Number(_) => TokenKind::Number,
        Token::String(_) => TokenKind::String,
        Token::Assign => TokenKind::Assign,
        Token::Plus => TokenKind::Plus,
        Token::Minus => TokenKind::Minus,
        Token::Bang => TokenKind::Bang,
        Token::Star => TokenKind::Star,
        Token::Slash => TokenKind::Slash,
        Token::Equal => TokenKind::Equal,
        Token::NotEqual => TokenKind::NotEqual,
        Token::LessThan => TokenKind::LessThan,
        Token::GreaterThan => TokenKind::GreaterThan,
        Token::LessThanOrEqual => TokenKind::LessThanOrEqual,
        Token::GreaterThanOrEqual => TokenKind::GreaterThanOrEqual,
        Token::Comma => TokenKind::Comma,
        Token::Semicolon => TokenKind::Semicolon,
        Token::LeftParen => TokenKind::LeftParen,
        Token::RightParen => TokenKind::RightParen,
        Token::LeftBrace => TokenKind::LeftBrace,
        Token::RightBrace => TokenKind::RightBrace,
        Token::LeftBracket => TokenKind::LeftBracket,
        Token::RightBracket => TokenKind::RightBracket,
        Token::Function => TokenKind::Function,
        Token::Let => TokenKind::Let,
        Token::True => TokenKind::True,
        Token::False => TokenKind::False,
        Token::If => TokenKind::If,
        Token::Else => TokenKind::Else,
        Token::Return => TokenKind::Return,
        Token::Print => TokenKind::Print,
        Token::Nil => TokenKind::Nil,
        Token::For => TokenKind::For,
        Token::While => TokenKind::While,
        Token::Class => TokenKind::Class,
    }
}

impl Token {
    /// The variant tag of this token; payloads are ignored.
    pub fn kind(&self) -> (k: TokenKind)
        ensures
            k == kind_of(*self),
    {
        match self {
            Token::Illegal(_) => TokenKind::Illegal,
            Token::Eof => TokenKind::Eof,
            Token::Identifier(_) => TokenKind::Identifier,
            Token::Number(_) => TokenKind::Number,
            Token::String(_) => TokenKind::String,
            Token::Assign => TokenKind::Assign,
            Token::Plus => TokenKind::Plus,
            Token::Minus => TokenKind::Minus,
            Token::Bang => TokenKind::Bang,
            Token::Star => TokenKind::Star,
            Token::Slash => TokenKind::Slash,
            Token::Equal => TokenKind::Equal,
            Token::NotEqual => TokenKind::NotEqual,
            Token::LessThan => TokenKind::LessThan,
            Token::GreaterThan => TokenKind::GreaterThan,
            Token::LessThanOrEqual => TokenKind::LessThanOrEqual,
            Token::GreaterThanOrEqual => TokenKind::GreaterThanOrEqual,
            Token::Comma => TokenKind::Comma,
            Token::Semicolon => TokenKind::Semicolon,
            Token::LeftParen => TokenKind::LeftParen,
            Token::RightParen => TokenKind::RightParen,
            Token::LeftBrace => TokenKind::LeftBrace,
            Token::RightBrace => TokenKind::RightBrace,
            Token::LeftBracket => TokenKind::LeftBracket,
            Token::RightBracket => TokenKind::RightBracket,
            Token::Function => TokenKind::Function,
            Token::Let => TokenKind::Let,
            Token::True => TokenKind::True,
            Token::False => TokenKind::False,
            Token::If => TokenKind::If,
            Token::Else => TokenKind::Else,
            Token::Return => TokenKind::Return,
            Token::Print => TokenKind::Print,
            Token::Nil => TokenKind::Nil,
            Token::For => TokenKind::For,
            Token::While => TokenKind::While,
            Token::Class => TokenKind::Class,
        }
    }
}

/// The keyword spelled by `word`, if it is one.
pub open spec fn keyword_of(word: Seq<char>) -> Option<Token> {
    if word == seq!['f', 'n'] {
        Some(Token::Function)
    } else if word == seq!['l', 'e', 't'] {
        Some(Token::Let)
    } else if word == seq!['t', 'r', 'u', 'e'] {
        Some(Token::True)
    } else if word == seq!['f', 'a', 'l', 's', 'e'] {
        Some(Token::False)
    } else if word == seq!['i', 'f'] {
        Some(Token::If)
    } else if word == seq!['e', 'l', 's', 'e'] {
        Some(Token::Else)
    } else if word == seq!['r', 'e', 't', 'u', 'r', 'n'] {
        Some(Token::Return)
    } else if word == seq!['p', 'r', 'i', 'n', 't'] {
        Some(Token::Print)
    } else if word == seq!['n', 'i', 'l'] {
        Some(Token::Nil)
    } else if word == seq!['f', 'o', 'r'] {
        Some(Token::For)
    } else if word == seq!['w', 'h', 'i', 'l', 'e'] {
        Some(Token::While)
    } else if word == seq!['c', 'l', 'a', 's', 's'] {
        Some(Token::Class)
    } else {
        None
    }
}

/// Whether `word` spells exactly `expected`.
fn spells(word: &str, expected: &str) -> (r: bool)
    ensures
        r == (word@ == expected@),
{
    let n = word.unicode_len();
    if n != expected.unicode_len() {
        return false;
    }
    let mut i: usize = 0;
    while i < n
        invariant
            n == word@.len(),
            n == expected@.len(),
            0 <= i <= n,
            word@.subrange(0, i as int) == expected@.subrange(0, i as int),
        decreases n - i,
    {
        if word.get_char(i) != expected.get_char(i) {
            assert(word@[i as int] != expected@[i as int]);
            return false;
        }
        assert(word@.subrange(0, i + 1) =~= word@.subrange(0, i as int).push(word@[i as int]));
        assert(expected@.subrange(0, i + 1) =~= expected@.subrange(0, i as int).push(
            expected@[i as int],
        ));
        i = i + 1;
    }
    assert(word@ =~= word@.subrange(0, n as int));
    assert(expected@ =~= expected@.subrange(0, n as int));
    true
}

/// The keyword token that `identifier` spells, or an identifier token
/// holding it.
pub fn lookup_identifier(identifier: String) -> (t: Token)
    ensures
        t == (match keyword_of(identifier@) {
            Some(k) => k,
            None => Token::Identifier(identifier),
        }),
{
    let w = identifier.as_str();
    proof {
        reveal_strlit("fn");
        assert("fn"@ =~= seq!['f', 'n']);
        reveal_strlit("let");
        assert("let"@ =~= seq!['l', 'e', 't']);
        reveal_strlit("true");
        assert("true"@ =~= seq!['t', 'r', 'u', 'e']);
        reveal_strlit("false");
        assert("false"@ =~= seq!['f', 'a', 'l', 's', 'e']);
        reveal_strlit("if");
        assert("if"@ =~= seq!['i', 'f']);
        reveal_strlit("else");
        assert("else"@ =~= seq!['e', 'l', 's', 'e']);
        reveal_strlit("return");
        assert("return"@ =~= seq!['r', 'e', 't', 'u', 'r', 'n']);
        reveal_strlit("print");
        assert("print"@ =~= seq!['p', 'r', 'i', 'n', 't']);
        reveal_strlit("nil");
        assert("nil"@ =~= seq!['n', 'i', 'l']);
        reveal_strlit("for");
        assert("for"@ =~= seq!['f', 'o', 'r']);
        reveal_strlit("while");
        assert("while"@ =~= seq!['w', 'h', 'i', 'l', 'e']);
        reveal_strlit("class");
        assert("class"@ =~= seq!['c', 'l', 'a', 's', 's']);
    }
    if spells(w, "fn") {
        Token::Function
    } else if spells(w, "let") {
        Token::Let
    } else if spells(w, "true") {
        Token::True
    } else if spells(w, "false") {
        Token::False
    } else if spells(w, "if") {
        Token::If
    } else if spells(w, "else") {
        Token::Else
    } else if spells(w, "return") {
        Token::Return
    } else if spells(w, "print") {
        Token::Print
    } else if spells(w, "nil") {
        Token::Nil
    } else if spells(w, "for") {
        Token::For
    } else if spells(w, "while") {
        Token::While
    } else if spells(w, "class") {
        Token::Class
    } else {
        Token::Identifier(identifier)
    }
}

} // verus!
