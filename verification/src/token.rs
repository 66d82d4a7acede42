//! The token model: token kinds, the token record, and keyword lookup.

use vstd::prelude::*;
use vstd::string::StrSliceExecFns;

verus! {

/// The kind of a token, together with the literal payload it carries.
///
/// Literal payloads borrow the source text: an identifier and a number carry
/// their exact lexeme, a string literal carries the text strictly between its
/// quotes.  A number's payload is the digit text of the literal; the numeric
/// value it denotes is fully determined by that text.
#[derive(Clone, Copy, Debug, PartialEq, Eq)]
pub enum TokenValue<'a> {
    // Single-character tokens.
    LeftParen,
    RightParen,
    LeftBrace,
    RightBrace,
    Comma,
    Dot,
    Minus,
    Plus,
    Semicolon,
    Slash,
    Star,
    // One or two character tokens.
    Bang,
    BangEqual,
    Equal,
    EqualEqual,
    Greater,
    GreaterEqual,
    Less,
    LessEqual,
    // Literals.
    Identifier(&'a str),
    String(&'a str),
    Number(&'a str),
    // Keywords.
    And,
    Class,
    Else,
    False,
    Fun,
    For,
    If,
    Nil,
    Or,
    Print,
    Return,
    Super,
    This,
    True,
    Var,
    While,
    // Sentinel.
    Eof,
}

/// The mathematical counterpart of [`TokenValue`]: payloads are character
/// sequences instead of borrowed slices.
pub enum SpecTokenValue {
    LeftParen,
    RightParen,
    LeftBrace,
    RightBrace,
    Comma,
    Dot,
    Minus,
    Plus,
    Semicolon,
    Slash,
    Star,
    Bang,
    BangEqual,
    Equal,
    EqualEqual,
    Greater,
    GreaterEqual,
    Less,
    LessEqual,
    Identifier(Seq<char>),
    String(Seq<char>),
    Number(Seq<char>),
    And,
    Class,
    Else,
    False,
    Fun,
    For,
    If,
    Nil,
    Or,
    Print,
    Return,
    Super,
    This,
    True,
    Var,
    While,
    Eof,
}

impl<'a> View for TokenValue<'a> {
    type V = SpecTokenValue;

    open spec fn view(&self) -> SpecTokenValue {
        match self {
            TokenValue::LeftParen => SpecTokenValue::LeftParen,
            TokenValue::RightParen => SpecTokenValue::RightParen,
            TokenValue::LeftBrace => SpecTokenValue::LeftBrace,
            TokenValue::RightBrace => SpecTokenValue::RightBrace,
            TokenValue::Comma => SpecTokenValue::Comma,
            TokenValue::Dot => SpecTokenValue::Dot,
            TokenValue::Minus => SpecTokenValue::Minus,
            TokenValue::Plus => SpecTokenValue::Plus,
            TokenValue::Semicolon => SpecTokenValue::Semicolon,
            TokenValue::Slash => SpecTokenValue::Slash,
            TokenValue::Star => SpecTokenValue::Star,
            TokenValue::Bang => SpecTokenValue::Bang,
            TokenValue::BangEqual => SpecTokenValue::BangEqual,
            TokenValue::Equal => SpecTokenValue::Equal,
            TokenValue::EqualEqual => SpecTokenValue::EqualEqual,
            TokenValue::Greater => SpecTokenValue::Greater,
            TokenValue::GreaterEqual => SpecTokenValue::GreaterEqual,
            TokenValue::Less => SpecTokenValue::Less,
            TokenValue::LessEqual => SpecTokenValue::LessEqual,
            TokenValue::Identifier(s) => SpecTokenValue::Identifier(s@),
            TokenValue::String(s) => SpecTokenValue::String(s@),
            TokenValue::Number(s) => SpecTokenValue::Number(s@),
            TokenValue::And => SpecTokenValue::And,
            TokenValue::Class => SpecTokenValue::Class,
            TokenValue::Else => SpecTokenValue::Else,
            TokenValue::False => SpecTokenValue::False,
            TokenValue::Fun => SpecTokenValue::Fun,
            TokenValue::For => SpecTokenValue::For,
            TokenValue::If => SpecTokenValue::If,
            TokenValue::Nil => SpecTokenValue::Nil,
            TokenValue::Or => SpecTokenValue::Or,
            TokenValue::Print => SpecTokenValue::Print,
            TokenValue::Return => SpecTokenValue::Return,
            TokenValue::Super => SpecTokenValue::Super,
            TokenValue::This => SpecTokenValue::This,
            TokenValue::True => SpecTokenValue::True,
            TokenValue::Var => SpecTokenValue::Var,
            TokenValue::While => SpecTokenValue::While,
            TokenValue::Eof => SpecTokenValue::Eof,
        }
    }
}

/// A classified unit of source text: its kind, the exact substring of the
/// source it was derived from, and the line it was recorded on.
#[derive(Clone, Copy, Debug, PartialEq, Eq)]
pub struct Token<'a> {
    pub value: TokenValue<'a>,
    pub lexeme: &'a str,
    pub line: usize,
}

/// The mathematical counterpart of [`Token`].
pub struct SpecToken {
    pub value: SpecTokenValue,
    pub lexeme: Seq<char>,
    pub line: int,
}

impl<'a> View for Token<'a> {
    type V = SpecToken;

    open spec fn view(&self) -> SpecToken {
        SpecToken { value: self.value@, lexeme: self.lexeme@, line: self.line as int }
    }
}

impl<'a> Token<'a> {
    pub fn new(value: TokenValue<'a>, lexeme: &'a str, line: usize) -> (t: Self)
        ensures
            t.value == value,
            t.lexeme == lexeme,
            t.line == line,
    {
        Self { value, lexeme, line }
    }
}

/// The keyword table: the kind a spelling stands for, or `None` for a
/// spelling that is an ordinary identifier.
pub open spec fn spec_keyword(s: Seq<char>) -> Option<SpecTokenValue> {
    if s == "and"@ {
        Some(SpecTokenValue::And)
    } else if s == "class"@ {
        Some(SpecTokenValue::Class)
    } else if s == "else"@ {
        Some(SpecTokenValue::Else)
    } else if s == "false"@ {
        Some(SpecTokenValue::False)
    } else if s == "fun"@ {
        Some(SpecTokenValue::Fun)
    } else if s == "for"@ {
        Some(SpecTokenValue::For)
    } else if s == "if"@ {
        Some(SpecTokenValue::If)
    } else if s == "nil"@ {
        Some(SpecTokenValue::Nil)
    } else if s == "or"@ {
        Some(SpecTokenValue::Or)
    } else if s == "print"@ {
        Some(SpecTokenValue::Print)
    } else if s == "return"@ {
        Some(SpecTokenValue::Return)
    } else if s == "super"@ {
        Some(SpecTokenValue::Super)
    } else if s == "this"@ {
        Some(SpecTokenValue::This)
    } else if s == "true"@ {
        Some(SpecTokenValue::True)
    } else if s == "var"@ {
        Some(SpecTokenValue::Var)
    } else if s == "while"@ {
        Some(SpecTokenValue::While)
    } else {
        None
    }
}

/// The view of an optional token kind.
pub open spec fn opt_value_view(r: Option<TokenValue>) -> Option<SpecTokenValue> {
    match r {
        Some(v) => Some(v@),
        None => None,
    }
}

/// The view of an optional token.
pub open spec fn opt_token_view(r: Option<Token>) -> Option<SpecToken> {
    match r {
        Some(t) => Some(t@),
        None => None,
    }
}

/// The views of a sequence of tokens, in order.
pub open spec fn token_views<'a>(s: Seq<Token<'a>>) -> Seq<SpecToken> {
    s.map_values(|t: Token<'a>| t@)
}

/// Character-by-character string equality.
fn str_eq(a: &str, b: &str) -> (r: bool)
    ensures
        r == (a@ == b@),
{
    let alen = a.unicode_len();
    let blen = b.unicode_len();
    if alen != blen {
        proof {
            assert(a@.len() != b@.len());
        }
        return false;
    }
    let mut i: usize = 0;
    while i < alen
        invariant
            alen == a@.len(),
            blen == b@.len(),
            alen == blen,
            i <= alen,
            forall|j: int| 0 <= j < i ==> a@[j] == b@[j],
        decreases alen - i,
    {
        if a.get_char(i) != b.get_char(i) {
            return false;
        }
        i += 1;
    }
    proof {
        assert(a@ =~= b@);
    }
    true
}

/// Looks an exact spelling up in the keyword table.
pub fn keyword<'a>(s: &str) -> (r: Option<TokenValue<'a>>)
    ensures
        opt_value_view(r) == spec_keyword(s@),
{
    if str_eq(s, "and") {
        Some(TokenValue::And)
    } else if str_eq(s, "class") {
        Some(TokenValue::Class)
    } else if str_eq(s, "else") {
        Some(TokenValue::Else)
    } else if str_eq(s, "false") {
        Some(TokenValue::False)
    } else if str_eq(s, "fun") {
        Some(TokenValue::Fun)
    } else if str_eq(s, "for") {
        Some(TokenValue::For)
    } else if str_eq(s, "if") {
        Some(TokenValue::If)
    } else if str_eq(s, "nil") {
        Some(TokenValue::Nil)
    } else if str_eq(s, "or") {
        Some(TokenValue::Or)
    } else if str_eq(s, "print") {
        Some(TokenValue::Print)
    } else if str_eq(s, "return") {
        Some(TokenValue::Return)
    } else if str_eq(s, "super") {
        Some(TokenValue::Super)
    } else if str_eq(s, "this") {
        Some(TokenValue::This)
    } else if str_eq(s, "true") {
        Some(TokenValue::True)
    } else if str_eq(s, "var") {
        Some(TokenValue::Var)
    } else if str_eq(s, "while") {
        Some(TokenValue::While)
    } else {
        None
    }
}

} // verus!
