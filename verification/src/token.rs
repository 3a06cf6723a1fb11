//! Tokens, their kinds, and the spans that tie them to the source text.

use vstd::prelude::*;
use vstd::string::*;

verus! {

/// A half-open range of byte offsets into the source text.
#[derive(Debug, Clone, Copy, PartialEq, Eq, Structural)]
pub struct Span {
    pub start: usize,
    pub end: usize,
}

/// One lexical unit. Integer, identifier and string tokens carry the value
/// or text they were read from; all other tokens are determined by their
/// variant alone.
#[derive(Debug, PartialEq)]
pub enum Token {
    /// Stands in for a stretch of input that matched no lexical rule.
    Error,
    Integer(i32),
    TypeIdentifier(String),
    ObjectIdentifier(String),
    SelfLit,
    SelfType,
    String(String),
    Class,
    Else,
    Fi,
    If,
    In,
    Inherits,
    Isvoid,
    Let,
    Loop,
    Pool,
    Then,
    While,
    Case,
    Esac,
    New,
    Of,
    Not,
    True,
    False,
    Comment,
    Plus,
    Minus,
    Multiply,
    Divide,
    Tilde,
    LessThan,
    LessThanOrEqual,
    Equal,
    LeftParen,
    RightParen,
    DoubleArrow,
    Assign,
    Colon,
    TypeId,
    LeftBrace,
    RightBrace,
    Semicolon,
    Dot,
    Comma,
    Newline,
}

/// The variant of a token without its payload. `EndOfInput` is not the kind
/// of any token: it names the end of the token stream where a parser
/// reports what it expected to find.
#[derive(Debug, Clone, Copy, PartialEq, Eq, Structural)]
pub enum TokenKind {
    Error,
    Integer,
    TypeIdentifier,
    ObjectIdentifier,
    SelfLit,
    SelfType,
    String,
    Class,
    Else,
    Fi,
    If,
    In,
    Inherits,
    Isvoid,
    Let,
    Loop,
    Pool,
    Then,
    While,
    Case,
    Esac,
    New,
    Of,
    Not,
    True,
    False,
    Comment,
    Plus,
    Minus,
    Multiply,
    Divide,
    Tilde,
    LessThan,
    LessThanOrEqual,
    Equal,
    LeftParen,
    RightParen,
    DoubleArrow,
    Assign,
    Colon,
    TypeId,
    LeftBrace,
    RightBrace,
    Semicolon,
    Dot,
    Comma,
    Newline,
    EndOfInput,
}

/// The mathematical content of a token: its kind, the value of an integer
/// token (0 for all others) and the text of an identifier or string token
/// (empty for all others).
pub struct TokenView {
    pub kind: TokenKind,
    pub number: int,
    pub text: Seq<char>,
}

/// The view of a token that carries no payload.
pub open spec fn plain(kind: TokenKind) -> TokenView {
    TokenView { kind, number: 0, text: Seq::empty() }
}

/// The view of a token that carries text.
pub open spec fn worded(kind: TokenKind, text: Seq<char>) -> TokenView {
    TokenView { kind, number: 0, text }
}

/// The view of an integer token.
pub open spec fn numbered(value: int) -> TokenView {
    TokenView { kind: TokenKind::Integer, number: value, text: Seq::empty() }
}

impl View for Token {
    type V = TokenView;

    open spec fn view(&self) -> TokenView {
        match self {
            Token::Error => plain(TokenKind::Error),
            Token::Integer(i) => numbered(*i as int),
            Token::TypeIdentifier(s) => worded(TokenKind::TypeIdentifier, s@),
            Token::ObjectIdentifier(s) => worded(TokenKind::ObjectIdentifier, s@),
            Token::SelfLit => plain(TokenKind::SelfLit),
            Token::SelfType => plain(TokenKind::SelfType),
            Token::String(s) => worded(TokenKind::String, s@),
            Token::Class => plain(TokenKind::Class),
            Token::Else => plain(TokenKind::Else),
            Token::Fi => plain(TokenKind::Fi),
            Token::If => plain(TokenKind::If),
            Token::In => plain(TokenKind::In),
            Token::Inherits => plain(TokenKind::Inherits),
            Token::Isvoid => plain(TokenKind::Isvoid),
            Token::Let => plain(TokenKind::Let),
            Token::Loop => plain(TokenKind::Loop),
            Token::Pool => plain(TokenKind::Pool),
            Token::Then => plain(TokenKind::Then),
            Token::While => plain(TokenKind::While),
            Token::Case => plain(TokenKind::Case),
            Token::Esac => plain(TokenKind::Esac),
            Token::New => plain(TokenKind::New),
            Token::Of => plain(TokenKind::Of),
            Token::Not => plain(TokenKind::Not),
            Token::True => plain(TokenKind::True),
            Token::False => plain(TokenKind::False),
            Token::Comment => plain(TokenKind::Comment),
            Token::Plus => plain(TokenKind::Plus),
            Token::Minus => plain(TokenKind::Minus),
            Token::Multiply => plain(TokenKind::Multiply),
            Token::Divide => plain(TokenKind::Divide),
            Token::Tilde => plain(TokenKind::Tilde),
            Token::LessThan => plain(TokenKind::LessThan),
            Token::LessThanOrEqual => plain(TokenKind::LessThanOrEqual),
            Token::Equal => plain(TokenKind::Equal),
            Token::LeftParen => plain(TokenKind::LeftParen),
            Token::RightParen => plain(TokenKind::RightParen),
            Token::DoubleArrow => plain(TokenKind::DoubleArrow),
            Token::Assign => plain(TokenKind::Assign),
            Token::Colon => plain(TokenKind::Colon),
            Token::TypeId => plain(TokenKind::TypeId),
            Token::LeftBrace => plain(TokenKind::LeftBrace),
            Token::RightBrace => plain(TokenKind::RightBrace),
            Token::Semicolon => plain(TokenKind::Semicolon),
            Token::Dot => plain(TokenKind::Dot),
            Token::Comma => plain(TokenKind::Comma),
            Token::Newline => plain(TokenKind::Newline),
        }
    }
}

impl Token {
    /// The kind of this token.
    pub fn kind(&self) -> (k: TokenKind)
        ensures
            k == self@.kind,
            k != TokenKind::EndOfInput,
    {
        match self {
            Token::Error => TokenKind::Error,
            Token::Integer(_) => TokenKind::Integer,
            Token::TypeIdentifier(_) => TokenKind::TypeIdentifier,
            Token::ObjectIdentifier(_) => TokenKind::ObjectIdentifier,
            Token::SelfLit => TokenKind::SelfLit,
            Token::SelfType => TokenKind::SelfType,
            Token::String(_) => TokenKind::String,
            Token::Class => TokenKind::Class,
            Token::Else => TokenKind::Else,
            Token::Fi => TokenKind::Fi,
            Token::If => TokenKind::If,
            Token::In => TokenKind::In,
            Token::Inherits => TokenKind::Inherits,
            Token::Isvoid => TokenKind::Isvoid,
            Token::Let => TokenKind::Let,
            Token::Loop => TokenKind::Loop,
            Token::Pool => TokenKind::Pool,
            Token::Then => TokenKind::Then,
            Token::While => TokenKind::While,
            Token::Case => TokenKind::Case,
            Token::Esac => TokenKind::Esac,
            Token::New => TokenKind::New,
            Token::Of => TokenKind::Of,
            Token::Not => TokenKind::Not,
            Token::True => TokenKind::True,
            Token::False => TokenKind::False,
            Token::Comment => TokenKind::Comment,
            Token::Plus => TokenKind::Plus,
            Token::Minus => TokenKind::Minus,
            Token::Multiply => TokenKind::Multiply,
            Token::Divide => TokenKind::Divide,
            Token::Tilde => TokenKind::Tilde,
            Token::LessThan => TokenKind::LessThan,
            Token::LessThanOrEqual => TokenKind::LessThanOrEqual,
            Token::Equal => TokenKind::Equal,
            Token::LeftParen => TokenKind::LeftParen,
            Token::RightParen => TokenKind::RightParen,
            Token::DoubleArrow => TokenKind::DoubleArrow,
            Token::Assign => TokenKind::Assign,
            Token::Colon => TokenKind::Colon,
            Token::TypeId => TokenKind::TypeId,
            Token::LeftBrace => TokenKind::LeftBrace,
            Token::RightBrace => TokenKind::RightBrace,
            Token::Semicolon => TokenKind::Semicolon,
            Token::Dot => TokenKind::Dot,
            Token::Comma => TokenKind::Comma,
            Token::Newline => TokenKind::Newline,
        }
    }
}

impl Clone for Token {
    fn clone(&self) -> (t: Self)
        ensures
            t@ == self@,
    {
        match self {
            Token::Error => Token::Error,
            Token::Integer(i) => Token::Integer(*i),
            Token::TypeIdentifier(s) => Token::TypeIdentifier(s.clone()),
            Token::ObjectIdentifier(s) => Token::ObjectIdentifier(s.clone()),
            Token::SelfLit => Token::SelfLit,
            Token::SelfType => Token::SelfType,
            Token::String(s) => Token::String(s.clone()),
            Token::Class => Token::Class,
            Token::Else => Token::Else,
            Token::Fi => Token::Fi,
            Token::If => Token::If,
            Token::In => Token::In,
            Token::Inherits => Token::Inherits,
            Token::Isvoid => Token::Isvoid,
            Token::Let => Token::Let,
            Token::Loop => Token::Loop,
            Token::Pool => Token::Pool,
            Token::Then => Token::Then,
            Token::While => Token::While,
            Token::Case => Token::Case,
            Token::Esac => Token::Esac,
            Token::New => Token::New,
            Token::Of => Token::Of,
            Token::Not => Token::Not,
            Token::True => Token::True,
            Token::False => Token::False,
            Token::Comment => Token::Comment,
            Token::Plus => Token::Plus,
            Token::Minus => Token::Minus,
            Token::Multiply => Token::Multiply,
            Token::Divide => Token::Divide,
            Token::Tilde => Token::Tilde,
            Token::LessThan => Token::LessThan,
            Token::LessThanOrEqual => Token::LessThanOrEqual,
            Token::Equal => Token::Equal,
            Token::LeftParen => Token::LeftParen,
            Token::RightParen => Token::RightParen,
            Token::DoubleArrow => Token::DoubleArrow,
            Token::Assign => Token::Assign,
            Token::Colon => Token::Colon,
            Token::TypeId => Token::TypeId,
            Token::LeftBrace => Token::LeftBrace,
            Token::RightBrace => Token::RightBrace,
            Token::Semicolon => Token::Semicolon,
            Token::Dot => Token::Dot,
            Token::Comma => Token::Comma,
            Token::Newline => Token::Newline,
        }
    }
}

/// A token together with the place it was read from.
#[derive(Debug, PartialEq)]
pub struct SpannedToken {
    pub token: Token,
    pub span: Span,
}

impl Clone for SpannedToken {
    fn clone(&self) -> (t: Self)
        ensures
            t.token@ == self.token@,
            t.span == self.span,
    {
        SpannedToken { token: self.token.clone(), span: self.span }
    }
}

/// The text of one decimal digit.
pub open spec fn digit_text(d: nat) -> Seq<char> {
    if d == 0 {
        "0"@
    } else if d == 1 {
        "1"@
    } else if d == 2 {
        "2"@
    } else if d == 3 {
        "3"@
    } else if d == 4 {
        "4"@
    } else if d == 5 {
        "5"@
    } else if d == 6 {
        "6"@
    } else if d == 7 {
        "7"@
    } else if d == 8 {
        "8"@
    } else {
        "9"@
    }
}

/// The decimal digits of `n`, without leading zeros.
pub open spec fn decimal_text(n: nat) -> Seq<char>
    decreases n,
{
    if n < 10 {
        digit_text(n)
    } else {
        decimal_text(n / 10) + digit_text(n % 10)
    }
}

/// The decimal form of `n`, with a minus sign if it is negative.
pub open spec fn number_text(n: int) -> Seq<char> {
    if n < 0 {
        "-"@ + decimal_text((-n) as nat)
    } else {
        decimal_text(n as nat)
    }
}

/// The text that a token is written as: its value for an integer, its
/// text for an identifier or a string, the word or sign itself for a
/// reserved word, an operator or a punctuation mark, and the name of the
/// variant for a comment and for the `Error` token.
pub open spec fn token_text(token: TokenView) -> Seq<char> {
    match token.kind {
        TokenKind::Integer => number_text(token.number),
        TokenKind::TypeIdentifier => token.text,
        TokenKind::ObjectIdentifier => token.text,
        TokenKind::String => token.text,
        TokenKind::Error => "Error"@,
        TokenKind::SelfLit => "self"@,
        TokenKind::SelfType => "SELF_TYPE"@,
        TokenKind::Class => "class"@,
        TokenKind::Else => "else"@,
        TokenKind::Fi => "fi"@,
        TokenKind::If => "if"@,
        TokenKind::In => "in"@,
        TokenKind::Inherits => "inherits"@,
        TokenKind::Isvoid => "isvoid"@,
        TokenKind::Let => "let"@,
        TokenKind::Loop => "loop"@,
        TokenKind::Pool => "pool"@,
        TokenKind::Then => "then"@,
        TokenKind::While => "while"@,
        TokenKind::Case => "case"@,
        TokenKind::Esac => "esac"@,
        TokenKind::New => "new"@,
        TokenKind::Of => "of"@,
        TokenKind::Not => "not"@,
        TokenKind::True => "true"@,
        TokenKind::False => "false"@,
        TokenKind::Comment => "Comment"@,
        TokenKind::Plus => "+"@,
        TokenKind::Minus => "-"@,
        TokenKind::Multiply => "*"@,
        TokenKind::Divide => "/"@,
        TokenKind::Tilde => "~"@,
        TokenKind::LessThan => "<"@,
        TokenKind::LessThanOrEqual => "<="@,
        TokenKind::Equal => "="@,
        TokenKind::LeftParen => "("@,
        TokenKind::RightParen => ")"@,
        TokenKind::DoubleArrow => "=>"@,
        TokenKind::Assign => "<-"@,
        TokenKind::Colon => ":"@,
        TokenKind::TypeId => "@"@,
        TokenKind::LeftBrace => "{"@,
        TokenKind::RightBrace => "}"@,
        TokenKind::Semicolon => ";"@,
        TokenKind::Dot => "."@,
        TokenKind::Comma => ","@,
        TokenKind::Newline => "\n"@,
        TokenKind::EndOfInput => Seq::empty(),
    }
}

/// The text of the decimal digit `d`.
fn digit_str(d: u32) -> (s: &'static str)
    requires
        d < 10,
    ensures
        s@ == digit_text(d as nat),
{
    if d == 0 {
        "0"
    } else if d == 1 {
        "1"
    } else if d == 2 {
        "2"
    } else if d == 3 {
        "3"
    } else if d == 4 {
        "4"
    } else if d == 5 {
        "5"
    } else if d == 6 {
        "6"
    } else if d == 7 {
        "7"
    } else if d == 8 {
        "8"
    } else {
        "9"
    }
}

/// Appends the decimal digits of `n` to `out`.
fn push_decimal(n: u32, out: &mut String)
    ensures
        final(out)@ == old(out)@ + decimal_text(n as nat),
    decreases n,
{
    if n >= 10 {
        push_decimal(n / 10, out);
    }
    out.append(digit_str(n % 10));
    assert(out@ =~= old(out)@ + decimal_text(n as nat));
}

/// The decimal form of `n`.
fn number_string(n: i32) -> (s: String)
    ensures
        s@ == number_text(n as int),
{
    let mut out = String::new();
    if n < 0 {
        out.append("-");
        let magnitude: i64 = -(n as i64);
        push_decimal(magnitude as u32, &mut out);
    } else {
        push_decimal(n as u32, &mut out);
    }
    assert(out@ =~= number_text(n as int));
    out
}

impl Token {
    /// The text that this token is written as.
    pub fn text(&self) -> (s: String)
        ensures
            s@ == token_text(self@),
    {
        match self {
            Token::Integer(i) => number_string(*i),
            Token::TypeIdentifier(s) => s.clone(),
            Token::ObjectIdentifier(s) => s.clone(),
            Token::String(s) => s.clone(),
            Token::Error => "Error".to_owned(),
            Token::SelfLit => "self".to_owned(),
            Token::SelfType => "SELF_TYPE".to_owned(),
            Token::Class => "class".to_owned(),
            Token::Else => "else".to_owned(),
            Token::Fi => "fi".to_owned(),
            Token::If => "if".to_owned(),
            Token::In => "in".to_owned(),
            Token::Inherits => "inherits".to_owned(),
            Token::Isvoid => "isvoid".to_owned(),
            Token::Let => "let".to_owned(),
            Token::Loop => "loop".to_owned(),
            Token::Pool => "pool".to_owned(),
            Token::Then => "then".to_owned(),
            Token::While => "while".to_owned(),
            Token::Case => "case".to_owned(),
            Token::Esac => "esac".to_owned(),
            Token::New => "new".to_owned(),
            Token::Of => "of".to_owned(),
            Token::Not => "not".to_owned(),
            Token::True => "true".to_owned(),
            Token::False => "false".to_owned(),
            Token::Comment => "Comment".to_owned(),
            Token::Plus => "+".to_owned(),
            Token::Minus => "-".to_owned(),
            Token::Multiply => "*".to_owned(),
            Token::Divide => "/".to_owned(),
            Token::Tilde => "~".to_owned(),
            Token::LessThan => "<".to_owned(),
            Token::LessThanOrEqual => "<=".to_owned(),
            Token::Equal => "=".to_owned(),
            Token::LeftParen => "(".to_owned(),
            Token::RightParen => ")".to_owned(),
            Token::DoubleArrow => "=>".to_owned(),
            Token::Assign => "<-".to_owned(),
            Token::Colon => ":".to_owned(),
            Token::TypeId => "@".to_owned(),
            Token::LeftBrace => "{".to_owned(),
            Token::RightBrace => "}".to_owned(),
            Token::Semicolon => ";".to_owned(),
            Token::Dot => ".".to_owned(),
            Token::Comma => ",".to_owned(),
            Token::Newline => "\n".to_owned(),
        }
    }
}

} // verus!
