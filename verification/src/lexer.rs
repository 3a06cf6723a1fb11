//! The tokenizer: the scanning functions, each proved to find what the
//! lexical rules say, and the `Lexer` that hands out one token at a time.

use vstd::prelude::*;
use vstd::slice::*;
use vstd::string::*;
use vstd::utf8::*;
use crate::lexical::{
    character_end, comment_end, decimal, digits_end, gap_end, is_blank, is_continuation, is_digit,
    is_lower, is_newline, is_upper, is_word, lemma_line_breaks_add, lemma_line_start_add,
    lexeme_at, lexemes, line_breaks, line_end, line_start,
    lowered, next_lexeme, number_at, pair_at, recovered, reserved, skip_end, spells, spells_loosely,
    string_at, string_end, symbol_at, text_between, word_at, word_end, word_kind, Lexeme, StringEnd,
};
use crate::text::{cut_at, lemma_boundary_after_ascii, lemma_cut_is_boundary, piece};
use crate::token::{plain, Span, SpannedToken, TokenKind, TokenView};

pub use crate::lexical::LexError;
pub use crate::token::Token;

verus! {

/// Whether `b` is a blank.
pub(crate) fn blank(b: u8) -> (r: bool)
    ensures
        r == is_blank(b),
{
    b == ' ' as u8 || b == '\t' as u8 || b == '\r' as u8 || b == 0x0c
}

/// Whether `b` is a digit.
pub(crate) fn digit(b: u8) -> (r: bool)
    ensures
        r == is_digit(b),
{
    ('0' as u8) <= b && b <= ('9' as u8)
}

/// Whether `b` is a capital letter.
pub(crate) fn upper(b: u8) -> (r: bool)
    ensures
        r == is_upper(b),
{
    ('A' as u8) <= b && b <= ('Z' as u8)
}

/// Whether `b` is a small letter.
pub(crate) fn lower(b: u8) -> (r: bool)
    ensures
        r == is_lower(b),
{
    ('a' as u8) <= b && b <= ('z' as u8)
}

/// Whether `b` can stand inside an identifier.
pub(crate) fn word(b: u8) -> (r: bool)
    ensures
        r == is_word(b),
{
    upper(b) || lower(b) || digit(b) || b == '_' as u8
}

/// Skips blanks and line breaks from `pos` on and returns where the
/// skipping ends.
pub(crate) fn skip(src: &[u8], pos: usize) -> (end: usize)
    requires
        pos <= src.len(),
    ensures
        end == skip_end(src@, pos as int),
        pos <= end <= src.len(),
        forall|i: int| pos <= i < end ==> src@[i] < 128,
{
    let mut i = pos;
    while i < src.len() && (blank(src[i]) || src[i] == '\n' as u8)
        invariant
            pos <= i <= src.len(),
            skip_end(src@, pos as int) == skip_end(src@, i as int),
            forall|j: int| pos <= j < i ==> src@[j] < 128,
        decreases src.len() - i,
    {
        i = i + 1;
    }
    i
}

/// Counts the line breaks among the bytes `from..to`, whether they stand
/// between tokens or inside one. `line` is the number of line breaks
/// before `from` and `begin` the offset after the last of them; returned
/// are the two for `to`.
pub(crate) fn count_lines(src: &[u8], from: usize, to: usize, line: usize, begin: usize) -> (r: (
    usize,
    usize,
))
    requires
        from <= to <= src.len(),
        line <= from,
        begin <= from,
    ensures
        r.0 == line + line_breaks(src@, from as int, to as int),
        r.1 == line_start(src@, from as int, to as int, begin as int),
        r.0 <= to,
        r.1 <= to,
{
    let mut i = from;
    let mut line = line;
    let mut begin = begin;
    let ghost line0 = line;
    let ghost begin0 = begin;
    while i < to
        invariant
            from <= i <= to <= src.len(),
            line == line0 + line_breaks(src@, from as int, i as int),
            begin == line_start(src@, from as int, i as int, begin0 as int),
            line <= i,
            begin <= i,
        decreases to - i,
    {
        if src[i] == '\n' as u8 {
            line = line + 1;
            begin = i + 1;
        }
        i = i + 1;
    }
    (line, begin)
}

/// The end of the run of identifier bytes that starts at `pos`.
pub(crate) fn scan_word(src: &[u8], pos: usize) -> (end: usize)
    requires
        pos <= src.len(),
    ensures
        end == word_end(src@, pos as int),
        pos <= end <= src.len(),
        forall|i: int| pos <= i < end ==> is_word(src@[i]),
        pos < src.len() && is_word(src@[pos as int]) ==> pos < end,
{
    let mut i = pos;
    while i < src.len() && word(src[i])
        invariant
            pos <= i <= src.len(),
            word_end(src@, pos as int) == word_end(src@, i as int),
            forall|j: int| pos <= j < i ==> is_word(src@[j]),
        decreases src.len() - i,
    {
        i = i + 1;
    }
    i
}

/// The end of the run of digits that starts at `pos`.
pub(crate) fn scan_digits(src: &[u8], pos: usize) -> (end: usize)
    requires
        pos <= src.len(),
    ensures
        end == digits_end(src@, pos as int),
        pos <= end <= src.len(),
        forall|i: int| pos <= i < end ==> is_digit(src@[i]),
        pos < src.len() && is_digit(src@[pos as int]) ==> pos < end,
{
    let mut i = pos;
    while i < src.len() && digit(src[i])
        invariant
            pos <= i <= src.len(),
            digits_end(src@, pos as int) == digits_end(src@, i as int),
            forall|j: int| pos <= j < i ==> is_digit(src@[j]),
        decreases src.len() - i,
    {
        i = i + 1;
    }
    i
}

/// The position of the first line break from `pos` on, or the end.
pub(crate) fn scan_line(src: &[u8], pos: usize) -> (end: usize)
    requires
        pos <= src.len(),
    ensures
        end == line_end(src@, pos as int),
        pos <= end <= src.len(),
        end < src.len() ==> is_newline(src@[end as int]),
{
    let mut i = pos;
    while i < src.len() && src[i] != '\n' as u8
        invariant
            pos <= i <= src.len(),
            line_end(src@, pos as int) == line_end(src@, i as int),
        decreases src.len() - i,
    {
        i = i + 1;
    }
    i
}

/// The end of the run of spaces and tabs that starts at `pos`.
pub(crate) fn scan_gap(src: &[u8], pos: usize) -> (end: usize)
    requires
        pos <= src.len(),
    ensures
        end == gap_end(src@, pos as int),
        pos <= end <= src.len(),
{
    let mut i = pos;
    while i < src.len() && (src[i] == ' ' as u8 || src[i] == '\t' as u8)
        invariant
            pos <= i <= src.len(),
            gap_end(src@, pos as int) == gap_end(src@, i as int),
        decreases src.len() - i,
    {
        i = i + 1;
    }
    i
}

/// The end of the run of continuation bytes that starts at `pos`.
pub(crate) fn scan_character(src: &[u8], pos: usize) -> (end: usize)
    requires
        pos <= src.len(),
    ensures
        end == character_end(src@, pos as int),
        pos <= end <= src.len(),
        end < src.len() ==> !is_continuation(src@[end as int]),
{
    let mut i = pos;
    while i < src.len() && 0x80 <= src[i] && src[i] <= 0xbf
        invariant
            pos <= i <= src.len(),
            character_end(src@, pos as int) == character_end(src@, i as int),
        decreases src.len() - i,
    {
        i = i + 1;
    }
    i
}

/// Whether the two bytes at `pos` are `first` and `second`.
pub(crate) fn pair(src: &[u8], pos: usize, first: u8, second: u8) -> (r: bool)
    requires
        pos < src.len(),
    ensures
        r == pair_at(src@, pos as int, first, second),
{
    pos + 1 < src.len() && src[pos] == first && src[pos + 1] == second
}

/// Scans a block comment from `pos` on, which stands after its opener.
pub(crate) fn scan_comment(src: &[u8], pos: usize) -> (end: Option<usize>)
    requires
        pos <= src.len(),
    ensures
        match end {
            Some(e) => comment_end(src@, pos as int, 1) == Some(e as int) && pos + 2 <= e
                <= src.len() && src@[e - 1] == ')' as u8,
            None => comment_end(src@, pos as int, 1) is None,
        },
{
    let mut i = pos;
    let mut depth: usize = 1;
    while i < src.len()
        invariant
            pos <= i <= src.len(),
            1 <= depth <= 1 + (i - pos),
            comment_end(src@, pos as int, 1) == comment_end(src@, i as int, depth as nat),
        decreases src.len() - i,
    {
        if pair(src, i, '(' as u8, '*' as u8) {
            depth = depth + 1;
            i = i + 2;
        } else if pair(src, i, '*' as u8, ')' as u8) {
            if depth == 1 {
                return Some(i + 2);
            }
            depth = depth - 1;
            i = i + 2;
        } else {
            i = i + 1;
        }
    }
    None
}

/// How the scan of a string literal ended, and where.
pub(crate) enum StringStop {
    Closed(usize),
    Open(usize),
    Escape(usize),
}

/// Scans the inside of a string literal from `pos` on.
pub(crate) fn scan_string(src: &[u8], pos: usize) -> (stop: StringStop)
    requires
        pos <= src.len(),
    ensures
        match stop {
            StringStop::Closed(e) => string_end(src@, pos as int) == StringEnd::Closed(e as int)
                && pos < e <= src.len() && src@[e - 1] == '"' as u8,
            StringStop::Open(e) => string_end(src@, pos as int) == StringEnd::Open(e as int) && pos
                <= e <= src.len() && (e < src.len() ==> is_newline(src@[e as int])),
            StringStop::Escape(e) => string_end(src@, pos as int) == StringEnd::Escape(e as int)
                && pos + 2 <= e <= src.len() && src@[e - 1] == '0' as u8,
        },
{
    let mut i = pos;
    while i < src.len()
        invariant
            pos <= i <= src.len(),
            string_end(src@, pos as int) == string_end(src@, i as int),
        decreases src.len() - i,
    {
        let b = src[i];
        if b == '"' as u8 {
            return StringStop::Closed(i + 1);
        } else if b == '\n' as u8 {
            return StringStop::Open(i);
        } else if b == '\\' as u8 {
            if i + 1 >= src.len() {
                return StringStop::Open(src.len());
            } else if src[i + 1] == '0' as u8 {
                return StringStop::Escape(i + 2);
            } else {
                let gap = scan_gap(src, i + 1);
                if gap < src.len() && src[gap] == '\n' as u8 {
                    i = gap + 1;
                } else {
                    i = i + 2;
                }
            }
        } else {
            i = i + 1;
        }
    }
    StringStop::Open(src.len())
}

/// The value of the digits `start..end`, if it fits.
pub(crate) fn read_number(src: &[u8], start: usize, end: usize) -> (value: Option<i32>)
    requires
        start <= end <= src.len(),
        forall|i: int| start <= i < end ==> is_digit(src@[i]),
    ensures
        match value {
            Some(v) => decimal(src@.subrange(start as int, end as int)) == v,
            None => decimal(src@.subrange(start as int, end as int)) > i32::MAX,
        },
{
    let mut i = start;
    let mut value: i32 = 0;
    let mut fits = true;
    assert(src@.subrange(start as int, start as int) =~= Seq::<u8>::empty());
    while i < end
        invariant
            start <= i <= end <= src.len(),
            forall|j: int| start <= j < end ==> is_digit(src@[j]),
            fits ==> decimal(src@.subrange(start as int, i as int)) == value,
            !fits ==> decimal(src@.subrange(start as int, i as int)) > i32::MAX,
            0 <= value,
        decreases end - i,
    {
        let d: i32 = (src[i] - '0' as u8) as i32;
        assert(src@.subrange(start as int, i + 1).drop_last() =~= src@.subrange(
            start as int,
            i as int,
        ));
        if fits {
            if value > (i32::MAX - d) / 10 {
                fits = false;
            } else {
                value = value * 10 + d;
            }
        }
        i = i + 1;
    }
    if fits {
        Some(value)
    } else {
        None
    }
}

/// The lower-case form of a letter; any other byte as it is.
pub(crate) fn to_lower(b: u8) -> (r: u8)
    ensures
        r == lowered(b),
{
    if upper(b) {
        b + 32
    } else {
        b
    }
}

/// Whether the bytes `start..end` are `word`, letter for letter.
pub(crate) fn is_spelled(src: &[u8], start: usize, end: usize, word: &str) -> (r: bool)
    requires
        start <= end <= src.len(),
        is_ascii(word),
    ensures
        r == spells(src@.subrange(start as int, end as int), word@),
{
    broadcast use is_ascii_spec_bytes;

    let letters = word.as_bytes();
    if letters.len() != end - start {
        return false;
    }
    let mut i: usize = 0;
    while i < letters.len()
        invariant
            start <= end <= src.len(),
            letters.len() == end - start,
            letters@.len() == word@.len(),
            i <= letters.len(),
            forall|j: int| 0 <= j < letters@.len() ==> letters@[j] == #[trigger] word@[j] as u8,
            forall|j: int|
                0 <= j < i ==> src@.subrange(start as int, end as int)[j] == #[trigger] word@[j] as u8,
        decreases letters.len() - i,
    {
        if src[start + i] != letters[i] {
            assert(src@.subrange(start as int, end as int)[i as int] != word@[i as int] as u8);
            return false;
        }
        i = i + 1;
    }
    true
}

/// Whether the bytes `start..end` are the lower-case word `word` but for
/// the case of their letters.
pub(crate) fn is_spelled_loosely(src: &[u8], start: usize, end: usize, word: &str) -> (r: bool)
    requires
        start <= end <= src.len(),
        is_ascii(word),
    ensures
        r == spells_loosely(src@.subrange(start as int, end as int), word@),
{
    broadcast use is_ascii_spec_bytes;

    let letters = word.as_bytes();
    if letters.len() != end - start {
        return false;
    }
    let mut i: usize = 0;
    while i < letters.len()
        invariant
            start <= end <= src.len(),
            letters.len() == end - start,
            letters@.len() == word@.len(),
            i <= letters.len(),
            forall|j: int| 0 <= j < letters@.len() ==> letters@[j] == #[trigger] word@[j] as u8,
            forall|j: int|
                0 <= j < i ==> lowered(src@.subrange(start as int, end as int)[j])
                    == #[trigger] word@[j] as u8,
        decreases letters.len() - i,
    {
        if to_lower(src[start + i]) != letters[i] {
            assert(lowered(src@.subrange(start as int, end as int)[i as int]) != word@[i as int]
                as u8);
            return false;
        }
        i = i + 1;
    }
    true
}

/// The reserved word that the bytes `start..end` are, if they are one.
pub(crate) fn read_reserved(src: &[u8], start: usize, end: usize) -> (kind: Option<TokenKind>)
    requires
        start <= end <= src.len(),
    ensures
        kind == reserved(src@.subrange(start as int, end as int)),
{
    proof {
        reveal_strlit("class");
    }
    if is_spelled_loosely(src, start, end, "class") {
        return Some(TokenKind::Class);
    }
    proof {
        reveal_strlit("else");
    }
    if is_spelled_loosely(src, start, end, "else") {
        return Some(TokenKind::Else);
    }
    proof {
        reveal_strlit("fi");
    }
    if is_spelled_loosely(src, start, end, "fi") {
        return Some(TokenKind::Fi);
    }
    proof {
        reveal_strlit("if");
    }
    if is_spelled_loosely(src, start, end, "if") {
        return Some(TokenKind::If);
    }
    proof {
        reveal_strlit("in");
    }
    if is_spelled_loosely(src, start, end, "in") {
        return Some(TokenKind::In);
    }
    proof {
        reveal_strlit("inherits");
    }
    if is_spelled_loosely(src, start, end, "inherits") {
        return Some(TokenKind::Inherits);
    }
    proof {
        reveal_strlit("isvoid");
    }
    if is_spelled_loosely(src, start, end, "isvoid") {
        return Some(TokenKind::Isvoid);
    }
    proof {
        reveal_strlit("let");
    }
    if is_spelled_loosely(src, start, end, "let") {
        return Some(TokenKind::Let);
    }
    proof {
        reveal_strlit("loop");
    }
    if is_spelled_loosely(src, start, end, "loop") {
        return Some(TokenKind::Loop);
    }
    proof {
        reveal_strlit("pool");
    }
    if is_spelled_loosely(src, start, end, "pool") {
        return Some(TokenKind::Pool);
    }
    proof {
        reveal_strlit("then");
    }
    if is_spelled_loosely(src, start, end, "then") {
        return Some(TokenKind::Then);
    }
    proof {
        reveal_strlit("while");
    }
    if is_spelled_loosely(src, start, end, "while") {
        return Some(TokenKind::While);
    }
    proof {
        reveal_strlit("case");
    }
    if is_spelled_loosely(src, start, end, "case") {
        return Some(TokenKind::Case);
    }
    proof {
        reveal_strlit("esac");
    }
    if is_spelled_loosely(src, start, end, "esac") {
        return Some(TokenKind::Esac);
    }
    proof {
        reveal_strlit("new");
    }
    if is_spelled_loosely(src, start, end, "new") {
        return Some(TokenKind::New);
    }
    proof {
        reveal_strlit("of");
    }
    if is_spelled_loosely(src, start, end, "of") {
        return Some(TokenKind::Of);
    }
    proof {
        reveal_strlit("not");
    }
    if is_spelled_loosely(src, start, end, "not") {
        return Some(TokenKind::Not);
    }
    None
}

/// The kind of token that the run of identifier bytes `start..end` is.
pub(crate) fn read_word_kind(src: &[u8], start: usize, end: usize) -> (kind: TokenKind)
    requires
        start < end <= src.len(),
    ensures
        kind == word_kind(src@.subrange(start as int, end as int)),
        kind != TokenKind::EndOfInput,
{
    proof {
        reveal_strlit("self");
        reveal_strlit("SELF_TYPE");
        reveal_strlit("true");
        reveal_strlit("false");
    }
    match read_reserved(src, start, end) {
        Some(kind) => kind,
        None => {
            if is_spelled(src, start, end, "self") {
                TokenKind::SelfLit
            } else if is_spelled(src, start, end, "SELF_TYPE") {
                TokenKind::SelfType
            } else if lower(src[start]) && is_spelled_loosely(src, start, end, "true") {
                TokenKind::True
            } else if lower(src[start]) && is_spelled_loosely(src, start, end, "false") {
                TokenKind::False
            } else if upper(src[start]) {
                TokenKind::TypeIdentifier
            } else {
                TokenKind::ObjectIdentifier
            }
        },
    }
}

/// The kinds of token that carry a value or a text.
pub open spec fn carries(kind: TokenKind) -> bool {
    kind == TokenKind::Integer || kind == TokenKind::TypeIdentifier || kind
        == TokenKind::ObjectIdentifier || kind == TokenKind::String
}

/// The token of a kind that carries nothing.
pub(crate) fn plain_token(kind: TokenKind) -> (token: Token)
    ensures
        !carries(kind) && kind != TokenKind::EndOfInput ==> token@ == plain(kind),
{
    match kind {
        TokenKind::Error => Token::Error,
        TokenKind::SelfLit => Token::SelfLit,
        TokenKind::SelfType => Token::SelfType,
        TokenKind::Class => Token::Class,
        TokenKind::Else => Token::Else,
        TokenKind::Fi => Token::Fi,
        TokenKind::If => Token::If,
        TokenKind::In => Token::In,
        TokenKind::Inherits => Token::Inherits,
        TokenKind::Isvoid => Token::Isvoid,
        TokenKind::Let => Token::Let,
        TokenKind::Loop => Token::Loop,
        TokenKind::Pool => Token::Pool,
        TokenKind::Then => Token::Then,
        TokenKind::While => Token::While,
        TokenKind::Case => Token::Case,
        TokenKind::Esac => Token::Esac,
        TokenKind::New => Token::New,
        TokenKind::Of => Token::Of,
        TokenKind::Not => Token::Not,
        TokenKind::True => Token::True,
        TokenKind::False => Token::False,
        TokenKind::Comment => Token::Comment,
        TokenKind::Plus => Token::Plus,
        TokenKind::Minus => Token::Minus,
        TokenKind::Multiply => Token::Multiply,
        TokenKind::Divide => Token::Divide,
        TokenKind::Tilde => Token::Tilde,
        TokenKind::LessThan => Token::LessThan,
        TokenKind::LessThanOrEqual => Token::LessThanOrEqual,
        TokenKind::Equal => Token::Equal,
        TokenKind::LeftParen => Token::LeftParen,
        TokenKind::RightParen => Token::RightParen,
        TokenKind::DoubleArrow => Token::DoubleArrow,
        TokenKind::Assign => Token::Assign,
        TokenKind::Colon => Token::Colon,
        TokenKind::TypeId => Token::TypeId,
        TokenKind::LeftBrace => Token::LeftBrace,
        TokenKind::RightBrace => Token::RightBrace,
        TokenKind::Semicolon => Token::Semicolon,
        TokenKind::Dot => Token::Dot,
        TokenKind::Comma => Token::Comma,
        TokenKind::Newline => Token::Newline,
        _ => Token::Error,
    }
}

/// The view of what a step of the tokenizer found.
pub open spec fn found_view(found: Result<Token, LexError>) -> Result<TokenView, LexError> {
    match found {
        Ok(token) => Ok(token@),
        Err(error) => Err(error),
    }
}

/// What a scan found, and where it ends.
pub(crate) struct Scanned {
    pub found: Result<Token, LexError>,
    pub end: usize,
}

/// The scan `s` from `start` found what the rule `lexeme` says, and it
/// ends where a character ends.
pub(crate) open spec fn scanned_as(s: Scanned, src: Seq<u8>, start: int, lexeme: Lexeme) -> bool {
    &&& found_view(s.found) == lexeme.found
    &&& lexeme.start == start
    &&& lexeme.end == s.end
    &&& start < s.end <= src.len()
    &&& cut_at(src, s.end as int)
}

/// Scans the token that starts with a digit at `start`.
fn scan_number(source: &str, start: usize) -> (s: Scanned)
    requires
        start < source.spec_bytes().len(),
        is_digit(source.spec_bytes()[start as int]),
    ensures
        scanned_as(s, source.spec_bytes(), start as int, number_at(source.spec_bytes(), start as int)),
{
    let src = source.as_bytes();
    let end = scan_digits(src, start);
    match read_number(src, start, end) {
        Some(value) => Scanned { found: Ok(Token::Integer(value)), end },
        None => Scanned { found: Err(LexError::IntegerOutOfRange), end },
    }
}

/// Scans the token that starts with a letter at `start`.
fn scan_name(source: &str, start: usize) -> (s: Scanned)
    requires
        start < source.spec_bytes().len(),
        is_upper(source.spec_bytes()[start as int]) || is_lower(source.spec_bytes()[start as int]),
        is_char_boundary(source.spec_bytes(), start as int),
    ensures
        scanned_as(s, source.spec_bytes(), start as int, word_at(source.spec_bytes(), start as int)),
{
    let src = source.as_bytes();
    let end = scan_word(src, start);
    let kind = read_word_kind(src, start, end);
    proof {
        encode_utf8_valid_utf8(source@);
        lemma_cut_is_boundary(src@, end as int);
    }
    let found = match kind {
        TokenKind::TypeIdentifier => Token::TypeIdentifier(piece(source, start, end).to_owned()),
        TokenKind::ObjectIdentifier => Token::ObjectIdentifier(piece(source, start, end).to_owned()),
        _ => plain_token(kind),
    };
    Scanned { found: Ok(found), end }
}

/// Scans the token that starts with a double quote at `start`.
fn scan_literal(source: &str, start: usize) -> (s: Scanned)
    requires
        start < source.spec_bytes().len(),
        source.spec_bytes()[start as int] == '"' as u8,
        is_char_boundary(source.spec_bytes(), start as int),
    ensures
        scanned_as(s, source.spec_bytes(), start as int, string_at(source.spec_bytes(), start as int)),
{
    let src = source.as_bytes();
    assert(start < src.len());
    match scan_string(src, start + 1) {
        StringStop::Closed(end) => {
            proof {
                encode_utf8_valid_utf8(source@);
                lemma_cut_is_boundary(src@, end as int);
            }
            Scanned { found: Ok(Token::String(piece(source, start, end).to_owned())), end }
        },
        StringStop::Open(end) => Scanned { found: Err(LexError::UnterminatedString), end },
        StringStop::Escape(end) => Scanned { found: Err(LexError::InvalidEscape), end },
    }
}

/// Scans the token that starts with an operator or a punctuation mark at
/// `start`.
fn scan_symbol(source: &str, start: usize) -> (s: Scanned)
    requires
        start < source.spec_bytes().len(),
    ensures
        scanned_as(s, source.spec_bytes(), start as int, symbol_at(source.spec_bytes(), start as int)),
{
    let src = source.as_bytes();
    let b = src[start];
    if pair(src, start, '-' as u8, '-' as u8) {
        Scanned { found: Ok(Token::Comment), end: scan_line(src, start + 2) }
    } else if pair(src, start, '(' as u8, '*' as u8) {
        match scan_comment(src, start + 2) {
            Some(end) => Scanned { found: Ok(Token::Comment), end },
            None => Scanned { found: Err(LexError::UnterminatedComment), end: src.len() },
        }
    } else if pair(src, start, '<' as u8, '=' as u8) {
        Scanned { found: Ok(Token::LessThanOrEqual), end: start + 2 }
    } else if pair(src, start, '<' as u8, '-' as u8) {
        Scanned { found: Ok(Token::Assign), end: start + 2 }
    } else if pair(src, start, '=' as u8, '>' as u8) {
        Scanned { found: Ok(Token::DoubleArrow), end: start + 2 }
    } else if b == '+' as u8 {
        Scanned { found: Ok(Token::Plus), end: start + 1 }
    } else if b == '-' as u8 {
        Scanned { found: Ok(Token::Minus), end: start + 1 }
    } else if b == '*' as u8 {
        Scanned { found: Ok(Token::Multiply), end: start + 1 }
    } else if b == '/' as u8 {
        Scanned { found: Ok(Token::Divide), end: start + 1 }
    } else if b == '~' as u8 {
        Scanned { found: Ok(Token::Tilde), end: start + 1 }
    } else if b == '<' as u8 {
        Scanned { found: Ok(Token::LessThan), end: start + 1 }
    } else if b == '=' as u8 {
        Scanned { found: Ok(Token::Equal), end: start + 1 }
    } else if b == '(' as u8 {
        Scanned { found: Ok(Token::LeftParen), end: start + 1 }
    } else if b == ')' as u8 {
        Scanned { found: Ok(Token::RightParen), end: start + 1 }
    } else if b == ':' as u8 {
        Scanned { found: Ok(Token::Colon), end: start + 1 }
    } else if b == '@' as u8 {
        Scanned { found: Ok(Token::TypeId), end: start + 1 }
    } else if b == '{' as u8 {
        Scanned { found: Ok(Token::LeftBrace), end: start + 1 }
    } else if b == '}' as u8 {
        Scanned { found: Ok(Token::RightBrace), end: start + 1 }
    } else if b == ';' as u8 {
        Scanned { found: Ok(Token::Semicolon), end: start + 1 }
    } else if b == '.' as u8 {
        Scanned { found: Ok(Token::Dot), end: start + 1 }
    } else if b == ',' as u8 {
        Scanned { found: Ok(Token::Comma), end: start + 1 }
    } else {
        Scanned { found: Err(LexError::UnrecognizedChar), end: scan_character(src, start + 1) }
    }
}

/// Scans the token that starts at `start`.
pub(crate) fn scan_token(source: &str, start: usize) -> (s: Scanned)
    requires
        start < source.spec_bytes().len(),
        is_char_boundary(source.spec_bytes(), start as int),
    ensures
        scanned_as(s, source.spec_bytes(), start as int, lexeme_at(source.spec_bytes(), start as int)),
{
    let src = source.as_bytes();
    let b = src[start];
    if digit(b) {
        scan_number(source, start)
    } else if upper(b) || lower(b) {
        scan_name(source, start)
    } else if b == '"' as u8 {
        scan_literal(source, start)
    } else {
        scan_symbol(source, start)
    }
}

/// A tokenizer over one source text. It hands out the tokens of the text
/// one by one, from the start, and keeps count of the line breaks that
/// stand before the token it handed out last.
pub struct Lexer<'a> {
    source: &'a str,
    pos: usize,
    token: Span,
    line: usize,
    begin: usize,
}

impl<'a> Lexer<'a> {
    /// The positions lie within the text, in their order, and none splits
    /// a character. The two counters hold the number of line breaks before
    /// the last token and the offset after the last of them.
    #[verifier::type_invariant]
    spec fn well_formed(self) -> bool {
        &&& self.token.start <= self.token.end <= self.pos <= self.source.spec_bytes().len()
        &&& is_char_boundary(self.source.spec_bytes(), self.token.start as int)
        &&& is_char_boundary(self.source.spec_bytes(), self.token.end as int)
        &&& is_char_boundary(self.source.spec_bytes(), self.pos as int)
        &&& self.line == line_breaks(self.source.spec_bytes(), 0, self.token.start as int)
        &&& self.begin == line_start(self.source.spec_bytes(), 0, self.token.start as int, 0)
        &&& self.line <= self.token.start
        &&& self.begin <= self.token.start
    }

    /// The bytes of the source text.
    pub closed spec fn bytes(self) -> Seq<u8> {
        self.source.spec_bytes()
    }

    /// The offset from which the next token is looked for.
    pub closed spec fn position(self) -> int {
        self.pos as int
    }

    /// The span of the token that was handed out last.
    pub closed spec fn last_span(self) -> Span {
        self.token
    }

    /// The number of line breaks counted so far.
    pub closed spec fn lines(self) -> int {
        self.line as int
    }

    /// The offset after the last line break counted so far.
    pub closed spec fn line_begin(self) -> int {
        self.begin as int
    }

    /// A tokenizer at the start of `source`.
    pub fn new(source: &'a str) -> (lexer: Self)
        ensures
            lexer.bytes() == source.spec_bytes(),
            lexer.position() == 0,
            lexer.last_span() == (Span { start: 0, end: 0 }),
            lexer.lines() == 0,
            lexer.line_begin() == 0,
    {
        proof {
            encode_utf8_valid_utf8(source@);
            is_char_boundary_start_end_of_seq(source.spec_bytes());
        }
        Lexer { source, pos: 0, token: Span { start: 0, end: 0 }, line: 0, begin: 0 }
    }

    /// Hands out the next token, or the failure to find one, and `None`
    /// when the text holds no more.
    ///
    /// Blanks and line breaks before the token are passed over. What
    /// follows is the longest token that starts there. After a failure the
    /// tokenizer goes on behind the bytes that the failure spans.
    ///
    /// The counters then tell where the token starts: how many line breaks
    /// stand before it in the text, inside earlier tokens or between
    /// them, and at which offset its line begins. After `None` they tell
    /// the same of the end of the text.
    pub fn next(&mut self) -> (found: Option<Result<Token, LexError>>)
        ensures
            final(self).bytes() == old(self).bytes(),
            match next_lexeme(old(self).bytes(), old(self).position()) {
                Some(lexeme) => {
                    &&& found matches Some(f)
                    &&& found_view(f) == lexeme.found
                    &&& final(self).last_span().start == lexeme.start
                    &&& final(self).last_span().end == lexeme.end
                    &&& final(self).position() == lexeme.end
                    &&& old(self).position() <= lexeme.start < lexeme.end <= old(self).bytes().len()
                },
                None => {
                    &&& found is None
                    &&& final(self).position() == old(self).bytes().len()
                    &&& final(self).last_span().start == old(self).bytes().len()
                    &&& final(self).last_span().end == old(self).bytes().len()
                },
            },
            final(self).lines() == line_breaks(
                final(self).bytes(),
                0,
                final(self).last_span().start as int,
            ),
            final(self).line_begin() == line_start(
                final(self).bytes(),
                0,
                final(self).last_span().start as int,
                0,
            ),
    {
        proof {
            use_type_invariant(&*self);
            encode_utf8_valid_utf8(self.source@);
        }
        let source = self.source;
        let src = source.as_bytes();
        let start = skip(src, self.pos);
        let (line, begin) = count_lines(src, self.token.start, start, self.line, self.begin);
        proof {
            lemma_skipped_to_boundary(src@, self.pos as int, start as int);
            lemma_line_breaks_add(src@, 0, self.token.start as int, start as int);
            lemma_line_start_add(src@, 0, self.token.start as int, start as int, 0);
        }
        if start >= src.len() {
            *self = Lexer { source, pos: start, token: Span { start, end: start }, line, begin };
            None
        } else {
            let scanned = scan_token(source, start);
            proof {
                lemma_cut_is_boundary(src@, scanned.end as int);
            }
            *self = Lexer {
                source,
                pos: scanned.end,
                token: Span { start, end: scanned.end },
                line,
                begin,
            };
            Some(scanned.found)
        }
    }

    /// The span of the token that was handed out last.
    pub fn span(&self) -> (span: Span)
        ensures
            span == self.last_span(),
    {
        self.token
    }

    /// The text of the token that was handed out last.
    pub fn slice(&self) -> (text: &'a str)
        ensures
            text@ == text_between(
                self.bytes(),
                self.last_span().start as int,
                self.last_span().end as int,
            ),
    {
        proof {
            use_type_invariant(self);
        }
        piece(self.source, self.token.start, self.token.end)
    }

    /// Where the token starts that was handed out last: the number of line
    /// breaks that stand before it in the text, and the offset at which its
    /// line begins.
    pub fn extras(&self) -> (counters: (usize, usize))
        ensures
            counters.0 == self.lines(),
            counters.1 == self.line_begin(),
            counters.0 == line_breaks(self.bytes(), 0, self.last_span().start as int),
            counters.1 == line_start(self.bytes(), 0, self.last_span().start as int, 0),
    {
        proof {
            use_type_invariant(self);
        }
        (self.line, self.begin)
    }
}

/// Skipped bytes are all below 128, so the skipping ends where a character
/// starts.
proof fn lemma_skipped_to_boundary(src: Seq<u8>, from: int, to: int)
    requires
        valid_utf8(src),
        0 <= from <= to <= src.len(),
        is_char_boundary(src, from),
        forall|i: int| from <= i < to ==> src[i] < 128,
    ensures
        is_char_boundary(src, to),
{
    if from < to {
        lemma_boundary_after_ascii(src, to - 1);
    }
}

impl Token {
    /// A tokenizer at the start of `source`.
    pub fn lexer<'a>(source: &'a str) -> (lexer: Lexer<'a>)
        ensures
            lexer.bytes() == source.spec_bytes(),
            lexer.position() == 0,
            lexer.last_span() == (Span { start: 0, end: 0 }),
            lexer.lines() == 0,
            lexer.line_begin() == 0,
    {
        Lexer::new(source)
    }
}

/// The token stream `tokens` holds, in order, what the lexemes `lexemes`
/// stand for: for each lexeme its token, or the `Error` token where it is
/// a failure, with its span.
pub open spec fn stream_of(tokens: Seq<SpannedToken>, lexemes: Seq<Lexeme>) -> bool {
    &&& tokens.len() == lexemes.len()
    &&& forall|i: int|
        0 <= i < tokens.len() ==> {
            &&& (#[trigger] tokens[i]).token@ == recovered(lexemes[i].found)
            &&& tokens[i].span.start == lexemes[i].start
            &&& tokens[i].span.end == lexemes[i].end
        }
}

/// Reads all tokens of `source`. A stretch that is no token is not left
/// out: the `Error` token stands for it, so that what follows is still
/// read.
pub fn tokenize(source: &str) -> (tokens: Vec<SpannedToken>)
    ensures
        stream_of(tokens@, lexemes(source.spec_bytes(), 0)),
{
    let mut lexer = Lexer::new(source);
    let mut tokens: Vec<SpannedToken> = Vec::new();
    let ghost src = source.spec_bytes();
    let ghost seen: Seq<Lexeme> = Seq::empty();
    loop
        invariant
            src == source.spec_bytes(),
            lexer.bytes() == src,
            0 <= lexer.position() <= src.len(),
            lexemes(src, 0) =~= seen + lexemes(src, lexer.position()),
            stream_of(tokens@, seen),
        decreases src.len() - lexer.position(),
    {
        let ghost before = lexer.position();
        match lexer.next() {
            None => {
                assert(lexemes(src, before) =~= Seq::<Lexeme>::empty());
                assert(seen + Seq::<Lexeme>::empty() =~= seen);
                assert(lexemes(src, 0) == seen);
                return tokens;
            },
            Some(found) => {
                let token = match found {
                    Ok(token) => token,
                    Err(_) => Token::Error,
                };
                let ghost lexeme = next_lexeme(src, before)->0;
                proof {
                    assert(lexemes(src, before) =~= seq![lexeme] + lexemes(src, lexeme.end));
                    assert(seen + (seq![lexeme] + lexemes(src, lexeme.end)) =~= seen.push(lexeme)
                        + lexemes(src, lexeme.end));
                    seen = seen.push(lexeme);
                }
                tokens.push(SpannedToken { token, span: lexer.span() });
            },
        }
    }
}

} // verus!
