//! The lexical rules, as functions on the bytes of the source text.
//!
//! A token is the longest stretch of input that one of the rules matches.
//! Where a stretch is a reserved word as well as an identifier, it is the
//! reserved word.

use vstd::prelude::*;
use vstd::utf8::decode_utf8;
use crate::token::{numbered, plain, worded, TokenKind, TokenView};

verus! {

/// Why a stretch of input is not a token.
#[derive(Debug, Clone, Copy, PartialEq, Eq, Structural)]
pub enum LexError {
    /// The input matches no lexical rule here.
    UnrecognizedChar,
    /// A block comment is open where the input ends.
    UnterminatedComment,
    /// A string literal meets a line break or the end of the input before
    /// its closing quote.
    UnterminatedString,
    /// A string literal holds a backslash followed by the digit 0.
    InvalidEscape,
    /// An integer literal is larger than the largest 32-bit signed value.
    IntegerOutOfRange,
}

/// Space, tab, carriage return and form feed: skipped between tokens.
pub open spec fn is_blank(b: u8) -> bool {
    b == ' ' as u8 || b == '\t' as u8 || b == '\r' as u8 || b == 0x0c
}

/// The line break.
pub open spec fn is_newline(b: u8) -> bool {
    b == '\n' as u8
}

/// A decimal digit.
pub open spec fn is_digit(b: u8) -> bool {
    ('0' as u8) <= b && b <= ('9' as u8)
}

/// A capital letter.
pub open spec fn is_upper(b: u8) -> bool {
    ('A' as u8) <= b && b <= ('Z' as u8)
}

/// A small letter.
pub open spec fn is_lower(b: u8) -> bool {
    ('a' as u8) <= b && b <= ('z' as u8)
}

/// A byte that can stand inside an identifier.
pub open spec fn is_word(b: u8) -> bool {
    is_upper(b) || is_lower(b) || is_digit(b) || b == '_' as u8
}

/// A byte that continues the encoding of a character.
pub open spec fn is_continuation(b: u8) -> bool {
    0x80 <= b <= 0xbf
}

/// The first position from `pos` on that holds neither a blank nor a line
/// break, or the end of the input.
pub open spec fn skip_end(src: Seq<u8>, pos: int) -> int
    decreases src.len() - pos,
{
    if 0 <= pos < src.len() && (is_blank(src[pos]) || is_newline(src[pos])) {
        skip_end(src, pos + 1)
    } else {
        pos
    }
}

/// The end of the run of identifier bytes that starts at `pos`.
pub open spec fn word_end(src: Seq<u8>, pos: int) -> int
    decreases src.len() - pos,
{
    if 0 <= pos < src.len() && is_word(src[pos]) {
        word_end(src, pos + 1)
    } else {
        pos
    }
}

/// The end of the run of digits that starts at `pos`.
pub open spec fn digits_end(src: Seq<u8>, pos: int) -> int
    decreases src.len() - pos,
{
    if 0 <= pos < src.len() && is_digit(src[pos]) {
        digits_end(src, pos + 1)
    } else {
        pos
    }
}

/// The position of the first line break from `pos` on, or the end of the
/// input.
pub open spec fn line_end(src: Seq<u8>, pos: int) -> int
    decreases src.len() - pos,
{
    if 0 <= pos < src.len() && !is_newline(src[pos]) {
        line_end(src, pos + 1)
    } else {
        pos
    }
}

/// The end of the run of spaces and tabs that starts at `pos`.
pub open spec fn gap_end(src: Seq<u8>, pos: int) -> int
    decreases src.len() - pos,
{
    if 0 <= pos < src.len() && (src[pos] == ' ' as u8 || src[pos] == '\t' as u8) {
        gap_end(src, pos + 1)
    } else {
        pos
    }
}

/// The end of the run of continuation bytes that starts at `pos`.
pub open spec fn character_end(src: Seq<u8>, pos: int) -> int
    decreases src.len() - pos,
{
    if 0 <= pos < src.len() && is_continuation(src[pos]) {
        character_end(src, pos + 1)
    } else {
        pos
    }
}

/// The two bytes at `pos` are `first` and `second`.
pub open spec fn pair_at(src: Seq<u8>, pos: int, first: u8, second: u8) -> bool {
    0 <= pos && pos + 1 < src.len() && src[pos] == first && src[pos + 1] == second
}

/// Where the block comment ends that is open `depth` levels deep at `pos`:
/// the position after the closer that brings the depth to 0. An opener
/// `(*` raises the depth and a closer `*)` lowers it; either is passed as
/// a whole, any other byte alone. None if the input ends first.
pub open spec fn comment_end(src: Seq<u8>, pos: int, depth: nat) -> Option<int>
    decreases src.len() - pos,
{
    if pos < 0 || pos >= src.len() {
        None
    } else if pair_at(src, pos, '(' as u8, '*' as u8) {
        comment_end(src, pos + 2, depth + 1)
    } else if pair_at(src, pos, '*' as u8, ')' as u8) {
        if depth <= 1 {
            Some(pos + 2)
        } else {
            comment_end(src, pos + 2, (depth - 1) as nat)
        }
    } else {
        comment_end(src, pos + 1, depth)
    }
}

/// How the scan of a string literal ends.
pub enum StringEnd {
    /// The closing quote was found; the literal ends after it.
    Closed(int),
    /// A line break or the end of the input was met, at the given position.
    Open(int),
    /// A backslash followed by the digit 0 was met; it ends at the given
    /// position.
    Escape(int),
}

/// The scan of the inside of a string literal from `pos` on. A backslash
/// takes the byte after it along, or, where only spaces and tabs stand
/// between it and the next line break, everything up to and including that
/// line break. A backslash before the digit 0 is refused, and so is a line
/// break that no backslash announces.
pub open spec fn string_end(src: Seq<u8>, pos: int) -> StringEnd
    decreases src.len() - pos,
{
    if pos < 0 || pos >= src.len() {
        StringEnd::Open(src.len() as int)
    } else if src[pos] == '"' as u8 {
        StringEnd::Closed(pos + 1)
    } else if is_newline(src[pos]) {
        StringEnd::Open(pos)
    } else if src[pos] == '\\' as u8 {
        if pos + 1 >= src.len() {
            StringEnd::Open(src.len() as int)
        } else if src[pos + 1] == '0' as u8 {
            StringEnd::Escape(pos + 2)
        } else {
            let gap = gap_end(src, pos + 1);
            if pos < gap < src.len() && is_newline(src[gap]) {
                string_end(src, gap + 1)
            } else {
                string_end(src, pos + 2)
            }
        }
    } else {
        string_end(src, pos + 1)
    }
}

/// The number that a run of digits spells.
pub open spec fn decimal(digits: Seq<u8>) -> nat
    decreases digits.len(),
{
    if digits.len() == 0 {
        0
    } else {
        (decimal(digits.drop_last()) * 10 + (digits.last() - ('0' as u8))) as nat
    }
}

/// The lower-case form of a letter; any other byte is left as it is.
pub open spec fn lowered(b: u8) -> u8 {
    if is_upper(b) {
        (b + 32) as u8
    } else {
        b
    }
}

/// `text` is `word`, letter for letter.
pub open spec fn spells(text: Seq<u8>, word: Seq<char>) -> bool {
    &&& text.len() == word.len()
    &&& forall|i: int| 0 <= i < text.len() ==> text[i] == #[trigger] word[i] as u8
}

/// `text` is the lower-case word `word` but for the case of its letters.
pub open spec fn spells_loosely(text: Seq<u8>, word: Seq<char>) -> bool {
    &&& text.len() == word.len()
    &&& forall|i: int| 0 <= i < text.len() ==> lowered(text[i]) == #[trigger] word[i] as u8
}

/// The reserved word that `text` is, whatever the case of its letters.
pub open spec fn reserved(text: Seq<u8>) -> Option<TokenKind> {
    if spells_loosely(text, "class"@) {
        Some(TokenKind::Class)
    } else if spells_loosely(text, "else"@) {
        Some(TokenKind::Else)
    } else if spells_loosely(text, "fi"@) {
        Some(TokenKind::Fi)
    } else if spells_loosely(text, "if"@) {
        Some(TokenKind::If)
    } else if spells_loosely(text, "in"@) {
        Some(TokenKind::In)
    } else if spells_loosely(text, "inherits"@) {
        Some(TokenKind::Inherits)
    } else if spells_loosely(text, "isvoid"@) {
        Some(TokenKind::Isvoid)
    } else if spells_loosely(text, "let"@) {
        Some(TokenKind::Let)
    } else if spells_loosely(text, "loop"@) {
        Some(TokenKind::Loop)
    } else if spells_loosely(text, "pool"@) {
        Some(TokenKind::Pool)
    } else if spells_loosely(text, "then"@) {
        Some(TokenKind::Then)
    } else if spells_loosely(text, "while"@) {
        Some(TokenKind::While)
    } else if spells_loosely(text, "case"@) {
        Some(TokenKind::Case)
    } else if spells_loosely(text, "esac"@) {
        Some(TokenKind::Esac)
    } else if spells_loosely(text, "new"@) {
        Some(TokenKind::New)
    } else if spells_loosely(text, "of"@) {
        Some(TokenKind::Of)
    } else if spells_loosely(text, "not"@) {
        Some(TokenKind::Not)
    } else {
        None
    }
}

/// The kind of token that a run of identifier bytes is, which starts with
/// a letter: a reserved word whatever the case of its letters; `self` and
/// `SELF_TYPE` as they are written here; `true` and `false` whatever the
/// case of their letters but the first, which is small; else an identifier
/// of types if it starts with a capital letter and of objects if not.
pub open spec fn word_kind(text: Seq<u8>) -> TokenKind {
    match reserved(text) {
        Some(kind) => kind,
        None => {
            if spells(text, "self"@) {
                TokenKind::SelfLit
            } else if spells(text, "SELF_TYPE"@) {
                TokenKind::SelfType
            } else if is_lower(text[0]) && spells_loosely(text, "true"@) {
                TokenKind::True
            } else if is_lower(text[0]) && spells_loosely(text, "false"@) {
                TokenKind::False
            } else if is_upper(text[0]) {
                TokenKind::TypeIdentifier
            } else {
                TokenKind::ObjectIdentifier
            }
        },
    }
}

/// One step of the tokenizer: what was found, and the bytes it spans.
pub struct Lexeme {
    pub found: Result<TokenView, LexError>,
    pub start: int,
    pub end: int,
}

/// The token of kind `kind` without text that spans `start..end`.
pub open spec fn mark(kind: TokenKind, start: int, end: int) -> Lexeme {
    Lexeme { found: Ok(plain(kind)), start, end }
}

/// The failure `error` that spans `start..end`.
pub open spec fn failure(error: LexError, start: int, end: int) -> Lexeme {
    Lexeme { found: Err(error), start, end }
}

/// The text of the bytes `start..end`.
pub open spec fn text_between(src: Seq<u8>, start: int, end: int) -> Seq<char> {
    decode_utf8(src.subrange(start, end))
}

/// The token that starts with a digit at `pos`: the whole run of digits,
/// which is an integer if its value fits.
pub open spec fn number_at(src: Seq<u8>, pos: int) -> Lexeme {
    let end = digits_end(src, pos);
    let value = decimal(src.subrange(pos, end));
    if value <= i32::MAX {
        Lexeme { found: Ok(numbered(value as int)), start: pos, end }
    } else {
        failure(LexError::IntegerOutOfRange, pos, end)
    }
}

/// The token that starts with a letter at `pos`: the whole run of
/// identifier bytes.
pub open spec fn word_at(src: Seq<u8>, pos: int) -> Lexeme {
    let end = word_end(src, pos);
    let kind = word_kind(src.subrange(pos, end));
    if kind == TokenKind::TypeIdentifier || kind == TokenKind::ObjectIdentifier {
        Lexeme { found: Ok(worded(kind, text_between(src, pos, end))), start: pos, end }
    } else {
        mark(kind, pos, end)
    }
}

/// The token that starts with a double quote at `pos`: a string literal
/// with its quotes, or the failure that ends its scan. The failure spans
/// the literal as far as it was scanned: up to the line break, or up to the
/// end of the refused escape.
pub open spec fn string_at(src: Seq<u8>, pos: int) -> Lexeme {
    match string_end(src, pos + 1) {
        StringEnd::Closed(end) => Lexeme {
            found: Ok(worded(TokenKind::String, text_between(src, pos, end))),
            start: pos,
            end,
        },
        StringEnd::Open(end) => failure(LexError::UnterminatedString, pos, end),
        StringEnd::Escape(end) => failure(LexError::InvalidEscape, pos, end),
    }
}

/// The token that starts with an operator or a punctuation mark at `pos`.
/// Two bytes that form a token are taken together: `--` opens a comment
/// that runs to the end of the line, `(*` a block comment; `<=`, `<-` and
/// `=>` are tokens of their own. A block comment that is not closed is a
/// failure that spans the rest of the input. A byte that starts no token
/// is a failure that spans the character it belongs to.
pub open spec fn symbol_at(src: Seq<u8>, pos: int) -> Lexeme {
    let b = src[pos];
    if pair_at(src, pos, '-' as u8, '-' as u8) {
        mark(TokenKind::Comment, pos, line_end(src, pos + 2))
    } else if pair_at(src, pos, '(' as u8, '*' as u8) {
        match comment_end(src, pos + 2, 1) {
            Some(end) => mark(TokenKind::Comment, pos, end),
            None => failure(LexError::UnterminatedComment, pos, src.len() as int),
        }
    } else if pair_at(src, pos, '<' as u8, '=' as u8) {
        mark(TokenKind::LessThanOrEqual, pos, pos + 2)
    } else if pair_at(src, pos, '<' as u8, '-' as u8) {
        mark(TokenKind::Assign, pos, pos + 2)
    } else if pair_at(src, pos, '=' as u8, '>' as u8) {
        mark(TokenKind::DoubleArrow, pos, pos + 2)
    } else if b == '+' as u8 {
        mark(TokenKind::Plus, pos, pos + 1)
    } else if b == '-' as u8 {
        mark(TokenKind::Minus, pos, pos + 1)
    } else if b == '*' as u8 {
        mark(TokenKind::Multiply, pos, pos + 1)
    } else if b == '/' as u8 {
        mark(TokenKind::Divide, pos, pos + 1)
    } else if b == '~' as u8 {
        mark(TokenKind::Tilde, pos, pos + 1)
    } else if b == '<' as u8 {
        mark(TokenKind::LessThan, pos, pos + 1)
    } else if b == '=' as u8 {
        mark(TokenKind::Equal, pos, pos + 1)
    } else if b == '(' as u8 {
        mark(TokenKind::LeftParen, pos, pos + 1)
    } else if b == ')' as u8 {
        mark(TokenKind::RightParen, pos, pos + 1)
    } else if b == ':' as u8 {
        mark(TokenKind::Colon, pos, pos + 1)
    } else if b == '@' as u8 {
        mark(TokenKind::TypeId, pos, pos + 1)
    } else if b == '{' as u8 {
        mark(TokenKind::LeftBrace, pos, pos + 1)
    } else if b == '}' as u8 {
        mark(TokenKind::RightBrace, pos, pos + 1)
    } else if b == ';' as u8 {
        mark(TokenKind::Semicolon, pos, pos + 1)
    } else if b == '.' as u8 {
        mark(TokenKind::Dot, pos, pos + 1)
    } else if b == ',' as u8 {
        mark(TokenKind::Comma, pos, pos + 1)
    } else {
        failure(LexError::UnrecognizedChar, pos, character_end(src, pos + 1))
    }
}

/// The token, or the failure, that starts at `pos`, where a byte stands
/// that is neither a blank nor a line break.
pub open spec fn lexeme_at(src: Seq<u8>, pos: int) -> Lexeme {
    let b = src[pos];
    if is_digit(b) {
        number_at(src, pos)
    } else if is_upper(b) || is_lower(b) {
        word_at(src, pos)
    } else if b == '"' as u8 {
        string_at(src, pos)
    } else {
        symbol_at(src, pos)
    }
}

/// What the tokenizer yields when it goes on from `pos`: the token or
/// failure after the blanks and line breaks that stand there, or nothing
/// where only those are left.
pub open spec fn next_lexeme(src: Seq<u8>, pos: int) -> Option<Lexeme> {
    let start = skip_end(src, pos);
    if 0 <= start < src.len() {
        Some(lexeme_at(src, start))
    } else {
        None
    }
}

/// The number of line breaks among the bytes `from..to`.
pub open spec fn line_breaks(src: Seq<u8>, from: int, to: int) -> nat
    decreases to - from,
{
    if to <= from {
        0
    } else if 0 <= to - 1 < src.len() && is_newline(src[to - 1]) {
        line_breaks(src, from, to - 1) + 1
    } else {
        line_breaks(src, from, to - 1)
    }
}

/// The offset at which the line begins that `to` lies on: the position
/// after the last line break among the bytes `from..to`, or `otherwise`
/// where there is none.
pub open spec fn line_start(src: Seq<u8>, from: int, to: int, otherwise: int) -> int
    decreases to - from,
{
    if to <= from {
        otherwise
    } else if 0 <= to - 1 < src.len() && is_newline(src[to - 1]) {
        to
    } else {
        line_start(src, from, to - 1, otherwise)
    }
}

/// The line breaks among `from..to` are those among `from..mid` and those
/// among `mid..to`.
pub proof fn lemma_line_breaks_add(src: Seq<u8>, from: int, mid: int, to: int)
    requires
        from <= mid <= to,
    ensures
        line_breaks(src, from, to) == line_breaks(src, from, mid) + line_breaks(src, mid, to),
    decreases to - mid,
{
    if mid < to {
        lemma_line_breaks_add(src, from, mid, to - 1);
    }
}

/// The line of `to` begins where it begins by the count from `mid` on,
/// if that count starts from where the line of `mid` begins.
pub proof fn lemma_line_start_add(src: Seq<u8>, from: int, mid: int, to: int, otherwise: int)
    requires
        from <= mid <= to,
    ensures
        line_start(src, from, to, otherwise) == line_start(
            src,
            mid,
            to,
            line_start(src, from, mid, otherwise),
        ),
    decreases to - mid,
{
    if mid < to {
        lemma_line_start_add(src, from, mid, to - 1, otherwise);
    }
}

/// The token that stands for a lexeme in the token stream: the token that
/// was found, or the `Error` token where none was.
pub open spec fn recovered(found: Result<TokenView, LexError>) -> TokenView {
    match found {
        Ok(token) => token,
        Err(_) => plain(TokenKind::Error),
    }
}

/// All that the tokenizer yields from `pos` on, in order.
pub open spec fn lexemes(src: Seq<u8>, pos: int) -> Seq<Lexeme>
    decreases src.len() - pos,
    via lexemes_end
{
    match next_lexeme(src, pos) {
        None => Seq::empty(),
        Some(lexeme) => seq![lexeme] + lexemes(src, lexeme.end),
    }
}

/// The lexemes from `pos` on are well defined: every lexeme ends behind
/// its start.
#[via_fn]
proof fn lexemes_end(src: Seq<u8>, pos: int) {
    if 0 <= pos <= src.len() {
        lemma_tokens_cover_the_text(src, pos);
    }
}

/// The blanks and line breaks that are skipped from `pos` on end within
/// the text, before a byte that is neither.
pub proof fn lemma_skip_end(src: Seq<u8>, pos: int)
    requires
        0 <= pos <= src.len(),
    ensures
        pos <= skip_end(src, pos) <= src.len(),
        forall|i: int| pos <= i < skip_end(src, pos) ==> is_blank(src[i]) || is_newline(src[i]),
        skip_end(src, pos) < src.len() ==> !is_blank(src[skip_end(src, pos)]) && !is_newline(
            src[skip_end(src, pos)],
        ),
    decreases src.len() - pos,
{
    if pos < src.len() && (is_blank(src[pos]) || is_newline(src[pos])) {
        lemma_skip_end(src, pos + 1);
    }
}

/// A run of digits ends within the text, and behind `pos` if a digit
/// stands there.
pub proof fn lemma_digits_end_bounds(src: Seq<u8>, pos: int)
    requires
        0 <= pos <= src.len(),
    ensures
        pos <= digits_end(src, pos) <= src.len(),
        pos < src.len() && is_digit(src[pos]) ==> pos < digits_end(src, pos),
    decreases src.len() - pos,
{
    if pos < src.len() && is_digit(src[pos]) {
        lemma_digits_end_bounds(src, pos + 1);
    }
}

/// A line ends within the text.
pub proof fn lemma_line_end_bounds(src: Seq<u8>, pos: int)
    requires
        0 <= pos <= src.len(),
    ensures
        pos <= line_end(src, pos) <= src.len(),
    decreases src.len() - pos,
{
    if pos < src.len() && !is_newline(src[pos]) {
        lemma_line_end_bounds(src, pos + 1);
    }
}

/// A run of spaces and tabs ends within the text.
pub proof fn lemma_gap_end_bounds(src: Seq<u8>, pos: int)
    requires
        0 <= pos <= src.len(),
    ensures
        pos <= gap_end(src, pos) <= src.len(),
    decreases src.len() - pos,
{
    if pos < src.len() && (src[pos] == ' ' as u8 || src[pos] == '\t' as u8) {
        lemma_gap_end_bounds(src, pos + 1);
    }
}

/// A run of continuation bytes ends within the text.
pub proof fn lemma_character_end_bounds(src: Seq<u8>, pos: int)
    requires
        0 <= pos <= src.len(),
    ensures
        pos <= character_end(src, pos) <= src.len(),
    decreases src.len() - pos,
{
    if pos < src.len() && is_continuation(src[pos]) {
        lemma_character_end_bounds(src, pos + 1);
    }
}

/// A block comment that is closed ends within the text, behind its
/// closer.
pub proof fn lemma_comment_end_bounds(src: Seq<u8>, pos: int, depth: nat)
    requires
        0 <= pos <= src.len(),
    ensures
        comment_end(src, pos, depth) matches Some(end) ==> pos + 2 <= end <= src.len(),
    decreases src.len() - pos,
{
    if pos < src.len() {
        if pair_at(src, pos, '(' as u8, '*' as u8) {
            lemma_comment_end_bounds(src, pos + 2, depth + 1);
        } else if pair_at(src, pos, '*' as u8, ')' as u8) {
            if depth > 1 {
                lemma_comment_end_bounds(src, pos + 2, (depth - 1) as nat);
            }
        } else {
            lemma_comment_end_bounds(src, pos + 1, depth);
        }
    }
}

/// The scan of a string literal ends within the text.
pub proof fn lemma_string_end_bounds(src: Seq<u8>, pos: int)
    requires
        0 <= pos <= src.len(),
    ensures
        match string_end(src, pos) {
            StringEnd::Closed(end) => pos < end <= src.len(),
            StringEnd::Open(end) => pos <= end <= src.len(),
            StringEnd::Escape(end) => pos + 2 <= end <= src.len(),
        },
    decreases src.len() - pos,
{
    if pos < src.len() {
        if src[pos] == '"' as u8 {
        } else if is_newline(src[pos]) {
        } else if src[pos] == '\\' as u8 {
            if pos + 1 < src.len() && src[pos + 1] != '0' as u8 {
                let gap = gap_end(src, pos + 1);
                lemma_gap_end_bounds(src, pos + 1);
                if gap < src.len() && is_newline(src[gap]) {
                    lemma_string_end_bounds(src, gap + 1);
                } else {
                    lemma_string_end_bounds(src, pos + 2);
                }
            }
        } else {
            lemma_string_end_bounds(src, pos + 1);
        }
    }
}

/// A token or failure starts where it is looked for and takes at least
/// one byte of the text.
pub proof fn lemma_lexeme_advances(src: Seq<u8>, pos: int)
    requires
        0 <= pos < src.len(),
    ensures
        lexeme_at(src, pos).start == pos,
        pos < lexeme_at(src, pos).end <= src.len(),
{
    lemma_digits_end_bounds(src, pos);
    lemma_word_end_bounds(src, pos);
    lemma_string_end_bounds(src, pos + 1);
    lemma_character_end_bounds(src, pos + 1);
    if pos + 2 <= src.len() {
        lemma_line_end_bounds(src, pos + 2);
        lemma_comment_end_bounds(src, pos + 2, 1);
    }
}

/// The tokens and failures cover the text without gap or overlap: what
/// the tokenizer yields next starts at or behind the position from which
/// it goes on, only blanks and line breaks stand between the two, and it
/// takes at least one byte. Where it yields nothing, only blanks and line
/// breaks are left.
pub proof fn lemma_tokens_cover_the_text(src: Seq<u8>, pos: int)
    requires
        0 <= pos <= src.len(),
    ensures
        match next_lexeme(src, pos) {
            Some(lexeme) => {
                &&& pos <= lexeme.start < lexeme.end <= src.len()
                &&& forall|i: int|
                    pos <= i < lexeme.start ==> is_blank(src[i]) || is_newline(src[i])
            },
            None => forall|i: int| pos <= i < src.len() ==> is_blank(src[i]) || is_newline(src[i]),
        },
{
    lemma_skip_end(src, pos);
    if skip_end(src, pos) < src.len() {
        lemma_lexeme_advances(src, skip_end(src, pos));
    }
}

/// `word` is a reserved word and `kind` the kind of its token.
pub open spec fn is_reserved_word(word: Seq<char>, kind: TokenKind) -> bool {
    ||| word == "class"@ && kind == TokenKind::Class
    ||| word == "else"@ && kind == TokenKind::Else
    ||| word == "fi"@ && kind == TokenKind::Fi
    ||| word == "if"@ && kind == TokenKind::If
    ||| word == "in"@ && kind == TokenKind::In
    ||| word == "inherits"@ && kind == TokenKind::Inherits
    ||| word == "isvoid"@ && kind == TokenKind::Isvoid
    ||| word == "let"@ && kind == TokenKind::Let
    ||| word == "loop"@ && kind == TokenKind::Loop
    ||| word == "pool"@ && kind == TokenKind::Pool
    ||| word == "then"@ && kind == TokenKind::Then
    ||| word == "while"@ && kind == TokenKind::While
    ||| word == "case"@ && kind == TokenKind::Case
    ||| word == "esac"@ && kind == TokenKind::Esac
    ||| word == "new"@ && kind == TokenKind::New
    ||| word == "of"@ && kind == TokenKind::Of
    ||| word == "not"@ && kind == TokenKind::Not
}

/// The run of identifier bytes that starts at `pos`.
pub open spec fn word_text(src: Seq<u8>, pos: int) -> Seq<u8> {
    src.subrange(pos, word_end(src, pos))
}

/// A run of identifier bytes that is a reserved word but for the case of
/// its letters is the token of that word, and no identifier.
pub proof fn lemma_reserved_word_is_its_token(
    src: Seq<u8>,
    pos: int,
    word: Seq<char>,
    kind: TokenKind,
)
    requires
        0 <= pos < src.len(),
        is_upper(src[pos]) || is_lower(src[pos]),
        is_reserved_word(word, kind),
        spells_loosely(word_text(src, pos), word),
    ensures
        lexeme_at(src, pos) == mark(kind, pos, word_end(src, pos)),
{
    let text = word_text(src, pos);
    reveal_strlit("class");
    reveal_strlit("else");
    reveal_strlit("fi");
    reveal_strlit("if");
    reveal_strlit("in");
    reveal_strlit("inherits");
    reveal_strlit("isvoid");
    reveal_strlit("let");
    reveal_strlit("loop");
    reveal_strlit("pool");
    reveal_strlit("then");
    reveal_strlit("while");
    reveal_strlit("case");
    reveal_strlit("esac");
    reveal_strlit("new");
    reveal_strlit("of");
    reveal_strlit("not");
    reveal_strlit("self");
    reveal_strlit("SELF_TYPE");
    reveal_strlit("true");
    reveal_strlit("false");
    lemma_words_differ(text);
    lemma_word_end_bounds(src, pos);
    assert(reserved(text) == Some(kind));
}

/// A run of identifier bytes that is `true` or `false` but for the case of
/// its letters is the token of that truth value if its first letter is
/// small, and an identifier of types if it is a capital.
pub proof fn lemma_truth_values(src: Seq<u8>, pos: int)
    requires
        0 <= pos < src.len(),
        is_upper(src[pos]) || is_lower(src[pos]),
    ensures
        is_lower(src[pos]) && spells_loosely(word_text(src, pos), "true"@) ==> lexeme_at(src, pos)
            == mark(TokenKind::True, pos, word_end(src, pos)),
        is_lower(src[pos]) && spells_loosely(word_text(src, pos), "false"@) ==> lexeme_at(src, pos)
            == mark(TokenKind::False, pos, word_end(src, pos)),
        is_upper(src[pos]) && (spells_loosely(word_text(src, pos), "true"@) || spells_loosely(
            word_text(src, pos),
            "false"@,
        )) ==> lexeme_at(src, pos).found == Ok::<TokenView, LexError>(
            worded(
                TokenKind::TypeIdentifier,
                text_between(src, pos, word_end(src, pos)),
            ),
        ),
{
    let text = word_text(src, pos);
    reveal_strlit("class");
    reveal_strlit("else");
    reveal_strlit("fi");
    reveal_strlit("if");
    reveal_strlit("in");
    reveal_strlit("inherits");
    reveal_strlit("isvoid");
    reveal_strlit("let");
    reveal_strlit("loop");
    reveal_strlit("pool");
    reveal_strlit("then");
    reveal_strlit("while");
    reveal_strlit("case");
    reveal_strlit("esac");
    reveal_strlit("new");
    reveal_strlit("of");
    reveal_strlit("not");
    reveal_strlit("self");
    reveal_strlit("SELF_TYPE");
    reveal_strlit("true");
    reveal_strlit("false");
    lemma_words_differ(text);
    lemma_first_letters(text, "true"@);
    lemma_first_letters(text, "false"@);
    lemma_word_end_bounds(src, pos);
    assert(text[0] == src[pos]);
    if spells(text, "self"@) {
        assert(text[0] == "self"@[0] as u8);
    }
}

/// The first letters of a text that spells `word` but for the case of its
/// letters are those of `word`.
proof fn lemma_first_letters(text: Seq<u8>, word: Seq<char>)
    ensures
        spells_loosely(text, word) ==> {
            &&& text.len() == word.len()
            &&& (word.len() > 0 ==> lowered(text[0]) == word[0] as u8)
            &&& (word.len() > 1 ==> lowered(text[1]) == word[1] as u8)
            &&& (word.len() > 2 ==> lowered(text[2]) == word[2] as u8)
            &&& (word.len() > 3 ==> lowered(text[3]) == word[3] as u8)
            &&& (word.len() > 4 ==> lowered(text[4]) == word[4] as u8)
        },
{
    if spells_loosely(text, word) {
        if word.len() > 0 {
            assert(lowered(text[0]) == word[0] as u8);
        }
        if word.len() > 1 {
            assert(lowered(text[1]) == word[1] as u8);
        }
        if word.len() > 2 {
            assert(lowered(text[2]) == word[2] as u8);
        }
        if word.len() > 3 {
            assert(lowered(text[3]) == word[3] as u8);
        }
        if word.len() > 4 {
            assert(lowered(text[4]) == word[4] as u8);
        }
    }
}

/// 1 if `text` spells `word` but for the case of its letters, else 0.
pub open spec fn spelled(text: Seq<u8>, word: Seq<char>) -> nat {
    if spells_loosely(text, word) {
        1
    } else {
        0
    }
}

/// The number of reserved words and truth values that `text` spells but
/// for the case of its letters.
pub open spec fn words_spelled(text: Seq<u8>) -> nat {
    spelled(text, "class"@) + spelled(text, "else"@) + spelled(text, "fi"@) +
    spelled(text, "if"@) + spelled(text, "in"@) + spelled(text, "inherits"@) +
    spelled(text, "isvoid"@) + spelled(text, "let"@) + spelled(text, "loop"@) +
    spelled(text, "pool"@) + spelled(text, "then"@) + spelled(text, "while"@) +
    spelled(text, "case"@) + spelled(text, "esac"@) + spelled(text, "new"@) +
    spelled(text, "of"@) + spelled(text, "not"@) + spelled(text, "true"@) +
    spelled(text, "false"@)
}

/// The words that are reserved differ from one another, and from `true`
/// and `false`, in their length or among their first five letters. So a
/// text spells at most one of them, whatever the case of its letters.
proof fn lemma_words_differ(text: Seq<u8>)
    ensures
        words_spelled(text) <= 1,
{
    reveal_strlit("class");
    reveal_strlit("else");
    reveal_strlit("fi");
    reveal_strlit("if");
    reveal_strlit("in");
    reveal_strlit("inherits");
    reveal_strlit("isvoid");
    reveal_strlit("let");
    reveal_strlit("loop");
    reveal_strlit("pool");
    reveal_strlit("then");
    reveal_strlit("while");
    reveal_strlit("case");
    reveal_strlit("esac");
    reveal_strlit("new");
    reveal_strlit("of");
    reveal_strlit("not");
    reveal_strlit("true");
    reveal_strlit("false");
    lemma_first_letters(text, "class"@);
    lemma_first_letters(text, "else"@);
    lemma_first_letters(text, "fi"@);
    lemma_first_letters(text, "if"@);
    lemma_first_letters(text, "in"@);
    lemma_first_letters(text, "inherits"@);
    lemma_first_letters(text, "isvoid"@);
    lemma_first_letters(text, "let"@);
    lemma_first_letters(text, "loop"@);
    lemma_first_letters(text, "pool"@);
    lemma_first_letters(text, "then"@);
    lemma_first_letters(text, "while"@);
    lemma_first_letters(text, "case"@);
    lemma_first_letters(text, "esac"@);
    lemma_first_letters(text, "new"@);
    lemma_first_letters(text, "of"@);
    lemma_first_letters(text, "not"@);
    lemma_first_letters(text, "true"@);
    lemma_first_letters(text, "false"@);
}

/// The run of identifier bytes that starts at `pos` ends within the text,
/// and behind `pos` if an identifier byte stands there.
pub proof fn lemma_word_end_bounds(src: Seq<u8>, pos: int)
    requires
        0 <= pos <= src.len(),
    ensures
        pos <= word_end(src, pos) <= src.len(),
        pos < src.len() && is_word(src[pos]) ==> pos < word_end(src, pos),
    decreases src.len() - pos,
{
    if pos < src.len() && is_word(src[pos]) {
        lemma_word_end_bounds(src, pos + 1);
    }
}

/// The bytes `from..to` hold no parenthesis and no asterisk.
pub open spec fn without_comment_marks(src: Seq<u8>, from: int, to: int) -> bool {
    forall|i: int|
        from <= i < to ==> src[i] != '(' as u8 && src[i] != '*' as u8 && src[i] != ')' as u8
}

/// The bytes `from..to` are comments nested `depth` deep: text without
/// comment marks, enclosed in `depth` openers and as many closers.
pub open spec fn nested(src: Seq<u8>, from: int, to: int, depth: nat) -> bool
    decreases depth,
{
    if depth == 0 {
        from <= to && without_comment_marks(src, from, to)
    } else {
        &&& from + 4 <= to
        &&& pair_at(src, from, '(' as u8, '*' as u8)
        &&& pair_at(src, to - 2, '*' as u8, ')' as u8)
        &&& nested(src, from + 2, to - 2, (depth - 1) as nat)
    }
}

/// The scan of a block comment passes over comments nested in it and is as
/// deep behind them as it was before them.
proof fn lemma_scan_passes_nested(src: Seq<u8>, from: int, to: int, depth: nat, level: nat)
    requires
        0 <= from,
        to <= src.len(),
        level >= 1,
        nested(src, from, to, depth),
    ensures
        comment_end(src, from, level) == comment_end(src, to, level),
    decreases depth, to - from,
{
    if depth == 0 {
        if from < to {
            assert(nested(src, from + 1, to, 0));
            lemma_scan_passes_nested(src, from + 1, to, 0, level);
        }
    } else {
        lemma_scan_passes_nested(src, from + 2, to - 2, (depth - 1) as nat, level + 1);
    }
}

/// A block comment in which comments are nested to any depth is one
/// comment token, which ends with its own closer.
pub proof fn lemma_nested_comment_is_one_token(src: Seq<u8>, pos: int, end: int, depth: nat)
    requires
        0 <= pos,
        end <= src.len(),
        depth >= 1,
        nested(src, pos, end, depth),
    ensures
        lexeme_at(src, pos) == mark(TokenKind::Comment, pos, end),
{
    lemma_scan_passes_nested(src, pos + 2, end - 2, (depth - 1) as nat, 1);
}

/// A block comment that is not closed is a failure that spans the rest of
/// the text, and the tokenizer yields nothing after it.
pub proof fn lemma_open_comment_takes_the_rest(src: Seq<u8>, pos: int)
    requires
        pair_at(src, pos, '(' as u8, '*' as u8),
        comment_end(src, pos + 2, 1) is None,
    ensures
        lexeme_at(src, pos) == failure(LexError::UnterminatedComment, pos, src.len() as int),
        next_lexeme(src, lexeme_at(src, pos).end) is None,
{
}

/// The bytes `from..to` hold no double quote, no backslash and no line
/// break.
pub open spec fn without_string_marks(src: Seq<u8>, from: int, to: int) -> bool {
    forall|i: int|
        from <= i < to ==> src[i] != '"' as u8 && src[i] != '\\' as u8 && !is_newline(src[i])
}

/// The scan of a string literal passes over bytes that are no string
/// marks.
proof fn lemma_scan_passes_plain(src: Seq<u8>, from: int, to: int)
    requires
        0 <= from <= to <= src.len(),
        without_string_marks(src, from, to),
    ensures
        string_end(src, from) == string_end(src, to),
    decreases to - from,
{
    if from < to {
        lemma_scan_passes_plain(src, from + 1, to);
    }
}

/// A string literal that meets a line break at `at` is a failure that
/// spans the literal up to the line break.
pub proof fn lemma_line_break_ends_string(src: Seq<u8>, pos: int, at: int)
    requires
        0 <= pos < at < src.len(),
        src[pos] == '"' as u8,
        without_string_marks(src, pos + 1, at),
        is_newline(src[at]),
    ensures
        lexeme_at(src, pos) == failure(LexError::UnterminatedString, pos, at),
{
    lemma_scan_passes_plain(src, pos + 1, at);
}

/// A string literal in which a backslash stands before the line break at
/// `at + 1` goes on behind it: with no other string marks up to the
/// closing quote at `close`, it is a string token.
pub proof fn lemma_backslash_continues_string(src: Seq<u8>, pos: int, at: int, close: int)
    requires
        0 <= pos < at,
        at + 2 <= close < src.len(),
        src[pos] == '"' as u8,
        without_string_marks(src, pos + 1, at),
        src[at] == '\\' as u8,
        is_newline(src[at + 1]),
        without_string_marks(src, at + 2, close),
        src[close] == '"' as u8,
    ensures
        lexeme_at(src, pos).found == Ok::<TokenView, LexError>(
            worded(TokenKind::String, text_between(src, pos, close + 1)),
        ),
        lexeme_at(src, pos).end == close + 1,
{
    lemma_scan_passes_plain(src, pos + 1, at);
    lemma_scan_passes_plain(src, at + 2, close);
    assert(gap_end(src, at + 1) == at + 1);
}

/// A string literal with a line break in it fails, and the same literal
/// with a backslash before the line break is a string token: for all
/// texts `before` and `after` without string marks.
pub proof fn lemma_line_break_in_string(before: Seq<u8>, after: Seq<u8>)
    requires
        without_string_marks(before, 0, before.len() as int),
        without_string_marks(after, 0, after.len() as int),
    ensures
        ({
            let broken = seq!['"' as u8] + before + seq!['\n' as u8] + after + seq!['"' as u8];
            lexeme_at(broken, 0) == failure(
                LexError::UnterminatedString,
                0,
                1 + before.len() as int,
            )
        }),
        ({
            let mended = seq!['"' as u8] + before + seq!['\\' as u8, '\n' as u8] + after
                + seq!['"' as u8];
            &&& lexeme_at(mended, 0).found == Ok::<TokenView, LexError>(
                worded(TokenKind::String, text_between(mended, 0, mended.len() as int)),
            )
            &&& lexeme_at(mended, 0).end == mended.len()
        }),
{
    let broken = seq!['"' as u8] + before + seq!['\n' as u8] + after + seq!['"' as u8];
    let at = 1 + before.len() as int;
    assert(forall|i: int| 1 <= i < at ==> broken[i] == before[i - 1]);
    lemma_line_break_ends_string(broken, 0, at);
    let mended = seq!['"' as u8] + before + seq!['\\' as u8, '\n' as u8] + after + seq!['"' as u8];
    let close = mended.len() - 1;
    assert(forall|i: int| 1 <= i < at ==> mended[i] == before[i - 1]);
    assert(forall|i: int| at + 2 <= i < close ==> mended[i] == after[i - at - 2]);
    lemma_backslash_continues_string(mended, 0, at, close);
}

/// The spans of what the tokenizer yields rise with the order in which it
/// yields it: each lies within the text behind the position from which
/// the tokenizer went on, and behind all spans before it.
pub proof fn lemma_spans_rise(src: Seq<u8>, pos: int)
    requires
        0 <= pos <= src.len(),
    ensures
        forall|i: int|
            0 <= i < lexemes(src, pos).len() ==> pos <= (#[trigger] lexemes(src, pos)[i]).start
                < lexemes(src, pos)[i].end <= src.len(),
        forall|i: int, j: int|
            0 <= i < j < lexemes(src, pos).len() ==> (#[trigger] lexemes(src, pos)[i]).end <= (
            #[trigger] lexemes(src, pos)[j]).start,
    decreases src.len() - pos,
{
    lemma_tokens_cover_the_text(src, pos);
    match next_lexeme(src, pos) {
        None => {},
        Some(first) => {
            lemma_spans_rise(src, first.end);
            let rest = lexemes(src, first.end);
            let all = lexemes(src, pos);
            assert(all =~= seq![first] + rest);
            assert(forall|i: int| 1 <= i < all.len() ==> all[i] == rest[i - 1]);
            assert forall|i: int, j: int| 0 <= i < j < all.len() implies (#[trigger] all[i]).end <= (
            #[trigger] all[j]).start by {
                assert(all[j] == rest[j - 1]);
                if i > 0 {
                    assert(all[i] == rest[i - 1]);
                }
            }
        },
    }
}

/// An identifier, a reserved word or an integer is the longest run that
/// starts where it starts: the run holds identifier bytes, or digits, only,
/// and it ends at the end of the text or before a byte of another kind.
pub proof fn lemma_runs_are_longest(src: Seq<u8>, pos: int)
    requires
        0 <= pos <= src.len(),
    ensures
        forall|i: int| pos <= i < word_end(src, pos) ==> is_word(src[i]),
        word_end(src, pos) < src.len() ==> !is_word(src[word_end(src, pos)]),
        forall|i: int| pos <= i < digits_end(src, pos) ==> is_digit(src[i]),
        digits_end(src, pos) < src.len() ==> !is_digit(src[digits_end(src, pos)]),
    decreases src.len() - pos,
{
    lemma_word_end_bounds(src, pos);
    lemma_digits_end_bounds(src, pos);
    if pos < src.len() {
        lemma_runs_are_longest(src, pos + 1);
    }
}

} // verus!
