//! Where in the source text a span lies, and how to show it: the line and
//! column, the text of the line, and a row of carets under the span.

use vstd::prelude::*;
use vstd::string::*;
use vstd::utf8::*;
use crate::lexical::{
    is_newline, lemma_tokens_cover_the_text, line_breaks, line_end, line_start, next_lexeme,
    text_between, LexError,
};
use crate::lexer::{count_lines, scan_line, Lexer};
use crate::text::{lemma_boundary_after_ascii, piece};
use crate::token::Span;

verus! {

/// A span of the source text, made ready to be shown.
#[derive(Debug, PartialEq)]
pub struct Diagnostic {
    /// The span itself.
    pub span: Span,
    /// The number of the line, counted from 1.
    pub line: usize,
    /// The byte at which the span starts in its line, counted from 1.
    pub column: usize,
    /// The text that the span holds.
    pub text: String,
    /// The text of the line, with each tab replaced by the spaces that
    /// lead to the next tab stop. Tab stops stand every 8 columns.
    pub line_text: String,
    /// The row to print under the line: spaces up to the column at which
    /// the span starts on the screen, then one caret for each byte of the
    /// span, and at least one.
    pub indicator: String,
}

/// `n`, or the largest `usize` if `n` is larger.
pub open spec fn capped(n: int) -> nat {
    if n > usize::MAX {
        usize::MAX as nat
    } else if n < 0 {
        0
    } else {
        n as nat
    }
}

/// The column on the screen after the character `c` is written at column
/// `col`: the next tab stop for a tab, one further for any other.
pub open spec fn advance(c: char, col: nat) -> nat {
    if c == '\t' {
        capped(col + 8 - col % 8)
    } else {
        capped((col + 1) as int)
    }
}

/// The column on the screen after `chars` is written from column `col` on.
pub open spec fn width(chars: Seq<char>, col: nat) -> nat
    decreases chars.len(),
{
    if chars.len() == 0 {
        col
    } else {
        width(chars.drop_first(), advance(chars[0], col))
    }
}

/// `unit`, `n` times in a row.
pub open spec fn repeated(unit: Seq<char>, n: nat) -> Seq<char>
    decreases n,
{
    if n == 0 {
        Seq::empty()
    } else {
        repeated(unit, (n - 1) as nat) + unit
    }
}

/// What the character `c` becomes when it is written at column `col`:
/// spaces up to the next tab stop for a tab, itself for any other.
pub open spec fn shown(c: char, col: nat) -> Seq<char> {
    if c == '\t' {
        repeated(" "@, (advance(c, col) - col) as nat)
    } else {
        seq![c]
    }
}

/// `chars` as it appears on the screen when written from column `col` on.
pub open spec fn expanded(chars: Seq<char>, col: nat) -> Seq<char>
    decreases chars.len(),
{
    if chars.len() == 0 {
        Seq::empty()
    } else {
        shown(chars[0], col) + expanded(chars.drop_first(), advance(chars[0], col))
    }
}

/// The offset at which the line begins that stands `n` lines after the
/// line that begins at `from`, or the end of the text if there is none.
pub open spec fn line_from(src: Seq<u8>, n: nat, from: int) -> int
    decreases n,
{
    if n == 0 {
        from
    } else {
        let end = line_end(src, from);
        if 0 <= end < src.len() {
            line_from(src, (n - 1) as nat, end + 1)
        } else {
            src.len() as int
        }
    }
}

/// The offset at which the text of the line ends that begins at `start`:
/// before its line break, and before the carriage return that may stand
/// before the line break.
pub open spec fn line_stop(src: Seq<u8>, start: int) -> int {
    let end = line_end(src, start);
    if start < end < src.len() && src[end - 1] == '\r' as u8 {
        end - 1
    } else {
        end
    }
}

/// The first offset from `index` on at which a character starts, or the end
/// of the text.
pub open spec fn settled(src: Seq<u8>, index: int) -> int
    decreases src.len() - index,
{
    if index < 0 || index >= src.len() {
        src.len() as int
    } else if is_char_boundary(src, index) {
        index
    } else {
        settled(src, index + 1)
    }
}

/// What is shown of the span `span` of the text `src`, when `line` line
/// breaks have been counted before it and the current line is taken to
/// begin at `line_begin`.
pub struct Shown {
    pub line: nat,
    pub column: nat,
    pub text: Seq<char>,
    pub line_text: Seq<char>,
    pub indicator: Seq<char>,
}

/// The number of bytes between the start of the line and `offset`, 0 if
/// `offset` lies before it.
pub open spec fn column_of(offset: int, line_begin: int) -> nat {
    if offset >= line_begin {
        (offset - line_begin) as nat
    } else {
        0
    }
}

/// The number of carets under a span that runs from column `from` to
/// column `to`.
pub open spec fn carets(from: nat, to: nat) -> nat {
    if to > from {
        (to - from) as nat
    } else {
        1
    }
}

/// What is shown of the span `span` in the text `src`, where `line` line
/// breaks stand before the span and the last of them ends at `line_begin`:
/// the line and column counted from 1, the text of the span, the line
/// with its tabs expanded, and the carets under the span.
pub open spec fn show(src: Seq<u8>, span: Span, line: int, line_begin: int) -> Shown {
    let start = line_from(src, capped(line), 0);
    let stop = line_stop(src, start);
    let from = column_of(span.start as int, line_begin);
    let to = column_of(span.end as int, line_begin);
    let cut = if start + from < stop {
        settled(src, start + from)
    } else {
        stop
    };
    let first = settled(src, span.start as int);
    let last = settled(src, span.end as int);
    Shown {
        line: capped(line + 1),
        column: capped((from + 1) as int),
        text: if first <= last {
            text_between(src, first, last)
        } else {
            Seq::empty()
        },
        line_text: expanded(text_between(src, start, stop), 0),
        indicator: repeated(" "@, width(text_between(src, start, cut), 0)) + repeated(
            "^"@,
            carets(from, to),
        ),
    }
}

impl View for Diagnostic {
    type V = Shown;

    open spec fn view(&self) -> Shown {
        Shown {
            line: self.line as nat,
            column: self.column as nat,
            text: self.text@,
            line_text: self.line_text@,
            indicator: self.indicator@,
        }
    }
}

/// The text `unit`, `n` times.
fn repeat(unit: &str, n: usize) -> (out: String)
    ensures
        out@ == repeated(unit@, n as nat),
{
    let mut out = String::new();
    let mut i: usize = 0;
    while i < n
        invariant
            i <= n,
            out@ == repeated(unit@, i as nat),
        decreases n - i,
    {
        out.append(unit);
        i = i + 1;
    }
    out
}

/// The column behind the character `c` that stands at column `col`.
fn step(c: char, col: usize) -> (next: usize)
    ensures
        next == advance(c, col as nat),
        col <= next <= col + 8,
{
    if c == '\t' {
        col.saturating_add(8 - col % 8)
    } else {
        col.saturating_add(1)
    }
}

/// The column on the screen after `text` is written from column 0 on.
fn measure(text: &str) -> (col: usize)
    ensures
        col == width(text@, 0),
{
    let n = text.unicode_len();
    let mut i: usize = 0;
    let mut col: usize = 0;
    assert(text@.skip(0) =~= text@);
    while i < n
        invariant
            i <= n,
            n == text@.len(),
            width(text@, 0) == width(text@.skip(i as int), col as nat),
        decreases n - i,
    {
        let c = text.get_char(i);
        assert(text@.skip(i as int).drop_first() =~= text@.skip(i + 1));
        col = step(c, col);
        i = i + 1;
    }
    col
}

/// `text` as it appears on the screen when written from column 0 on.
fn expand(text: &str) -> (out: String)
    ensures
        out@ == expanded(text@, 0),
{
    let n = text.unicode_len();
    let mut out = String::new();
    let mut i: usize = 0;
    let mut col: usize = 0;
    assert(text@.skip(0) =~= text@);
    while i < n
        invariant
            i <= n,
            n == text@.len(),
            expanded(text@, 0) =~= out@ + expanded(text@.skip(i as int), col as nat),
        decreases n - i,
    {
        let c = text.get_char(i);
        let next = step(c, col);
        let ghost before = out@;
        assert(text@.skip(i as int).drop_first() =~= text@.skip(i + 1));
        if c == '\t' {
            let pad = repeat(" ", next - col);
            out.append(pad.as_str());
        } else {
            let one = text.substring_char(i, i + 1);
            assert(one@ =~= seq![c]);
            out.append(one);
        }
        assert(out@ =~= before + shown(c, col as nat));
        col = next;
        i = i + 1;
    }
    out
}

/// The first offset from `index` on at which a character of `source`
/// starts, or the end of the text.
fn settle(source: &str, index: usize) -> (at: usize)
    ensures
        at == settled(source.spec_bytes(), index as int),
        at <= source.spec_bytes().len(),
        is_char_boundary(source.spec_bytes(), at as int),
{
    proof {
        encode_utf8_valid_utf8(source@);
        is_char_boundary_start_end_of_seq(source.spec_bytes());
    }
    let len = source.as_bytes().len();
    if index >= len {
        return len;
    }
    let mut at = index;
    while at < len && !source.is_char_boundary(at)
        invariant
            index <= at <= len,
            len == source.spec_bytes().len(),
            settled(source.spec_bytes(), index as int) == settled(source.spec_bytes(), at as int),
            is_char_boundary(source.spec_bytes(), len as int),
        decreases len - at,
    {
        at = at + 1;
    }
    at
}

/// The offsets between which the text of line `n` of `src` lies.
fn find_line(src: &[u8], n: usize) -> (bounds: (usize, usize))
    ensures
        bounds.0 == line_from(src@, n as nat, 0),
        bounds.1 == line_stop(src@, bounds.0 as int),
        bounds.0 <= bounds.1 <= src.len(),
        bounds.0 == 0 || bounds.0 == src.len() || is_newline(src@[bounds.0 - 1]),
        bounds.1 == src.len() || src@[bounds.1 as int] < 128,
{
    let mut start: usize = 0;
    let mut left = n;
    while left > 0
        invariant
            start <= src.len(),
            line_from(src@, n as nat, 0) == line_from(src@, left as nat, start as int),
            start == 0 || start == src.len() || is_newline(src@[start - 1]),
        decreases left,
    {
        let end = scan_line(src, start);
        if end < src.len() {
            start = end + 1;
            left = left - 1;
        } else {
            start = src.len();
            left = 0;
            assert(line_from(src@, 0, start as int) == start);
        }
    }
    let end = scan_line(src, start);
    if start < end && end < src.len() && src[end - 1] == '\r' as u8 {
        (start, end - 1)
    } else {
        (start, end)
    }
}

/// Makes the span `span` of `source` ready to be shown. `line` is the
/// number of line breaks counted before the span, and `line_begin` the
/// offset at which its line is taken to begin.
///
/// The line that is shown is line `line` of the text, counted from 0; an
/// empty line is shown if the text has fewer. The carets start under the
/// character of that line which `span.start - line_begin` bytes precede.
pub fn diagnose(source: &str, span: Span, line: usize, line_begin: usize) -> (d: Diagnostic)
    ensures
        d@ == show(source.spec_bytes(), span, line as int, line_begin as int),
        d.span == span,
{
    proof {
        encode_utf8_valid_utf8(source@);
        is_char_boundary_start_end_of_seq(source.spec_bytes());
    }
    let src = source.as_bytes();
    let (start, stop) = find_line(src, line);
    proof {
        if 0 < start < src.len() {
            lemma_boundary_after_ascii(src@, start - 1);
        }
        if stop < src.len() {
            is_char_boundary_iff_not_is_continuation_byte(src@, stop as int);
        }
    }
    let from = if span.start >= line_begin {
        span.start - line_begin
    } else {
        0
    };
    let to = if span.end >= line_begin {
        span.end - line_begin
    } else {
        0
    };
    let cut = if from < stop - start {
        let at = settle(source, start + from);
        proof {
            lemma_settled_before(src@, start + from, stop as int);
        }
        at
    } else {
        stop
    };
    let first = settle(source, span.start);
    let last = settle(source, span.end);
    let text = if first <= last {
        piece(source, first, last).to_owned()
    } else {
        String::new()
    };
    let count = if to > from {
        to - from
    } else {
        1
    };
    let mut indicator = repeat(" ", measure(piece(source, start, cut)));
    let marks = repeat("^", count);
    indicator.append(marks.as_str());
    Diagnostic {
        span,
        line: line.saturating_add(1),
        column: from.saturating_add(1),
        text,
        line_text: expand(piece(source, start, stop)),
        indicator,
    }
}

/// A character starts at the latest where the next known start is.
proof fn lemma_settled_before(src: Seq<u8>, index: int, stop: int)
    requires
        0 <= index <= stop <= src.len(),
        is_char_boundary(src, stop),
    ensures
        index <= settled(src, index) <= stop,
    decreases stop - index,
{
    if index < stop && !is_char_boundary(src, index) {
        lemma_settled_before(src, index + 1, stop);
    }
}

/// A failure of the tokenizer, and the bytes it spans.
pub struct Failure {
    pub error: LexError,
    pub span: Span,
}

/// The failures among what the tokenizer yields from `pos` on, in order.
pub open spec fn failures(src: Seq<u8>, pos: int) -> Seq<Failure>
    decreases src.len() - pos,
    via failures_end
{
    match next_lexeme(src, pos) {
        None => Seq::empty(),
        Some(lexeme) => {
            let rest = failures(src, lexeme.end);
            match lexeme.found {
                Ok(_) => rest,
                Err(error) => seq![
                    Failure {
                        error,
                        span: Span { start: lexeme.start as usize, end: lexeme.end as usize },
                    },
                ] + rest,
            }
        },
    }
}

/// The failures from `pos` on are well defined: every lexeme ends behind
/// its start.
#[via_fn]
proof fn failures_end(src: Seq<u8>, pos: int) {
    if 0 <= pos <= src.len() {
        lemma_tokens_cover_the_text(src, pos);
    }
}

/// A failure of the tokenizer, made ready to be shown.
#[derive(Debug, PartialEq)]
pub struct LexFailure {
    pub error: LexError,
    pub diagnostic: Diagnostic,
}

/// The failures `found` are the failures `all` of the tokenizer on `src`,
/// each shown in the line on which it starts: line breaks count wherever
/// they stand before it, between tokens or inside one.
pub open spec fn shows_failures(found: Seq<LexFailure>, src: Seq<u8>, all: Seq<Failure>) -> bool {
    &&& found.len() == all.len()
    &&& forall|i: int|
        0 <= i < found.len() ==> {
            &&& (#[trigger] found[i]).error == all[i].error
            &&& found[i].diagnostic.span == all[i].span
            &&& found[i].diagnostic@ == show_span(src, all[i].span)
        }
}

/// Tokenizes `source` and reports every stretch that is no token, in the
/// order of the text. Each report shows the line on which the stretch
/// starts, and the column at which it starts in that line.
pub fn lex_diagnostics(source: &str) -> (found: Vec<LexFailure>)
    ensures
        shows_failures(found@, source.spec_bytes(), failures(source.spec_bytes(), 0)),
{
    let mut lexer = Lexer::new(source);
    let mut found: Vec<LexFailure> = Vec::new();
    let ghost src = source.spec_bytes();
    let ghost seen: Seq<Failure> = Seq::empty();
    loop
        invariant
            src == source.spec_bytes(),
            lexer.bytes() == src,
            0 <= lexer.position() <= src.len(),
            failures(src, 0) =~= seen + failures(src, lexer.position()),
            shows_failures(found@, src, seen),
        decreases src.len() - lexer.position(),
    {
        let ghost before = lexer.position();
        let ghost rest = failures(src, before);
        match lexer.next() {
            None => {
                assert(rest =~= Seq::<Failure>::empty());
                assert(seen + Seq::<Failure>::empty() =~= seen);
                assert(failures(src, 0) == seen);
                return found;
            },
            Some(Ok(_)) => {
                assert(rest =~= failures(src, lexer.position()));
            },
            Some(Err(error)) => {
                let span = lexer.span();
                let (line, line_begin) = lexer.extras();
                let ghost failure = Failure { error, span };
                proof {
                    let after = failures(src, lexer.position());
                    assert(rest =~= seq![failure] + after);
                    assert(seen + (seq![failure] + after) =~= seen.push(failure) + after);
                    seen = seen.push(failure);
                }
                let diagnostic = diagnose(source, span, line, line_begin);
                found.push(LexFailure { error, diagnostic });
            },
        }
    }
}

/// The line on which `offset` lies, by the count of all line breaks before
/// it, and the offset at which that line begins. An offset behind the end
/// of the text is taken as the end.
pub fn locate(source: &str, offset: usize) -> (place: (usize, usize))
    ensures
        place.0 == line_breaks(source.spec_bytes(), 0, within(source.spec_bytes(), offset)),
        place.1 == line_start(source.spec_bytes(), 0, within(source.spec_bytes(), offset), 0),
{
    let src = source.as_bytes();
    let stop = if offset < src.len() {
        offset
    } else {
        src.len()
    };
    count_lines(src, 0, stop, 0, 0)
}

/// What is shown of the span `span` of the text `src`, in the line on
/// which the span starts: line breaks count wherever they stand before it.
pub open spec fn show_span(src: Seq<u8>, span: Span) -> Shown {
    show(
        src,
        span,
        line_breaks(src, 0, within(src, span.start)) as int,
        line_start(src, 0, within(src, span.start), 0),
    )
}

/// Makes the span `span` of `source` ready to be shown, in the line on
/// which it starts: the number of the line and the column in it, both
/// counted from 1, the text of that line, and the carets under the span.
pub fn diagnose_span(source: &str, span: Span) -> (d: Diagnostic)
    ensures
        d@ == show_span(source.spec_bytes(), span),
        d.span == span,
{
    let (line, line_begin) = locate(source, span.start);
    diagnose(source, span, line, line_begin)
}

/// `offset`, or the length of the text if `offset` lies behind its end.
pub open spec fn within(src: Seq<u8>, offset: usize) -> int {
    if offset < src.len() {
        offset as int
    } else {
        src.len() as int
    }
}

} // verus!
